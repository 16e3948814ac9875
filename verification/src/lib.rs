//! Reconstructs the order in which the Windows bootloader loads boot-start
//! drivers and the modules they import.
//!
//! The computation is a pipeline over an order-preserving list of entries:
//! boot-start services are read from a registry snapshot, ordered by tag and
//! group, reordered by the bootloader's built-in overrides, prefixed with the
//! kernel binaries and finally expanded by their transitive imports.

pub mod entry;
pub mod image;
pub mod list;
pub mod load_order;
pub mod registry;
pub mod steps;
pub mod tag_set;
pub mod text;

pub use entry::{EntryView, GroupView, NtLoadOrderEntry, NtLoadOrderEntryGroup};
pub use load_order::{LoadOrderView, NtLoadOrder};
