//! The kernel binaries, which load before every service.

use vstd::prelude::*;
use vstd::string::*;
use dlv_list::{Index, VecList};
use crate::entry::{EntryView, NtLoadOrderEntry};
use crate::text::joined;
use crate::list::{
    entries_kept, lemma_kept_inserted, lemma_kept_twice, lemma_no_duplicates_insert, lemma_position, list_entries, list_handles, list_insert_after,
    list_push_front, list_valid, position_of,
};

verus! {

/// The entry of a kernel binary: without group and tag, marked as a kernel
/// binary, and with "Kernel binary" as its reason.
pub open spec fn kernel_binary(name: Seq<char>, image_path: Seq<char>) -> EntryView {
    EntryView {
        name,
        image_path,
        group: None,
        tag: None,
        reason: "Kernel binary"@,
        is_kernel_binary: true,
    }
}

/// Makes the entry of a kernel binary.
fn kernel_binary_entry(name: String, image_path: String) -> (entry: NtLoadOrderEntry)
    ensures
        entry@ == kernel_binary(name@, image_path@),
{
    NtLoadOrderEntry {
        name,
        image_path,
        group: None,
        tag: None,
        reason: String::from_str("Kernel binary"),
        is_kernel_binary: true,
    }
}

/// Puts "ntoskrnl.exe" and behind it "hal.dll" in front of the list, and
/// returns the handle of the latter, behind which further kernel binaries
/// go.
pub fn add_basic_kernel_binaries(entries: &mut VecList<NtLoadOrderEntry>) -> (last: Index<
    NtLoadOrderEntry,
>)
    requires
        list_valid(*old(entries)),
        list_entries(*old(entries)).len() + 2 < usize::MAX,
    ensures
        list_valid(*final(entries)),
        list_entries(*final(entries)) == seq![
            kernel_binary("ntoskrnl"@, "System32\\ntoskrnl.exe"@),
            kernel_binary("hal"@, "System32\\hal.dll"@),
        ] + list_entries(*old(entries)),
        list_handles(*final(entries)).contains(last),
        position_of(*final(entries), last) == 1,
        entries_kept(*old(entries), *final(entries)),
{
    let ghost hs = list_handles(*entries);
    let ntoskrnl = list_push_front(
        entries,
        kernel_binary_entry(
            String::from_str("ntoskrnl"),
            String::from_str("System32\\ntoskrnl.exe"),
        ),
    );
    proof {
        lemma_no_duplicates_insert(hs, 0, ntoskrnl);
        lemma_position(list_handles(*entries), 0);
        lemma_kept_inserted(hs, list_entries(*old(entries)), 0, ntoskrnl, list_entries(*entries)[0]);
        assert(list_entries(*entries) =~= list_entries(*old(entries)).insert(
            0,
            list_entries(*entries)[0],
        ));
    }
    let ghost mid = list_entries(*entries);
    let ghost mid_handles = list_handles(*entries);
    let last = add_kernel_binary(
        entries,
        ntoskrnl,
        String::from_str("hal"),
        String::from_str("System32\\hal.dll"),
    );
    proof {
        assert(list_entries(*entries) =~= seq![
            kernel_binary("ntoskrnl"@, "System32\\ntoskrnl.exe"@),
            kernel_binary("hal"@, "System32\\hal.dll"@),
        ] + list_entries(*old(entries)));
        lemma_kept_twice(
            hs,
            list_entries(*old(entries)),
            mid_handles,
            mid,
            list_handles(*entries),
            list_entries(*entries),
        );
    }
    last
}

/// Puts a kernel binary directly behind the entry with the handle `after`,
/// and returns its handle.
pub fn add_kernel_binary(
    entries: &mut VecList<NtLoadOrderEntry>,
    after: Index<NtLoadOrderEntry>,
    name: String,
    image_path: String,
) -> (handle: Index<NtLoadOrderEntry>)
    requires
        list_valid(*old(entries)),
        list_handles(*old(entries)).contains(after),
        list_entries(*old(entries)).len() + 1 < usize::MAX,
    ensures
        list_valid(*final(entries)),
        list_entries(*final(entries)) == list_entries(*old(entries)).insert(
            position_of(*old(entries), after) + 1,
            kernel_binary(name@, image_path@),
        ),
        list_handles(*final(entries)).contains(handle),
        position_of(*final(entries), handle) == position_of(*old(entries), after) + 1,
        entries_kept(*old(entries), *final(entries)),
{
    let ghost hs = list_handles(*entries);
    let ghost at = position_of(*entries, after) + 1;
    let handle = list_insert_after(entries, after, kernel_binary_entry(name, image_path));
    proof {
        assert(0 <= hs.index_of(after) < hs.len());
        lemma_no_duplicates_insert(hs, at, handle);
        lemma_position(list_handles(*entries), at);
        lemma_kept_inserted(
            hs,
            list_entries(*old(entries)),
            at,
            handle,
            kernel_binary(name@, image_path@),
        );
    }
    handle
}

/// The image path of a KD driver.
pub open spec fn kd_driver_path(kd_driver: Seq<char>) -> Seq<char> {
    "System32\\"@ + kd_driver + ".dll"@
}

/// The image path of the microcode update library of a CPU vendor.
pub open spec fn mcupdate_path(cpu_vendor: Seq<char>) -> Seq<char> {
    "System32\\mcupdate_"@ + cpu_vendor + ".dll"@
}

/// The kernel binaries in load order: the kernel, the HAL, the KD driver
/// where one is named, and the microcode update library where a CPU vendor
/// is named.
pub open spec fn kernel_binaries(
    kd_driver: Option<Seq<char>>,
    cpu_vendor: Option<Seq<char>>,
) -> Seq<EntryView> {
    seq![
        kernel_binary("ntoskrnl"@, "System32\\ntoskrnl.exe"@),
        kernel_binary("hal"@, "System32\\hal.dll"@),
    ] + (match kd_driver {
        Some(kd_driver) => seq![kernel_binary(kd_driver, kd_driver_path(kd_driver))],
        None => Seq::empty(),
    }) + (match cpu_vendor {
        Some(cpu_vendor) => seq![kernel_binary("mcupdate"@, mcupdate_path(cpu_vendor))],
        None => Seq::empty(),
    })
}

/// The text of an optional string.
pub open spec fn optional_text(text: Option<String>) -> Option<Seq<char>> {
    match text {
        Some(text) => Some(text@),
        None => None,
    }
}

/// Puts all kernel binaries in front of the list.
pub fn add_kernel_binaries(
    entries: &mut VecList<NtLoadOrderEntry>,
    kd_driver: &Option<String>,
    cpu_vendor: &Option<String>,
)
    requires
        list_valid(*old(entries)),
        list_entries(*old(entries)).len() + 4 < usize::MAX,
    ensures
        list_valid(*final(entries)),
        list_entries(*final(entries)) == kernel_binaries(
            optional_text(*kd_driver),
            optional_text(*cpu_vendor),
        ) + list_entries(*old(entries)),
        entries_kept(*old(entries), *final(entries)),
{
    let ghost s0 = list_entries(*entries);
    let ghost h0 = list_handles(*entries);
    let mut last = add_basic_kernel_binaries(entries);
    let ghost mut at: int = 1;
    match kd_driver {
        Some(kd_driver) => {
            let prefix = joined("System32\\", kd_driver.as_str());
            let image_path = joined(prefix.as_str(), ".dll");
            let ghost h1 = list_handles(*entries);
            let ghost s1 = list_entries(*entries);
            last = add_kernel_binary(entries, last, kd_driver.clone(), image_path);
            proof {
                at = 2;
                lemma_kept_twice(h0, s0, h1, s1, list_handles(*entries), list_entries(*entries));
            }
        },
        None => {},
    }
    match cpu_vendor {
        Some(cpu_vendor) => {
            let prefix = joined("System32\\mcupdate_", cpu_vendor.as_str());
            let image_path = joined(prefix.as_str(), ".dll");
            let ghost h1 = list_handles(*entries);
            let ghost s1 = list_entries(*entries);
            add_kernel_binary(entries, last, String::from_str("mcupdate"), image_path);
            proof {
                lemma_kept_twice(h0, s0, h1, s1, list_handles(*entries), list_entries(*entries));
            }
        },
        None => {},
    }
    proof {
        assert(list_entries(*entries) =~= kernel_binaries(
            optional_text(*kd_driver),
            optional_text(*cpu_vendor),
        ) + s0);
    }
}

} // verus!
