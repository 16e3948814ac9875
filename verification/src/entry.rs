//! The entries of a load order and their mathematical views.

use vstd::prelude::*;

verus! {

/// The group a service declares itself a member of.
pub struct NtLoadOrderEntryGroup {
    /// The name of the group as the registry spells it.
    pub display_name: String,
    /// The lowercased name, by which groups are compared and looked up.
    pub search_key: String,
}

/// What a group is to the contracts: its two names as character sequences.
pub struct GroupView {
    pub display_name: Seq<char>,
    pub search_key: Seq<char>,
}

impl View for NtLoadOrderEntryGroup {
    type V = GroupView;

    open spec fn view(&self) -> GroupView {
        GroupView { display_name: self.display_name@, search_key: self.search_key@ }
    }
}

impl Clone for NtLoadOrderEntryGroup {
    fn clone(&self) -> (res: Self)
        ensures
            res == *self,
    {
        NtLoadOrderEntryGroup {
            display_name: self.display_name.clone(),
            search_key: self.search_key.clone(),
        }
    }
}

/// One module in the load order.
pub struct NtLoadOrderEntry {
    pub name: String,
    /// Backslash-separated path of the image, relative to the system root.
    pub image_path: String,
    pub group: Option<NtLoadOrderEntryGroup>,
    pub tag: Option<u32>,
    /// How the entry came to stand where it stands. Later passes only ever
    /// append to it.
    pub reason: String,
    /// Set for the kernel binaries, whose places at the front are fixed.
    pub is_kernel_binary: bool,
}

/// What an entry is to the contracts.
pub struct EntryView {
    pub name: Seq<char>,
    pub image_path: Seq<char>,
    pub group: Option<GroupView>,
    pub tag: Option<u32>,
    pub reason: Seq<char>,
    pub is_kernel_binary: bool,
}

impl View for NtLoadOrderEntry {
    type V = EntryView;

    open spec fn view(&self) -> EntryView {
        EntryView {
            name: self.name@,
            image_path: self.image_path@,
            group: match self.group {
                Some(g) => Some(g@),
                None => None,
            },
            tag: self.tag,
            reason: self.reason@,
            is_kernel_binary: self.is_kernel_binary,
        }
    }
}

impl Clone for NtLoadOrderEntry {
    fn clone(&self) -> (res: Self)
        ensures
            res == *self,
    {
        let group = match &self.group {
            Some(g) => Some(g.clone()),
            None => None,
        };
        NtLoadOrderEntry {
            name: self.name.clone(),
            image_path: self.image_path.clone(),
            group,
            tag: self.tag,
            reason: self.reason.clone(),
            is_kernel_binary: self.is_kernel_binary,
        }
    }
}

/// The views of a sequence of entries, in the same order.
pub open spec fn entry_views(entries: Seq<NtLoadOrderEntry>) -> Seq<EntryView> {
    entries.map_values(|e: NtLoadOrderEntry| e@)
}

} // verus!
