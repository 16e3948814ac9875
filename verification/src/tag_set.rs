//! The tag order of a group: `indexmap::IndexSet<u32>`, a set that keeps
//! its items in the order in which they were inserted.
//!
//! Verus does not look inside the set. What it holds is given a name, the
//! sequence of its items in insertion order, and the three operations that
//! the library uses are stated over that name.

use vstd::prelude::*;
use vstd::hash_map::StringHashMap;
use indexmap::IndexSet;

verus! {

/// `indexmap::IndexSet`, taken as it is: nothing of its inside is known.
#[verifier::external_type_specification]
#[verifier::external_body]
#[verifier::reject_recursive_types(T)]
#[verifier::reject_recursive_types(S)]
pub struct ExIndexSet<T, S>(IndexSet<T, S>);

/// The tags that a set holds, in the order in which they were inserted.
pub uninterp spec fn tag_set_items(set: IndexSet<u32>) -> Seq<u32>;

/// `IndexSet::new`: a set that holds nothing.
#[verifier::external_body]
pub(crate) fn tag_set_new() -> (set: IndexSet<u32>)
    ensures
        tag_set_items(set) == Seq::<u32>::empty(),
{
    IndexSet::new()
}

/// `IndexSet::insert`: a tag that the set does not hold yet becomes its last
/// item, and the call returns `true`; a tag that it holds changes nothing,
/// and the call returns `false`.
#[verifier::external_body]
pub(crate) fn tag_set_insert(set: &mut IndexSet<u32>, tag: u32) -> (added: bool)
    ensures
        added == !tag_set_items(*old(set)).contains(tag),
        tag_set_items(*final(set)) == (if added {
            tag_set_items(*old(set)).push(tag)
        } else {
            tag_set_items(*old(set))
        }),
{
    set.insert(tag)
}

/// `IndexSet::get_index_of`: the place of the tag among the items, counted
/// from zero, or `None` where the set does not hold it. The number of items
/// is a `usize`.
#[verifier::external_body]
pub(crate) fn tag_set_index_of(set: &IndexSet<u32>, tag: u32) -> (index: Option<usize>)
    ensures
        match index {
            Some(i) => {
                &&& i < tag_set_items(*set).len() <= usize::MAX
                &&& tag_set_items(*set)[i as int] == tag
                &&& forall|j: int| 0 <= j < i ==> tag_set_items(*set)[j] != tag
            },
            None => !tag_set_items(*set).contains(tag),
        },
{
    set.get_index_of(&tag)
}

/// The tag orders of all groups, each under the lowercased name of its
/// group.
pub open spec fn group_tables(groups: StringHashMap<IndexSet<u32>>) -> Map<Seq<char>, Seq<u32>> {
    groups@.map_values(|set: IndexSet<u32>| tag_set_items(set))
}

/// The first place at which a tag stands in a sequence of tags.
pub open spec fn first_position(tags: Seq<u32>, tag: u32) -> Option<int>
    decreases tags.len(),
{
    if tags.len() == 0 {
        None
    } else if tags[0] == tag {
        Some(0)
    } else {
        match first_position(tags.drop_first(), tag) {
            Some(i) => Some(i + 1),
            None => None,
        }
    }
}

/// The first position of a tag is a place where it stands and in front of
/// which it does not stand; there is none where the tag does not occur.
pub proof fn lemma_first_position(tags: Seq<u32>, tag: u32)
    ensures
        match first_position(tags, tag) {
            Some(i) => {
                &&& 0 <= i < tags.len()
                &&& tags[i] == tag
                &&& forall|j: int| 0 <= j < i ==> tags[j] != tag
            },
            None => !tags.contains(tag),
        },
    decreases tags.len(),
{
    if tags.len() > 0 && tags[0] != tag {
        let rest = tags.drop_first();
        lemma_first_position(rest, tag);
        match first_position(rest, tag) {
            Some(i) => {
                assert forall|j: int| 0 <= j < i + 1 implies tags[j] != tag by {
                    if j > 0 {
                        assert(rest[j - 1] == tags[j]);
                    }
                }
            },
            None => {
                assert forall|j: int| 0 <= j < tags.len() implies tags[j] != tag by {
                    if j > 0 {
                        assert(rest[j - 1] == tags[j]);
                        assert(rest.contains(rest[j - 1]) || rest[j - 1] != tag);
                    }
                }
            },
        }
    }
}

} // verus!
