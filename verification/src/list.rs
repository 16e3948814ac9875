//! The ordered entry list: `dlv_list::VecList`, a doubly linked list kept in a
//! vector, whose elements are reached through handles that stay valid while
//! other elements are inserted or moved.
//!
//! Verus does not look inside the list. Its contents are given two names, the
//! views of its entries and their handles, both front to back, and each list
//! operation used by the library is stated over them.

use vstd::prelude::*;
use dlv_list::{Index, VecList};
use crate::entry::{entry_views, EntryView, NtLoadOrderEntry};

verus! {

/// `dlv_list::VecList`, taken as it is: nothing of its inside is known.
#[verifier::external_type_specification]
#[verifier::external_body]
#[verifier::reject_recursive_types(T)]
pub struct ExVecList<T>(VecList<T>);

/// `dlv_list::Index`, the handle of an element of a `VecList`, taken as it
/// is: nothing of its inside is known.
#[verifier::external_type_specification]
#[verifier::external_body]
#[verifier::reject_recursive_types(T)]
pub struct ExIndex<T>(Index<T>);

/// The views of the entries that a list holds, front to back.
pub uninterp spec fn list_entries(list: VecList<NtLoadOrderEntry>) -> Seq<EntryView>;

/// The handles of the entries that a list holds, front to back.
pub uninterp spec fn list_handles(list: VecList<NtLoadOrderEntry>) -> Seq<Index<NtLoadOrderEntry>>;

/// A list is valid when every entry has exactly one handle and no handle
/// stands for two entries. Every list made by this library is valid.
pub open spec fn list_valid(list: VecList<NtLoadOrderEntry>) -> bool {
    &&& list_handles(list).len() == list_entries(list).len()
    &&& list_handles(list).no_duplicates()
}

/// Where in the list the entry with this handle stands.
pub open spec fn position_of(list: VecList<NtLoadOrderEntry>, handle: Index<NtLoadOrderEntry>) -> int {
    list_handles(list).index_of(handle)
}

/// A sequence after its element at `from` was taken out and put back in
/// front of the element that stood at `to`.
pub open spec fn moved_before<A>(s: Seq<A>, from: int, to: int) -> Seq<A> {
    if from < to {
        s.remove(from).insert(to - 1, s[from])
    } else {
        s.remove(from).insert(to, s[from])
    }
}

/// Whether the second entry is the first one but for its reason, which
/// begins with the reason of the first: reasons are only ever appended to.
pub open spec fn extends(before: EntryView, after: EntryView) -> bool {
    &&& after == (EntryView { reason: after.reason, ..before })
    &&& before.reason.is_prefix_of(after.reason)
}

/// Whether every handle of the first sequence of handles is one of the
/// second and stands there for the entry that it stood for, with the
/// reason of that entry at most appended to.
pub open spec fn handles_kept(
    handles: Seq<Index<NtLoadOrderEntry>>,
    entries: Seq<EntryView>,
    new_handles: Seq<Index<NtLoadOrderEntry>>,
    new_entries: Seq<EntryView>,
) -> bool {
    forall|h: Index<NtLoadOrderEntry>| #[trigger]
        handles.contains(h) ==> new_handles.contains(h) && extends(
            entries[handles.index_of(h)],
            new_entries[new_handles.index_of(h)],
        )
}

/// Whether every handle of the first list is a handle of the second and
/// stands there for the same entry, with its reason at most appended to.
pub open spec fn entries_kept(before: VecList<NtLoadOrderEntry>, after: VecList<NtLoadOrderEntry>) -> bool {
    handles_kept(
        list_handles(before),
        list_entries(before),
        list_handles(after),
        list_entries(after),
    )
}

/// `VecList::new`: a list that holds nothing.
#[verifier::external_body]
pub(crate) fn list_new() -> (list: VecList<NtLoadOrderEntry>)
    ensures
        list_entries(list) == Seq::<EntryView>::empty(),
        list_handles(list) == Seq::<Index<NtLoadOrderEntry>>::empty(),
{
    VecList::new()
}

/// `VecList::push_back`: the entry becomes the last one, under a handle that
/// no entry of the list had. The outside function panics when the length
/// would reach `usize::MAX`.
#[verifier::external_body]
pub(crate) fn list_push_back(list: &mut VecList<NtLoadOrderEntry>, entry: NtLoadOrderEntry) -> (handle: Index<NtLoadOrderEntry>)
    requires
        list_entries(*old(list)).len() + 1 < usize::MAX,
    ensures
        list_entries(*final(list)) == list_entries(*old(list)).push(entry@),
        list_handles(*final(list)) == list_handles(*old(list)).push(handle),
        !list_handles(*old(list)).contains(handle),
{
    list.push_back(entry)
}

/// `VecList::push_front`: the entry becomes the first one, under a handle
/// that no entry of the list had. The outside function panics when the
/// length would reach `usize::MAX`.
#[verifier::external_body]
pub(crate) fn list_push_front(list: &mut VecList<NtLoadOrderEntry>, entry: NtLoadOrderEntry) -> (handle: Index<NtLoadOrderEntry>)
    requires
        list_entries(*old(list)).len() + 1 < usize::MAX,
    ensures
        list_entries(*final(list)) == list_entries(*old(list)).insert(0, entry@),
        list_handles(*final(list)) == list_handles(*old(list)).insert(0, handle),
        !list_handles(*old(list)).contains(handle),
{
    list.push_front(entry)
}

/// `VecList::insert_after`: the entry comes to stand directly behind the one
/// with the handle `after`, under a handle that no entry of the list had.
/// The outside function panics on a handle that the list does not hold, and
/// when the length would reach `usize::MAX`.
#[verifier::external_body]
pub(crate) fn list_insert_after(
    list: &mut VecList<NtLoadOrderEntry>,
    after: Index<NtLoadOrderEntry>,
    entry: NtLoadOrderEntry,
) -> (handle: Index<NtLoadOrderEntry>)
    requires
        list_valid(*old(list)),
        list_handles(*old(list)).contains(after),
        list_entries(*old(list)).len() + 1 < usize::MAX,
    ensures
        list_entries(*final(list)) == list_entries(*old(list)).insert(
            position_of(*old(list), after) + 1,
            entry@,
        ),
        list_handles(*final(list)) == list_handles(*old(list)).insert(
            position_of(*old(list), after) + 1,
            handle,
        ),
        !list_handles(*old(list)).contains(handle),
{
    list.insert_after(after, entry)
}

/// `VecList::move_before`: the entry with the handle `moving` is unlinked and
/// linked in again directly in front of the one with the handle `target`;
/// every entry keeps its handle. The outside function panics on a handle
/// that the list does not hold and when both handles are the same.
#[verifier::external_body]
pub(crate) fn list_move_before(
    list: &mut VecList<NtLoadOrderEntry>,
    moving: Index<NtLoadOrderEntry>,
    target: Index<NtLoadOrderEntry>,
)
    requires
        list_valid(*old(list)),
        list_handles(*old(list)).contains(moving),
        list_handles(*old(list)).contains(target),
        moving != target,
    ensures
        list_entries(*final(list)) == moved_before(
            list_entries(*old(list)),
            position_of(*old(list), moving),
            position_of(*old(list), target),
        ),
        list_handles(*final(list)) == moved_before(
            list_handles(*old(list)),
            position_of(*old(list), moving),
            position_of(*old(list), target),
        ),
{
    list.move_before(moving, target)
}

/// `VecList::front_index`: the handle of the first entry, if there is one.
#[verifier::external_body]
pub(crate) fn list_front_index(list: &VecList<NtLoadOrderEntry>) -> (front: Option<Index<NtLoadOrderEntry>>)
    ensures
        front == (if list_handles(*list).len() > 0 {
            Some(list_handles(*list).first())
        } else {
            None
        }),
{
    list.front_index()
}

/// `VecList::back_index`: the handle of the last entry, if there is one.
#[verifier::external_body]
pub(crate) fn list_back_index(list: &VecList<NtLoadOrderEntry>) -> (back: Option<Index<NtLoadOrderEntry>>)
    ensures
        back == (if list_handles(*list).len() > 0 {
            Some(list_handles(*list).last())
        } else {
            None
        }),
{
    list.back_index()
}

/// `VecList::get_next_index`: the handle of the entry behind the one with the
/// given handle; none behind the last entry.
#[verifier::external_body]
pub(crate) fn list_next_index(list: &VecList<NtLoadOrderEntry>, handle: Index<NtLoadOrderEntry>) -> (next: Option<Index<NtLoadOrderEntry>>)
    requires
        list_valid(*list),
        list_handles(*list).contains(handle),
    ensures
        next == (if position_of(*list, handle) + 1 < list_handles(*list).len() {
            Some(list_handles(*list)[position_of(*list, handle) + 1])
        } else {
            None
        }),
{
    list.get_next_index(handle)
}

/// `VecList::get_previous_index`: the handle of the entry in front of the one
/// with the given handle; none in front of the first entry.
#[verifier::external_body]
pub(crate) fn list_previous_index(list: &VecList<NtLoadOrderEntry>, handle: Index<NtLoadOrderEntry>) -> (previous: Option<Index<NtLoadOrderEntry>>)
    requires
        list_valid(*list),
        list_handles(*list).contains(handle),
    ensures
        previous == (if position_of(*list, handle) > 0 {
            Some(list_handles(*list)[position_of(*list, handle) - 1])
        } else {
            None
        }),
{
    list.get_previous_index(handle)
}

/// `VecList::get`: the entry with the given handle. The outside function
/// returns `None` for a handle that the list does not hold, which the
/// precondition leaves out.
#[verifier::external_body]
pub(crate) fn list_get(list: &VecList<NtLoadOrderEntry>, handle: Index<NtLoadOrderEntry>) -> (entry: &NtLoadOrderEntry)
    requires
        list_valid(*list),
        list_handles(*list).contains(handle),
    ensures
        entry@ == list_entries(*list)[position_of(*list, handle)],
{
    list.get(handle).unwrap()
}

/// `VecList::get_mut`: the entry with the given handle, to be changed in
/// place. Whatever the caller leaves in it is what the list then holds at
/// that place; nothing else changes.
#[verifier::external_body]
pub(crate) fn list_get_mut(list: &mut VecList<NtLoadOrderEntry>, handle: Index<NtLoadOrderEntry>) -> (entry: &mut NtLoadOrderEntry)
    requires
        list_valid(*old(list)),
        list_handles(*old(list)).contains(handle),
    ensures
        (*entry)@ == list_entries(*old(list))[position_of(*old(list), handle)],
        list_entries(*final(list)) == list_entries(*old(list)).update(
            position_of(*old(list), handle),
            (*final(entry))@,
        ),
        list_handles(*final(list)) == list_handles(*old(list)),
{
    list.get_mut(handle).unwrap()
}

/// `Index::eq`: two handles are equal when they name the same slot in the
/// same generation, which is all that a handle holds.
#[verifier::external_body]
pub(crate) fn same_handle(a: Index<NtLoadOrderEntry>, b: Index<NtLoadOrderEntry>) -> (same: bool)
    ensures
        same == (a == b),
{
    a == b
}

/// `VecList::into_iter`: the entries leave the list front to back.
#[verifier::external_body]
pub(crate) fn list_into_vec(list: VecList<NtLoadOrderEntry>) -> (entries: Vec<NtLoadOrderEntry>)
    ensures
        entry_views(entries@) == list_entries(list),
{
    list.into_iter().collect()
}

/// Makes a list of the entries, in their order.
pub fn list_from_entries(entries: Vec<NtLoadOrderEntry>) -> (list: VecList<NtLoadOrderEntry>)
    requires
        entries.len() < usize::MAX,
    ensures
        list_valid(list),
        list_entries(list) == entry_views(entries@),
{
    let ghost all = entry_views(entries@);
    let mut entries = entries;
    let mut list = list_new();
    while entries.len() > 0
        invariant
            all.len() < usize::MAX,
            entries@.len() + list_entries(list).len() == all.len(),
            list_valid(list),
            entry_views(entries@) + list_entries(list) == all,
        decreases entries.len(),
    {
        let ghost before = entries@;
        let ghost held = list_entries(list);
        let ghost handles = list_handles(list);
        match entries.pop() {
            Some(entry) => {
                let handle = list_push_front(&mut list, entry);
                proof {
                    assert(entry_views(entries@) + list_entries(list) =~= entry_views(before)
                        + held);
                    lemma_no_duplicates_insert(handles, 0, handle);
                }
            },
            None => {},
        }
    }
    proof {
        assert(entry_views(entries@) + list_entries(list) =~= list_entries(list));
    }
    list
}

/// Makes a list of the entries, the last one in front.
pub fn list_from_entries_reversed(entries: Vec<NtLoadOrderEntry>) -> (list: VecList<
    NtLoadOrderEntry,
>)
    requires
        entries.len() < usize::MAX,
    ensures
        list_valid(list),
        list_entries(list) == entry_views(entries@).reverse(),
{
    let ghost all = entry_views(entries@);
    let mut entries = entries;
    let mut list = list_new();
    while entries.len() > 0
        invariant
            all.len() < usize::MAX,
            entries@.len() <= all.len(),
            list_valid(list),
            entry_views(entries@) == all.take(entries@.len() as int),
            list_entries(list) == all.skip(entries@.len() as int).reverse(),
        decreases entries.len(),
    {
        let ghost handles = list_handles(list);
        let ghost before = entries@;
        match entries.pop() {
            Some(entry) => {
                let handle = list_push_back(&mut list, entry);
                proof {
                    let k = entries@.len() as int;
                    assert(entry_views(entries@) =~= all.take(k));
                    assert(entry_views(before)[k] == before[k]@);
                    assert(all.take(k + 1)[k] == all[k]);
                    assert(entry@ == all[k]);
                    assert(list_entries(list) =~= all.skip(k).reverse());
                    lemma_no_duplicates_insert(handles, handles.len() as int, handle);
                    assert(handles.insert(handles.len() as int, handle) =~= handles.push(handle));
                }
            },
            None => {},
        }
    }
    proof {
        assert(all.skip(0) =~= all);
    }
    list
}

/// A sequence without duplicates stays one when something new goes in.
pub proof fn lemma_no_duplicates_insert<A>(s: Seq<A>, at: int, x: A)
    requires
        s.no_duplicates(),
        !s.contains(x),
        0 <= at <= s.len(),
    ensures
        s.insert(at, x).no_duplicates(),
        s.insert(at, x).len() == s.len() + 1,
        forall|y: A| s.insert(at, x).contains(y) <==> (y == x || s.contains(y)),
{
    let t = s.insert(at, x);
    assert forall|i: int, j: int| 0 <= i < t.len() && 0 <= j < t.len() && i != j implies t[i]
        != t[j] by {
        let oi = if i < at { i } else { i - 1 };
        let oj = if j < at { j } else { j - 1 };
        if i != at {
            assert(t[i] == s[oi]);
            assert(s.contains(s[oi]));
        }
        if j != at {
            assert(t[j] == s[oj]);
            assert(s.contains(s[oj]));
        }
    }
    assert forall|y: A| t.contains(y) implies (y == x || s.contains(y)) by {
        let i = t.index_of(y);
        assert(0 <= i < t.len() && t[i] == y);
        if i != at {
            let oi = if i < at { i } else { i - 1 };
            assert(t[i] == s[oi]);
        }
    }
    assert forall|y: A| (y == x || s.contains(y)) implies t.contains(y) by {
        if y == x {
            assert(t[at] == x);
        } else {
            let i = s.index_of(y);
            assert(0 <= i < s.len() && s[i] == y);
            if i < at {
                assert(t[i] == y);
            } else {
                assert(t[i + 1] == y);
            }
        }
    }
}

/// In a sequence without duplicates an element is found where it stands.
pub proof fn lemma_position<A>(s: Seq<A>, i: int)
    requires
        s.no_duplicates(),
        0 <= i < s.len(),
    ensures
        s.contains(s[i]),
        s.index_of(s[i]) == i,
{
    assert(s.contains(s[i]));
    let j = s.index_of(s[i]);
    assert(0 <= j < s.len() && s[j] == s[i]);
}

/// What moving an element towards the front does to a sequence: the
/// elements from `to` up to `from` shift back by one place, all others stay.
pub proof fn lemma_moved_before<A>(s: Seq<A>, from: int, to: int)
    requires
        0 <= to <= from < s.len(),
    ensures
        moved_before(s, from, to) =~= s.subrange(0, to) + seq![s[from]] + s.subrange(to, from)
            + s.subrange(from + 1, s.len() as int),
        moved_before(s, from, to).len() == s.len(),
        s.no_duplicates() ==> moved_before(s, from, to).no_duplicates(),
        forall|x: A| s.contains(x) <==> moved_before(s, from, to).contains(x),
{
    let t = moved_before(s, from, to);
    let u = s.subrange(0, to) + seq![s[from]] + s.subrange(to, from) + s.subrange(
        from + 1,
        s.len() as int,
    );
    assert(t =~= u);
    assert forall|x: A| s.contains(x) implies t.contains(x) by {
        let i = s.index_of(x);
        assert(0 <= i < s.len() && s[i] == x);
        if i < to {
            assert(t[i] == x);
        } else if i < from {
            assert(t[i + 1] == x);
        } else if i == from {
            assert(t[to] == x);
        } else {
            assert(t[i] == x);
        }
    }
    assert forall|x: A| t.contains(x) implies s.contains(x) by {
        let i = t.index_of(x);
        assert(0 <= i < t.len() && t[i] == x);
        if i < to {
            assert(s[i] == x);
        } else if i == to {
            assert(s[from] == x);
        } else if i <= from {
            assert(s[i - 1] == x);
        } else {
            assert(s[i] == x);
        }
    }
    if s.no_duplicates() {
        assert forall|i: int, j: int| 0 <= i < t.len() && 0 <= j < t.len() && i != j implies t[i]
            != t[j] by {
            let oi = if i < to { i } else if i == to { from } else if i <= from { i - 1 } else { i };
            let oj = if j < to { j } else if j == to { from } else if j <= from { j - 1 } else { j };
            assert(t[i] == s[oi]);
            assert(t[j] == s[oj]);
            assert(oi != oj);
        }
    }
}

/// What moving an element to the front does: it comes first, the elements
/// that stood in front of it shift back by one place, those behind it stay.
pub proof fn lemma_moved_to_front<A>(s: Seq<A>, from: int)
    requires
        0 <= from < s.len(),
    ensures
        moved_before(s, from, 0).len() == s.len(),
        moved_before(s, from, 0)[0] == s[from],
        forall|r: int| 0 <= r < from ==> #[trigger] moved_before(s, from, 0)[r + 1] == s[r],
        forall|r: int| from < r < s.len() ==> #[trigger] moved_before(s, from, 0)[r] == s[r],
        s.no_duplicates() ==> moved_before(s, from, 0).no_duplicates(),
        forall|x: A| s.contains(x) <==> moved_before(s, from, 0).contains(x),
        moved_before(s, from, 0) =~= seq![s[from]] + s.remove(from),
{
    lemma_moved_before(s, from, 0);
}

/// Nothing changed: every handle is kept.
pub proof fn lemma_kept_same(handles: Seq<Index<NtLoadOrderEntry>>, entries: Seq<EntryView>)
    ensures
        handles_kept(handles, entries, handles, entries),
{
    assert forall|h: Index<NtLoadOrderEntry>| #[trigger] handles.contains(h) implies extends(
        entries[handles.index_of(h)],
        entries[handles.index_of(h)],
    ) by {
        let e = entries[handles.index_of(h)];
        assert(e.reason.is_prefix_of(e.reason));
    }
}

/// What is kept twice in a row is kept.
pub proof fn lemma_kept_twice(
    h0: Seq<Index<NtLoadOrderEntry>>,
    s0: Seq<EntryView>,
    h1: Seq<Index<NtLoadOrderEntry>>,
    s1: Seq<EntryView>,
    h2: Seq<Index<NtLoadOrderEntry>>,
    s2: Seq<EntryView>,
)
    requires
        handles_kept(h0, s0, h1, s1),
        handles_kept(h1, s1, h2, s2),
    ensures
        handles_kept(h0, s0, h2, s2),
{
    assert forall|h: Index<NtLoadOrderEntry>| #[trigger] h0.contains(h) implies h2.contains(h)
        && extends(s0[h0.index_of(h)], s2[h2.index_of(h)]) by {
        assert(h1.contains(h));
        let a = s0[h0.index_of(h)];
        let b = s1[h1.index_of(h)];
        let c = s2[h2.index_of(h)];
        assert(extends(a, b) && extends(b, c));
        assert(a.reason.is_prefix_of(c.reason)) by {
            assert(a.reason =~= c.reason.subrange(0, a.reason.len() as int)) by {
                assert(a.reason =~= b.reason.subrange(0, a.reason.len() as int));
                assert(b.reason =~= c.reason.subrange(0, b.reason.len() as int));
            }
        }
    }
}

/// Moving an entry keeps every handle.
pub proof fn lemma_kept_moved(
    handles: Seq<Index<NtLoadOrderEntry>>,
    entries: Seq<EntryView>,
    from: int,
    to: int,
)
    requires
        handles.no_duplicates(),
        handles.len() == entries.len(),
        0 <= to <= from < handles.len(),
    ensures
        handles_kept(
            handles,
            entries,
            moved_before(handles, from, to),
            moved_before(entries, from, to),
        ),
{
    let hs = moved_before(handles, from, to);
    let es = moved_before(entries, from, to);
    lemma_moved_before(handles, from, to);
    lemma_moved_before(entries, from, to);
    assert forall|h: Index<NtLoadOrderEntry>| #[trigger] handles.contains(h) implies hs.contains(h)
        && extends(entries[handles.index_of(h)], es[hs.index_of(h)]) by {
        let i = handles.index_of(h);
        assert(0 <= i < handles.len() && handles[i] == h);
        let j = if i < to {
            i
        } else if i < from {
            i + 1
        } else if i == from {
            to
        } else {
            i
        };
        assert(hs[j] == h);
        assert(es[j] == entries[i]);
        lemma_position(hs, j);
        assert(entries[i].reason.is_prefix_of(entries[i].reason));
    }
}

/// Appending to the reason of one entry keeps every handle.
pub proof fn lemma_kept_updated(
    handles: Seq<Index<NtLoadOrderEntry>>,
    entries: Seq<EntryView>,
    at: int,
    entry: EntryView,
)
    requires
        handles.len() == entries.len(),
        0 <= at < entries.len(),
        extends(entries[at], entry),
    ensures
        handles_kept(handles, entries, handles, entries.update(at, entry)),
{
    assert forall|h: Index<NtLoadOrderEntry>| #[trigger] handles.contains(h) implies extends(
        entries[handles.index_of(h)],
        entries.update(at, entry)[handles.index_of(h)],
    ) by {
        let i = handles.index_of(h);
        assert(0 <= i < handles.len() && handles[i] == h);
        assert(entries[i].reason.is_prefix_of(entries[i].reason));
    }
}

/// Putting a new entry into the list keeps every handle.
pub proof fn lemma_kept_inserted(
    handles: Seq<Index<NtLoadOrderEntry>>,
    entries: Seq<EntryView>,
    at: int,
    handle: Index<NtLoadOrderEntry>,
    entry: EntryView,
)
    requires
        handles.no_duplicates(),
        handles.len() == entries.len(),
        0 <= at <= handles.len(),
        !handles.contains(handle),
    ensures
        handles_kept(handles, entries, handles.insert(at, handle), entries.insert(at, entry)),
{
    let hs = handles.insert(at, handle);
    let es = entries.insert(at, entry);
    lemma_no_duplicates_insert(handles, at, handle);
    assert forall|h: Index<NtLoadOrderEntry>| #[trigger] handles.contains(h) implies hs.contains(h)
        && extends(entries[handles.index_of(h)], es[hs.index_of(h)]) by {
        let i = handles.index_of(h);
        assert(0 <= i < handles.len() && handles[i] == h);
        let j = if i < at {
            i
        } else {
            i + 1
        };
        assert(hs[j] == h);
        assert(es[j] == entries[i]);
        lemma_position(hs, j);
        assert(entries[i].reason.is_prefix_of(entries[i].reason));
    }
}

} // verus!
