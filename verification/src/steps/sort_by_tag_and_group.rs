//! Ordering by tag within the groups, and by group.

use vstd::prelude::*;
use vstd::hash_map::StringHashMap;
use vstd::string::*;
use dlv_list::{Index, VecList};
use indexmap::IndexSet;
use crate::entry::{EntryView, NtLoadOrderEntry};
use crate::list::{
    entries_kept, handles_kept, lemma_kept_moved, lemma_kept_same, lemma_kept_twice,
    lemma_moved_before, lemma_position, list_back_index, list_entries, list_from_entries_reversed,
    list_front_index, list_get, list_handles, list_move_before, list_next_index, list_valid,
    moved_before, same_handle,
};
use crate::steps::load_from_registry::RegistryInfo;
use crate::steps::{
    matcher_predicate, move_each_to_front, passes, rule_keys, EntryMatcher, MatcherView, PassKey,
    PassRule,
};
use crate::text::string_views;
use crate::tag_set::{first_position, group_tables, lemma_first_position, tag_set_index_of, tag_set_items};

verus! {

/// The index of a tag of which its group's tag order knows nothing: behind
/// every place in a tag order.
pub const UNLISTED_TAG_INDEX: usize = 0xffff_fffe;

/// The index by which a tagged entry of a group is ranked: the place of the
/// tag in the group's tag order, counted from one; `0xffff_fffe` where the
/// order does not list the tag; the tag itself where the group has no tag
/// order.
pub open spec fn tag_index(tag: u32, group_key: Seq<char>, tables: Map<Seq<char>, Seq<u32>>) -> int {
    if tables.contains_key(group_key) {
        match first_position(tables[group_key], tag) {
            Some(i) => i + 1,
            None => UNLISTED_TAG_INDEX as int,
        }
    } else {
        tag as int
    }
}

/// The rank of an entry, a tier and an index within the tier. The tagged
/// entries of a group make the first tier, in which the tag index counts;
/// the tagged entries without a group make the second tier, the entries
/// without a tag the third.
pub open spec fn tag_rank(entry: EntryView, tables: Map<Seq<char>, Seq<u32>>) -> (int, int) {
    match entry.tag {
        Some(tag) => match entry.group {
            Some(group) => (0, tag_index(tag, group.search_key, tables)),
            None => (1, 0),
        },
        None => (2, 0),
    }
}

/// Whether the first entry ranks below the second, and so loads before it.
pub open spec fn ranks_below(a: EntryView, b: EntryView, tables: Map<Seq<char>, Seq<u32>>) -> bool {
    tag_rank(a, tables).0 < tag_rank(b, tables).0 || (tag_rank(a, tables).0 == tag_rank(
        b,
        tables,
    ).0 && tag_rank(a, tables).1 < tag_rank(b, tables).1)
}

/// The tiers of the tag order: a tagged entry of a group ranks below every
/// tagged entry without a group, and every tagged entry ranks below every
/// entry without a tag, whatever the tag orders of the groups say.
pub proof fn lemma_tag_tiers(a: EntryView, b: EntryView, tables: Map<Seq<char>, Seq<u32>>)
    ensures
        a.tag is Some && b.tag is None ==> ranks_below(a, b, tables),
        a.tag is Some && a.group is Some && b.tag is Some && b.group is None ==> ranks_below(
            a,
            b,
            tables,
        ),
        a.tag is None && b.tag is None ==> !ranks_below(a, b, tables),
        a.tag is Some && a.group is None && b.tag is Some && b.group is None ==> !ranks_below(
            a,
            b,
            tables,
        ),
{
}

/// The first place in `sorted` whose entry the given one does not rank
/// above; the length of `sorted` where there is none.
pub open spec fn first_not_below(
    sorted: Seq<EntryView>,
    entry: EntryView,
    tables: Map<Seq<char>, Seq<u32>>,
) -> int
    decreases sorted.len(),
{
    if sorted.len() == 0 {
        0
    } else if !ranks_below(sorted[0], entry, tables) {
        0
    } else {
        1 + first_not_below(sorted.drop_first(), entry, tables)
    }
}

/// One step of the insertion sort. An entry that does not rank below the
/// last one stays behind it. Any other entry goes in front of the first
/// entry that does not rank below it, and so in front of its equals.
pub open spec fn insert_by_rank(
    sorted: Seq<EntryView>,
    entry: EntryView,
    tables: Map<Seq<char>, Seq<u32>>,
) -> Seq<EntryView> {
    if sorted.len() == 0 || !ranks_below(entry, sorted.last(), tables) {
        sorted.push(entry)
    } else {
        sorted.insert(first_not_below(sorted, entry, tables), entry)
    }
}

/// The entries in the order that the insertion sort gives them.
pub open spec fn sorted_by_tag(s: Seq<EntryView>, tables: Map<Seq<char>, Seq<u32>>) -> Seq<
    EntryView,
>
    decreases s.len(),
{
    if s.len() == 0 {
        s
    } else {
        insert_by_rank(sorted_by_tag(s.drop_last(), tables), s.last(), tables)
    }
}

/// Whether no entry ranks below one that stands in front of it.
pub open spec fn ranks_ascend(s: Seq<EntryView>, tables: Map<Seq<char>, Seq<u32>>) -> bool {
    forall|i: int, j: int|
        0 <= i <= j < s.len() ==> !ranks_below(#[trigger] s[j], #[trigger] s[i], tables)
}

/// What `first_not_below` finds: every entry in front of the place ranks
/// below the given one, and the entry at the place, if there is one, does
/// not.
pub proof fn lemma_first_not_below(
    sorted: Seq<EntryView>,
    entry: EntryView,
    tables: Map<Seq<char>, Seq<u32>>,
)
    ensures
        0 <= first_not_below(sorted, entry, tables) <= sorted.len(),
        forall|u: int|
            0 <= u < first_not_below(sorted, entry, tables) ==> ranks_below(
                #[trigger] sorted[u],
                entry,
                tables,
            ),
        first_not_below(sorted, entry, tables) < sorted.len() ==> !ranks_below(
            sorted[first_not_below(sorted, entry, tables)],
            entry,
            tables,
        ),
    decreases sorted.len(),
{
    if sorted.len() > 0 && ranks_below(sorted[0], entry, tables) {
        let rest = sorted.drop_first();
        lemma_first_not_below(rest, entry, tables);
        let t = first_not_below(rest, entry, tables);
        assert forall|u: int| 0 <= u < t + 1 implies ranks_below(
            #[trigger] sorted[u],
            entry,
            tables,
        ) by {
            if u > 0 {
                assert(rest[u - 1] == sorted[u]);
            }
        }
        if t < rest.len() {
            assert(rest[t] == sorted[t + 1]);
        }
    }
}

/// A place with the two properties of `first_not_below` is that place.
pub proof fn lemma_first_not_below_is(
    sorted: Seq<EntryView>,
    entry: EntryView,
    tables: Map<Seq<char>, Seq<u32>>,
    t: int,
)
    requires
        0 <= t < sorted.len(),
        forall|u: int| 0 <= u < t ==> ranks_below(#[trigger] sorted[u], entry, tables),
        !ranks_below(sorted[t], entry, tables),
    ensures
        first_not_below(sorted, entry, tables) == t,
{
    lemma_first_not_below(sorted, entry, tables);
    let f = first_not_below(sorted, entry, tables);
    if f < t {
        assert(ranks_below(sorted[f], entry, tables));
    } else if f > t {
        assert(ranks_below(sorted[t], entry, tables));
    }
}

/// The insertion sort leaves the entries in ascending rank, and as many as
/// there were.
pub proof fn lemma_sorted_by_tag_ascends(s: Seq<EntryView>, tables: Map<Seq<char>, Seq<u32>>)
    ensures
        ranks_ascend(sorted_by_tag(s, tables), tables),
        sorted_by_tag(s, tables).len() == s.len(),
    decreases s.len(),
{
    if s.len() > 0 {
        let before = sorted_by_tag(s.drop_last(), tables);
        let x = s.last();
        lemma_sorted_by_tag_ascends(s.drop_last(), tables);
        let after = insert_by_rank(before, x, tables);
        if before.len() == 0 || !ranks_below(x, before.last(), tables) {
            assert forall|i: int, j: int| 0 <= i <= j < after.len() implies !ranks_below(
                #[trigger] after[j],
                #[trigger] after[i],
                tables,
            ) by {
                if j < before.len() {
                    assert(after[i] == before[i] && after[j] == before[j]);
                } else if i < before.len() {
                    assert(after[i] == before[i]);
                    assert(!ranks_below(before.last(), before[i], tables));
                }
            }
        } else {
            lemma_first_not_below(before, x, tables);
            let t = first_not_below(before, x, tables);
            assert(t < before.len()) by {
                if t == before.len() {
                    assert(ranks_below(before[before.len() - 1], x, tables));
                }
            }
            assert forall|i: int, j: int| 0 <= i <= j < after.len() implies !ranks_below(
                #[trigger] after[j],
                #[trigger] after[i],
                tables,
            ) by {
                let oi = if i < t { i } else { i - 1 };
                let oj = if j < t { j } else { j - 1 };
                if i != t {
                    assert(after[i] == before[oi]);
                }
                if j != t {
                    assert(after[j] == before[oj]);
                }
                if i == t && j > t {
                    assert(!ranks_below(before[oj], before[t], tables));
                }
                if i != t && j != t {
                    assert(!ranks_below(before[oj], before[oi], tables));
                }
            }
        }
    }
}

/// The insertion sort neither drops an entry nor places one twice.
pub proof fn lemma_sorted_by_tag_permutes(s: Seq<EntryView>, tables: Map<Seq<char>, Seq<u32>>)
    ensures
        sorted_by_tag(s, tables).to_multiset() == s.to_multiset(),
    decreases s.len(),
{
    if s.len() > 0 {
        let before = sorted_by_tag(s.drop_last(), tables);
        let x = s.last();
        lemma_sorted_by_tag_permutes(s.drop_last(), tables);
        lemma_first_not_below(before, x, tables);
        vstd::seq_lib::to_multiset_build(before, x);
        vstd::seq_lib::to_multiset_insert(before, first_not_below(before, x, tables), x);
        vstd::seq_lib::to_multiset_build(s.drop_last(), x);
        assert(s.drop_last().push(x) =~= s);
    }
}

/// How two entries stand to each other in the tag order.
#[derive(Clone, Copy, Debug, PartialEq, Eq, Structural)]
pub enum TagOrder {
    Less,
    Equal,
    Greater,
}

/// How two entries stand to each other by rank.
pub open spec fn tag_order(a: EntryView, b: EntryView, tables: Map<Seq<char>, Seq<u32>>) -> TagOrder {
    if ranks_below(a, b, tables) {
        TagOrder::Less
    } else if ranks_below(b, a, tables) {
        TagOrder::Greater
    } else {
        TagOrder::Equal
    }
}

/// Computes the index by which a tagged entry of a group is ranked.
pub fn get_tag_index(tag: u32, group_search_key: &str, groups: &StringHashMap<IndexSet<u32>>) -> (index:
    usize)
    ensures
        index == tag_index(tag, group_search_key@, group_tables(*groups)),
{
    match groups.get(group_search_key) {
        Some(set) => {
            proof {
                lemma_first_position(tag_set_items(*set), tag);
            }
            match tag_set_index_of(set, tag) {
                Some(index) => index + 1,
                None => UNLISTED_TAG_INDEX,
            }
        },
        None => tag as usize,
    }
}

/// Compares two entries by rank.
pub fn compare_tags(
    a: &NtLoadOrderEntry,
    b: &NtLoadOrderEntry,
    groups: &StringHashMap<IndexSet<u32>>,
) -> (order: TagOrder)
    ensures
        order == tag_order(a@, b@, group_tables(*groups)),
{
    let (a_tag, b_tag) = match (a.tag, b.tag) {
        (None, None) => {
            return TagOrder::Equal;
        },
        (None, Some(_)) => {
            return TagOrder::Greater;
        },
        (Some(_), None) => {
            return TagOrder::Less;
        },
        (Some(a_tag), Some(b_tag)) => (a_tag, b_tag),
    };
    let (a_group, b_group) = match (&a.group, &b.group) {
        (None, None) => {
            return TagOrder::Equal;
        },
        (None, Some(_)) => {
            return TagOrder::Greater;
        },
        (Some(_), None) => {
            return TagOrder::Less;
        },
        (Some(a_group), Some(b_group)) => (a_group, b_group),
    };
    let a_index = get_tag_index(a_tag, a_group.search_key.as_str(), groups);
    let b_index = get_tag_index(b_tag, b_group.search_key.as_str(), groups);
    if a_index < b_index {
        TagOrder::Less
    } else if a_index == b_index {
        TagOrder::Equal
    } else {
        TagOrder::Greater
    }
}

/// Finds, among the entries in front of place `c`, the first that the
/// entry at place `c` does not rank above.
fn find_place(
    entries: &VecList<NtLoadOrderEntry>,
    groups: &StringHashMap<IndexSet<u32>>,
    current: Index<NtLoadOrderEntry>,
    next: Index<NtLoadOrderEntry>,
    Ghost(c): Ghost<int>,
) -> (found: (Index<NtLoadOrderEntry>, Ghost<int>))
    requires
        list_valid(*entries),
        1 <= c < list_handles(*entries).len(),
        list_handles(*entries)[c - 1] == current,
        list_handles(*entries)[c] == next,
        ranks_below(
            list_entries(*entries)[c],
            list_entries(*entries)[c - 1],
            group_tables(*groups),
        ),
    ensures
        0 <= found.1@ < c,
        list_handles(*entries)[found.1@] == found.0,
        forall|u: int|
            0 <= u < found.1@ ==> ranks_below(
                #[trigger] list_entries(*entries)[u],
                list_entries(*entries)[c],
                group_tables(*groups),
            ),
        !ranks_below(
            list_entries(*entries)[found.1@],
            list_entries(*entries)[c],
            group_tables(*groups),
        ),
{
    let ghost es = list_entries(*entries);
    let ghost hs = list_handles(*entries);
    let ghost tables = group_tables(*groups);
    proof {
        lemma_position(hs, 0);
        lemma_position(hs, c);
        lemma_position(hs, c - 1);
    }
    let mut target = list_front_index(entries).unwrap();
    let ghost mut t: int = 0;
    let mut found = false;
    while !found && !same_handle(target, current)
        invariant
            list_valid(*entries),
            es == list_entries(*entries),
            hs == list_handles(*entries),
            tables == group_tables(*groups),
            1 <= c < hs.len(),
            hs[c - 1] == current,
            hs[c] == next,
            ranks_below(es[c], es[c - 1], tables),
            0 <= t <= c - 1,
            hs[t] == target,
            forall|u: int| 0 <= u < t ==> ranks_below(#[trigger] es[u], es[c], tables),
            found ==> !ranks_below(es[t], es[c], tables),
        decreases (c - 1 - t) + (if found { 0int } else { 1int }),
    {
        proof {
            lemma_position(hs, t);
            lemma_position(hs, c - 1);
            lemma_position(hs, c);
            lemma_position(hs, t + 1);
        }
        let order = compare_tags(list_get(entries, next), list_get(entries, target), groups);
        if order == TagOrder::Greater {
            target = list_next_index(entries, target).unwrap();
            proof {
                t = t + 1;
            }
        } else {
            found = true;
        }
    }
    proof {
        lemma_position(hs, t);
        lemma_position(hs, c - 1);
    }
    (target, Ghost(t))
}

/// Moving the first entry behind a prefix to a place within the prefix
/// inserts it there.
proof fn lemma_move_into_prefix<A>(prefix: Seq<A>, rest: Seq<A>, t: int)
    requires
        0 <= t <= prefix.len(),
        rest.len() > 0,
    ensures
        moved_before(prefix + rest, prefix.len() as int, t) == prefix.insert(t, rest[0])
            + rest.drop_first(),
{
    let all = prefix + rest;
    lemma_moved_before(all, prefix.len() as int, t);
    assert(moved_before(all, prefix.len() as int, t) =~= prefix.insert(t, rest[0])
        + rest.drop_first());
}

/// The sort has handled `c` entries and finds that the next one belongs at
/// place `t` among them.
proof fn lemma_sort_step_insert(
    s: Seq<EntryView>,
    c: int,
    tables: Map<Seq<char>, Seq<u32>>,
    es: Seq<EntryView>,
    t: int,
)
    requires
        1 <= c < s.len(),
        es == sorted_by_tag(s.take(c), tables) + s.skip(c),
        0 <= t < c,
        forall|u: int| 0 <= u < t ==> ranks_below(#[trigger] es[u], es[c], tables),
        !ranks_below(es[t], es[c], tables),
        ranks_below(es[c], es[c - 1], tables),
    ensures
        moved_before(es, c, t) == sorted_by_tag(s.take(c + 1), tables) + s.skip(c + 1),
{
    let prefix = sorted_by_tag(s.take(c), tables);
    let rest = s.skip(c);
    lemma_sorted_by_tag_ascends(s.take(c), tables);
    assert(prefix.len() == c);
    assert(es[c] == rest[0]);
    assert(rest[0] == s[c]);
    assert(prefix.last() == es[c - 1]);
    assert(es[t] == prefix[t]);
    assert forall|u: int| 0 <= u < t implies ranks_below(#[trigger] prefix[u], s[c], tables) by {
        assert(es[u] == prefix[u]);
    }
    lemma_first_not_below_is(prefix, s[c], tables, t);
    assert(s.take(c + 1).drop_last() =~= s.take(c));
    assert(s.take(c + 1).last() == s[c]);
    assert(sorted_by_tag(s.take(c + 1), tables) == insert_by_rank(prefix, s[c], tables));
    assert(insert_by_rank(prefix, s[c], tables) == prefix.insert(t, s[c]));
    lemma_move_into_prefix(prefix, rest, t);
    assert(rest.drop_first() =~= s.skip(c + 1));
}

/// The sort has handled `c` entries and finds that the next one does not
/// rank below the last of them.
proof fn lemma_sort_step_stay(
    s: Seq<EntryView>,
    c: int,
    tables: Map<Seq<char>, Seq<u32>>,
    es: Seq<EntryView>,
)
    requires
        1 <= c < s.len(),
        es == sorted_by_tag(s.take(c), tables) + s.skip(c),
        !ranks_below(es[c], es[c - 1], tables),
    ensures
        es == sorted_by_tag(s.take(c + 1), tables) + s.skip(c + 1),
{
    let prefix = sorted_by_tag(s.take(c), tables);
    lemma_sorted_by_tag_ascends(s.take(c), tables);
    assert(prefix.len() == c);
    assert(es[c] == s.skip(c)[0]);
    assert(prefix.last() == es[c - 1]);
    assert(s.take(c + 1).drop_last() =~= s.take(c));
    assert(s.take(c + 1).last() == s[c]);
    assert(sorted_by_tag(s.take(c + 1), tables) == prefix.push(s[c]));
    assert(es =~= prefix.push(s[c]) + s.skip(c + 1));
}

/// Within the entries that the sort has handled, no entry ranks below the
/// one in front of it.
proof fn lemma_sort_prefix_ascends(
    s: Seq<EntryView>,
    c: int,
    tables: Map<Seq<char>, Seq<u32>>,
    es: Seq<EntryView>,
    p: int,
)
    requires
        1 <= c <= s.len(),
        es == sorted_by_tag(s.take(c), tables) + s.skip(c),
        0 <= p < c - 1,
    ensures
        !ranks_below(es[p + 1], es[p], tables),
{
    let prefix = sorted_by_tag(s.take(c), tables);
    lemma_sorted_by_tag_ascends(s.take(c), tables);
    assert(es[p] == prefix[p]);
    assert(es[p + 1] == prefix[p + 1]);
}

/// Sorts the list by rank: walks it from the front and puts every entry
/// that ranks below the one in front of it where it belongs among the
/// entries walked so far.
pub fn sort_list_by_tag(
    entries: &mut VecList<NtLoadOrderEntry>,
    groups: &StringHashMap<IndexSet<u32>>,
)
    requires
        list_valid(*old(entries)),
    ensures
        list_valid(*final(entries)),
        list_entries(*final(entries)) == sorted_by_tag(
            list_entries(*old(entries)),
            group_tables(*groups),
        ),
        list_entries(*final(entries)).len() == list_entries(*old(entries)).len(),
        entries_kept(*old(entries), *final(entries)),
        forall|h: Index<NtLoadOrderEntry>|
            list_handles(*old(entries)).contains(h) <==> list_handles(*final(entries)).contains(h),
{
    let ghost s0 = list_entries(*entries);
    let ghost h0 = list_handles(*entries);
    let ghost tables = group_tables(*groups);
    let ghost n = s0.len() as int;
    proof {
        lemma_kept_same(h0, s0);
    }
    let start = match list_front_index(entries) {
        Some(start) => start,
        None => {
            return ;
        },
    };
    let end = match list_back_index(entries) {
        Some(end) => end,
        None => {
            return ;
        },
    };
    proof {
        lemma_position(h0, 0);
        lemma_position(h0, n - 1);
        assert(s0.take(1).drop_last() =~= Seq::<EntryView>::empty());
        assert(sorted_by_tag(Seq::<EntryView>::empty(), tables) =~= Seq::<EntryView>::empty());
        assert(s0.take(1).last() == s0[0]);
        assert(sorted_by_tag(s0.take(1), tables) =~= s0.take(1));
    }
    if same_handle(start, end) {
        proof {
            assert(s0.take(1) =~= s0);
        }
        return ;
    }
    let mut current = start;
    let ghost mut c: int = 1;
    let ghost mut p: int = 0;
    proof {
        assert(s0.take(1) + s0.skip(1) =~= s0);
    }
    while !same_handle(current, end)
        invariant
            n == s0.len(),
            n >= 2,
            tables == group_tables(*groups),
            list_valid(*entries),
            list_handles(*entries).len() == n,
            forall|h: Index<NtLoadOrderEntry>|
                h0.contains(h) <==> list_handles(*entries).contains(h),
            1 <= c <= n,
            0 <= p < c,
            list_handles(*entries)[p] == current,
            list_entries(*entries) == sorted_by_tag(s0.take(c), tables) + s0.skip(c),
            c < n ==> list_handles(*entries)[n - 1] == end,
            c == n ==> current == end,
            handles_kept(h0, s0, list_handles(*entries), list_entries(*entries)),
        decreases n - c, c - p,
    {
        let ghost es = list_entries(*entries);
        let ghost hs = list_handles(*entries);
        proof {
            lemma_position(hs, p);
            lemma_position(hs, n - 1);
            lemma_position(hs, p + 1);
        }
        let next = list_next_index(entries, current).unwrap();
        let order = compare_tags(list_get(entries, current), list_get(entries, next), groups);
        if order == TagOrder::Greater {
            proof {
                if p < c - 1 {
                    lemma_sort_prefix_ascends(s0, c, tables, es, p);
                }
                lemma_position(hs, c);
            }
            let (target, Ghost(t)) = find_place(entries, groups, current, next, Ghost(c));
            proof {
                lemma_position(hs, t);
                lemma_sort_step_insert(s0, c, tables, es, t);
                lemma_moved_before(hs, c, t);
                lemma_kept_moved(hs, es, c, t);
                lemma_kept_twice(h0, s0, hs, es, moved_before(hs, c, t), moved_before(es, c, t));
            }
            list_move_before(entries, next, target);
            proof {
                assert(list_handles(*entries)[t] == next);
                if c + 1 < n {
                    assert(list_handles(*entries)[n - 1] == hs[n - 1]);
                }
                c = c + 1;
                p = t;
            }
        } else {
            proof {
                if p == c - 1 {
                    lemma_sort_step_stay(s0, c, tables, es);
                    c = c + 1;
                }
                p = p + 1;
            }
        }
        current = next;
    }
    proof {
        let hs = list_handles(*entries);
        lemma_position(hs, p);
        lemma_position(hs, n - 1);
        assert(c == n);
        lemma_sorted_by_tag_ascends(s0, tables);
        assert(s0.take(n) =~= s0);
        assert(sorted_by_tag(s0, tables) + s0.skip(n) =~= sorted_by_tag(s0, tables));
    }
}

/// The key of a group of the registry's group order: it picks the entries
/// whose group has this name as its search key, the case of ASCII letters
/// ignored, and leaves the reason of a moved entry as it is.
pub open spec fn group_order_key(name: Seq<char>) -> PassKey {
    PassKey { picks: matcher_predicate(MatcherView::GroupName(name)), note: Seq::empty() }
}

/// The keys of the groups of a group order, in its order.
pub open spec fn group_order_keys(names: Seq<Seq<char>>) -> Seq<PassKey> {
    names.map_values(|name: Seq<char>| group_order_key(name))
}

/// Brings the entries of the groups that the group order names to the
/// front, the groups in the order of their names and the entries of each
/// group in the order they had.
pub fn sort_list_by_group(
    entries: &mut VecList<NtLoadOrderEntry>,
    service_group_order: &Vec<String>,
)
    requires
        list_valid(*old(entries)),
    ensures
        list_valid(*final(entries)),
        list_entries(*final(entries)) == passes(
            list_entries(*old(entries)),
            None,
            group_order_keys(string_views(service_group_order@)),
        ).0,
        list_entries(*final(entries)).len() == list_entries(*old(entries)).len(),
        entries_kept(*old(entries), *final(entries)),
        forall|h: Index<NtLoadOrderEntry>|
            list_handles(*old(entries)).contains(h) <==> list_handles(*final(entries)).contains(h),
{
    let mut rules: Vec<PassRule> = Vec::new();
    let mut i: usize = 0;
    while i < service_group_order.len()
        invariant
            i <= service_group_order.len(),
            rules@.len() == i,
            rule_keys(rules@) == group_order_keys(
                string_views(service_group_order@).take(i as int),
            ),
        decreases service_group_order.len() - i,
    {
        let rule = PassRule {
            matcher: EntryMatcher::GroupName(service_group_order[i].clone()),
            note: String::new(),
        };
        let ghost before = rules@;
        proof {
            assert(rule@ == group_order_key(service_group_order@[i as int]@));
        }
        rules.push(rule);
        proof {
            let names = string_views(service_group_order@).take(i as int + 1);
            assert(rules@ == before.push(rule));
            assert forall|j: int| 0 <= j < names.len() implies rule_keys(rules@)[j]
                == group_order_keys(names)[j] by {
                if j < i {
                    assert(rule_keys(before)[j] == group_order_keys(
                        string_views(service_group_order@).take(i as int),
                    )[j]);
                    assert(rules@[j] == before[j]);
                }
            }
            assert(rule_keys(rules@) =~= group_order_keys(names));
        }
        i += 1;
    }
    proof {
        assert(string_views(service_group_order@).take(i as int) =~= string_views(
            service_group_order@,
        ));
    }
    move_each_to_front(entries, &rules);
}

/// The order that tags and groups give to a sequence of entries: the
/// entries are taken last to first, sorted by rank, and then grouped by the
/// group order.
pub open spec fn ordered_by_tag_and_group(
    entries: Seq<EntryView>,
    tables: Map<Seq<char>, Seq<u32>>,
    service_group_order: Seq<Seq<char>>,
) -> Seq<EntryView> {
    passes(
        sorted_by_tag(entries.reverse(), tables),
        None,
        group_order_keys(service_group_order),
    ).0
}

/// Makes the list of the services in the order that their tags and groups
/// give them.
pub fn sort_by_tag_and_group(registry_info: RegistryInfo) -> (entries: VecList<NtLoadOrderEntry>)
    requires
        registry_info.entries.len() < usize::MAX,
    ensures
        list_valid(entries),
        list_entries(entries) == ordered_by_tag_and_group(
            registry_info@.entries,
            registry_info@.groups,
            registry_info@.service_group_order,
        ),
        list_entries(entries).len() == registry_info.entries.len(),
{
    let RegistryInfo { entries, groups, service_group_order } = registry_info;
    let mut list = list_from_entries_reversed(entries);
    sort_list_by_tag(&mut list, &groups);
    sort_list_by_group(&mut list, &service_group_order);
    list
}

} // verus!
