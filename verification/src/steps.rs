//! The passes that bring a list of entries into load order, and the
//! primitive that three of them share: moving the entries that a matcher
//! picks to the front without disturbing any other order.

pub mod add_imports;
pub mod add_kernel_binaries;
pub mod load_from_registry;
pub mod sort_by_hardcoded_groups;
pub mod sort_by_hardcoded_service_lists;
pub mod sort_by_tag_and_group;

use vstd::prelude::*;
use vstd::string::*;
use dlv_list::{Index, VecList};
use crate::entry::{EntryView, NtLoadOrderEntry};
use crate::list::{
    entries_kept, handles_kept, lemma_kept_moved, lemma_kept_same, lemma_kept_twice,
    lemma_kept_updated, lemma_moved_to_front, lemma_position, list_back_index, list_entries, list_front_index,
    list_get, list_get_mut, list_handles, list_move_before, list_previous_index, list_valid,
    moved_before, position_of, same_handle,
};
use crate::text::same_ignoring_case;

pub use add_kernel_binaries::{add_basic_kernel_binaries, add_kernel_binaries, add_kernel_binary};
pub use load_from_registry::load_from_registry;
pub use sort_by_hardcoded_groups::sort_by_hardcoded_groups;
pub use sort_by_hardcoded_service_lists::sort_by_hardcoded_service_lists;
pub use sort_by_tag_and_group::sort_by_tag_and_group;

verus! {

/// What a pass looks for in an entry.
pub enum EntryMatcher {
    /// Entries of the group with exactly this search key.
    GroupKey(String),
    /// Entries of the group whose search key is this name, the case of ASCII
    /// letters ignored.
    GroupName(String),
    /// Entries whose image path is this path, the case of ASCII letters
    /// ignored.
    ImagePath(String),
}

/// A matcher with its text as a character sequence.
pub enum MatcherView {
    GroupKey(Seq<char>),
    GroupName(Seq<char>),
    ImagePath(Seq<char>),
}

impl View for EntryMatcher {
    type V = MatcherView;

    open spec fn view(&self) -> MatcherView {
        match self {
            EntryMatcher::GroupKey(key) => MatcherView::GroupKey(key@),
            EntryMatcher::GroupName(name) => MatcherView::GroupName(name@),
            EntryMatcher::ImagePath(path) => MatcherView::ImagePath(path@),
        }
    }
}

/// Whether a matcher picks an entry.
pub open spec fn matcher_picks(matcher: MatcherView, entry: EntryView) -> bool {
    match matcher {
        MatcherView::GroupKey(key) => entry.group is Some && entry.group.unwrap().search_key
            == key,
        MatcherView::GroupName(name) => entry.group is Some && same_ignoring_case(
            entry.group.unwrap().search_key,
            name,
        ),
        MatcherView::ImagePath(path) => same_ignoring_case(entry.image_path, path),
    }
}

/// A matcher as a predicate on entries.
pub open spec fn matcher_predicate(matcher: MatcherView) -> spec_fn(EntryView) -> bool {
    |entry: EntryView| matcher_picks(matcher, entry)
}

impl EntryMatcher {
    /// The matcher as a predicate on entries.
    pub open spec fn predicate(&self) -> spec_fn(EntryView) -> bool {
        matcher_predicate(self@)
    }

    /// Tells whether the matcher picks the entry.
    pub fn test(&self, entry: &NtLoadOrderEntry) -> (picked: bool)
        ensures
            picked == matcher_picks(self@, entry@),
    {
        match self {
            EntryMatcher::GroupKey(key) => match &entry.group {
                Some(group) => group.search_key == *key,
                None => false,
            },
            EntryMatcher::GroupName(name) => match &entry.group {
                Some(group) => group.search_key.as_str().eq_ignore_ascii_case(name.as_str()),
                None => false,
            },
            EntryMatcher::ImagePath(path) => entry.image_path.as_str().eq_ignore_ascii_case(
                path.as_str(),
            ),
        }
    }
}

/// An entry with a note appended to its reason.
pub open spec fn with_note(entry: EntryView, note: Seq<char>) -> EntryView {
    EntryView { reason: entry.reason + note, ..entry }
}

/// The picked entries among those from position `from` on, in their order,
/// each with the note appended to its reason.
pub open spec fn moved_part(
    s: Seq<EntryView>,
    from: int,
    picks: spec_fn(EntryView) -> bool,
    note: Seq<char>,
) -> Seq<EntryView>
    decreases s.len() - from,
{
    if from < 0 || from >= s.len() {
        Seq::empty()
    } else if picks(s[from]) {
        seq![with_note(s[from], note)] + moved_part(s, from + 1, picks, note)
    } else {
        moved_part(s, from + 1, picks, note)
    }
}

/// The entries from position `from` on that are not picked, in their order.
pub open spec fn kept_part(s: Seq<EntryView>, from: int, picks: spec_fn(EntryView) -> bool) -> Seq<
    EntryView,
>
    decreases s.len() - from,
{
    if from < 0 || from >= s.len() {
        Seq::empty()
    } else if picks(s[from]) {
        kept_part(s, from + 1, picks)
    } else {
        seq![s[from]] + kept_part(s, from + 1, picks)
    }
}

/// How many entries from position `from` on are picked.
pub open spec fn picked_count(s: Seq<EntryView>, from: int, picks: spec_fn(EntryView) -> bool) -> int {
    moved_part(s, from, picks, Seq::empty()).len() as int
}

/// The first position that a pass looks at: the one behind the boundary, or
/// the front when no boundary is set.
pub open spec fn scan_start(boundary: Option<int>) -> int {
    match boundary {
        Some(p) => p + 1,
        None => 0,
    }
}

/// The list after one pass. The entries up to the boundary are those that
/// earlier passes placed; the pass leaves them alone, puts the picked
/// entries among the others in front of them and leaves the rest behind
/// them.
pub open spec fn front_partition(
    s: Seq<EntryView>,
    boundary: Option<int>,
    picks: spec_fn(EntryView) -> bool,
    note: Seq<char>,
) -> Seq<EntryView> {
    moved_part(s, scan_start(boundary), picks, note) + s.subrange(0, scan_start(boundary))
        + kept_part(s, scan_start(boundary), picks)
}

/// Where the boundary stands after one pass: that many places further back
/// as entries were moved in front of it; where none was set, at the last of
/// the moved entries, if any entry was moved.
pub open spec fn boundary_after(
    s: Seq<EntryView>,
    boundary: Option<int>,
    picks: spec_fn(EntryView) -> bool,
) -> Option<int> {
    match boundary {
        Some(p) => Some(p + picked_count(s, p + 1, picks)),
        None => if picked_count(s, 0, picks) > 0 {
            Some(picked_count(s, 0, picks) - 1)
        } else {
            None
        },
    }
}

/// The position that a boundary handle marks in a list.
pub open spec fn boundary_position(
    list: VecList<NtLoadOrderEntry>,
    boundary: Option<Index<NtLoadOrderEntry>>,
) -> Option<int> {
    match boundary {
        Some(handle) => Some(position_of(list, handle)),
        None => None,
    }
}

/// A boundary, where set, is the handle of an entry of the list.
pub open spec fn boundary_valid(
    list: VecList<NtLoadOrderEntry>,
    boundary: Option<Index<NtLoadOrderEntry>>,
) -> bool {
    match boundary {
        Some(handle) => list_handles(list).contains(handle),
        None => true,
    }
}

/// The number of moved entries does not depend on the note.
pub proof fn lemma_moved_len(
    s: Seq<EntryView>,
    from: int,
    picks: spec_fn(EntryView) -> bool,
    note: Seq<char>,
)
    requires
        0 <= from,
    ensures
        moved_part(s, from, picks, note).len() == picked_count(s, from, picks),
        moved_part(s, from, picks, note).len() + kept_part(s, from, picks).len() == (if from
            <= s.len() {
            s.len() - from
        } else {
            0
        }),
    decreases s.len() - from,
{
    if from < s.len() {
        lemma_moved_len(s, from + 1, picks, note);
    }
}

/// One step of a pass. Before it, the entries from position `j` on have been
/// handled; the step handles the one in front of them.
proof fn lemma_pass_step(
    s: Seq<EntryView>,
    j: int,
    picks: spec_fn(EntryView) -> bool,
    note: Seq<char>,
    before: Seq<EntryView>,
)
    requires
        0 < j <= s.len(),
        before == moved_part(s, j, picks, note) + s.subrange(0, j) + kept_part(s, j, picks),
    ensures
        before.len() == s.len(),
        0 <= moved_part(s, j, picks, note).len() + j - 1 < s.len(),
        before[moved_part(s, j, picks, note).len() + j - 1] == s[j - 1],
        picks(s[j - 1]) ==> moved_part(s, j - 1, picks, note).len() == moved_part(
            s,
            j,
            picks,
            note,
        ).len() + 1,
        picks(s[j - 1]) ==> moved_before(
            before.update(
                moved_part(s, j, picks, note).len() + j - 1,
                with_note(s[j - 1], note),
            ),
            moved_part(s, j, picks, note).len() + j - 1,
            0,
        ) == moved_part(s, j - 1, picks, note) + s.subrange(0, j - 1) + kept_part(
            s,
            j - 1,
            picks,
        ),
        !picks(s[j - 1]) ==> moved_part(s, j - 1, picks, note).len() == moved_part(
            s,
            j,
            picks,
            note,
        ).len(),
        !picks(s[j - 1]) ==> before == moved_part(s, j - 1, picks, note) + s.subrange(0, j - 1)
            + kept_part(s, j - 1, picks),
{
    let i = j - 1;
    let mp = moved_part(s, j, picks, note);
    let kp = kept_part(s, j, picks);
    let m = mp.len() as int;
    let q = m + i;
    lemma_moved_len(s, j, picks, note);
    assert(before[q] == s[i]);
    if picks(s[i]) {
        let w = with_note(s[i], note);
        let upd = before.update(q, w);
        lemma_moved_to_front(upd, q);
        assert(moved_part(s, i, picks, note) == seq![w] + mp);
        assert(kept_part(s, i, picks) == kp);
        assert(moved_before(upd, q, 0) =~= (seq![w] + mp) + s.subrange(0, i) + kp);
    } else {
        assert(moved_part(s, i, picks, note) == mp);
        assert(kept_part(s, i, picks) == seq![s[i]] + kp);
        assert(before =~= mp + s.subrange(0, i) + (seq![s[i]] + kp));
    }
}

/// A pass appends the note to the reason of the entry at hand and moves
/// that entry to the front: every handle is kept.
proof fn lemma_pass_keeps(
    h0: Seq<Index<NtLoadOrderEntry>>,
    s0: Seq<EntryView>,
    hs: Seq<Index<NtLoadOrderEntry>>,
    es: Seq<EntryView>,
    q: int,
    note: Seq<char>,
)
    requires
        handles_kept(h0, s0, hs, es),
        hs.no_duplicates(),
        hs.len() == es.len(),
        0 <= q < hs.len(),
    ensures
        handles_kept(
            h0,
            s0,
            moved_before(hs, q, 0),
            moved_before(es.update(q, with_note(es[q], note)), q, 0),
        ),
{
    let noted = with_note(es[q], note);
    assert(es[q].reason.is_prefix_of(noted.reason)) by {
        assert(es[q].reason =~= noted.reason.subrange(0, es[q].reason.len() as int));
    }
    lemma_kept_updated(hs, es, q, noted);
    lemma_kept_twice(h0, s0, hs, es, hs, es.update(q, noted));
    lemma_kept_moved(hs, es.update(q, noted), q, 0);
    lemma_kept_twice(
        h0,
        s0,
        hs,
        es.update(q, noted),
        moved_before(hs, q, 0),
        moved_before(es.update(q, noted), q, 0),
    );
}

/// Walks the list from its back towards the boundary and moves every entry
/// that the matcher picks to the front, appending the note to its reason.
///
/// The entries up to the boundary, which earlier passes placed, are neither
/// looked at nor moved. Where no boundary is set the whole list is walked,
/// and the boundary becomes the first entry that was moved, which then is
/// the last of the moved ones. A list without entries behind the boundary
/// stays as it is.
pub fn move_matching_elements_to_front(
    entries: &mut VecList<NtLoadOrderEntry>,
    first_moved: &mut Option<Index<NtLoadOrderEntry>>,
    matcher: &EntryMatcher,
    note: &str,
)
    requires
        list_valid(*old(entries)),
        boundary_valid(*old(entries), *old(first_moved)),
    ensures
        list_valid(*final(entries)),
        boundary_valid(*final(entries), *final(first_moved)),
        list_entries(*final(entries)) == front_partition(
            list_entries(*old(entries)),
            boundary_position(*old(entries), *old(first_moved)),
            matcher.predicate(),
            note@,
        ),
        boundary_position(*final(entries), *final(first_moved)) == boundary_after(
            list_entries(*old(entries)),
            boundary_position(*old(entries), *old(first_moved)),
            matcher.predicate(),
        ),
        list_entries(*final(entries)).len() == list_entries(*old(entries)).len(),
        entries_kept(*old(entries), *final(entries)),
        forall|h: Index<NtLoadOrderEntry>|
            list_handles(*old(entries)).contains(h) <==> list_handles(*final(entries)).contains(h),
{
    let ghost s0 = list_entries(*entries);
    let ghost h0 = list_handles(*entries);
    let ghost b0 = boundary_position(*entries, *first_moved);
    let ghost k = scan_start(b0);
    let ghost n = s0.len() as int;
    let ghost picks = matcher.predicate();
    proof {
        match *first_moved {
            Some(f) => {
                assert(0 <= h0.index_of(f) < n);
            },
            None => {},
        }
        lemma_moved_len(s0, n, picks, note@);
        assert(s0.subrange(0, n) =~= s0);
        lemma_kept_same(h0, s0);
    }
    let back = match list_back_index(entries) {
        Some(back) => back,
        None => {
            proof {
                assert(moved_part(s0, k, picks, note@) + s0.subrange(0, k) + kept_part(s0, k, picks)
                    =~= s0);
                lemma_moved_len(s0, 0, picks, Seq::empty());
            }
            return ;
        },
    };
    proof {
        lemma_position(h0, n - 1);
    }
    match *first_moved {
        Some(boundary) => {
            if same_handle(boundary, back) {
                proof {
                    assert(k == n);
                    assert(moved_part(s0, k, picks, note@) + s0.subrange(0, k) + kept_part(
                        s0,
                        k,
                        picks,
                    ) =~= s0);
                    lemma_moved_len(s0, n, picks, Seq::empty());
                }
                return ;
            }
        },
        None => {},
    }
    let mut current = back;
    let ghost mut j: int = n;
    let ghost mut m: int = 0;
    let mut done = false;
    proof {
        assert(moved_part(s0, n, picks, note@) + s0.subrange(0, n) + kept_part(s0, n, picks)
            =~= s0);
    }
    while !done
        invariant
            n == s0.len(),
            n > 0,
            picks == matcher.predicate(),
            k == scan_start(b0),
            0 <= k <= j <= n,
            b0 is Some ==> 0 <= b0.unwrap() < n,
            list_valid(*entries),
            list_handles(*entries).len() == n,
            forall|h: Index<NtLoadOrderEntry>|
                h0.contains(h) <==> list_handles(*entries).contains(h),
            m == moved_part(s0, j, picks, note@).len(),
            list_entries(*entries) == moved_part(s0, j, picks, note@) + s0.subrange(0, j)
                + kept_part(s0, j, picks),
            !done ==> k < j && list_handles(*entries)[m + j - 1] == current,
            done ==> j == k,
            pass_boundary(list_handles(*entries), *first_moved, b0, m),
            handles_kept(h0, s0, list_handles(*entries), list_entries(*entries)),
        decreases (if done { 0 } else { j + 1 }),
    {
        let ghost q = m + j - 1;
        let ghost before = list_entries(*entries);
        let ghost hs = list_handles(*entries);
        let ghost fm_before = *first_moved;
        proof {
            lemma_pass_step(s0, j, picks, note@, before);
            lemma_position(hs, q);
        }
        let previous = list_previous_index(entries, current);
        let picked = matcher.test(list_get(entries, current));
        if picked {
            let entry = list_get_mut(entries, current);
            entry.reason.append(note);
            proof {
                assert(list_entries(*entries) == before.update(q, with_note(s0[j - 1], note@)));
                lemma_position(hs, 0);
                lemma_moved_to_front(hs, q);
            }
            let front = list_front_index(entries);
            match front {
                Some(front) => {
                    if !same_handle(current, front) {
                        list_move_before(entries, current, front);
                    } else {
                        proof {
                            assert(q == 0);
                            assert(moved_before(hs, 0, 0) =~= hs);
                            assert(moved_before(list_entries(*entries), 0, 0) =~= list_entries(
                                *entries,
                            ));
                        }
                    }
                },
                None => {},
            }
            if first_moved.is_none() {
                *first_moved = Some(current);
            }
            proof {
                assert(list_handles(*entries) == moved_before(hs, q, 0));
                lemma_boundary_step(hs, fm_before, b0, m, j, current);
                lemma_pass_keeps(h0, s0, hs, before, q, note@);
                m = m + 1;
            }
        }
        proof {
            j = j - 1;
            if q > 0 {
                lemma_position(list_handles(*entries), m + j - 1);
            }
            lemma_boundary_position(list_handles(*entries), *first_moved, b0, m);
        }
        let stop = match previous {
            Some(p) => match *first_moved {
                Some(f) => same_handle(p, f),
                None => false,
            },
            None => true,
        };
        if stop {
            done = true;
        } else {
            match previous {
                Some(p) => {
                    current = p;
                },
                None => {},
            }
        }
    }
    proof {
        lemma_moved_len(s0, k, picks, Seq::empty());
        lemma_moved_len(s0, k, picks, note@);
        lemma_boundary_position(list_handles(*entries), *first_moved, b0, m);
    }
}

/// Where the boundary handle stands while a pass is under way, after `m`
/// entries were moved.
spec fn pass_boundary(
    handles: Seq<Index<NtLoadOrderEntry>>,
    first_moved: Option<Index<NtLoadOrderEntry>>,
    b0: Option<int>,
    m: int,
) -> bool {
    match first_moved {
        Some(f) => {
            &&& b0 is None ==> m >= 1
            &&& 0 <= boundary_place(b0, m) < handles.len()
            &&& handles[boundary_place(b0, m)] == f
        },
        None => b0 is None && m == 0,
    }
}

/// The place of the boundary after `m` entries were moved in front of it.
spec fn boundary_place(b0: Option<int>, m: int) -> int {
    match b0 {
        Some(p) => p + m,
        None => m - 1,
    }
}

/// Where the invariant of a pass has the boundary, the handle is found.
proof fn lemma_boundary_position(
    handles: Seq<Index<NtLoadOrderEntry>>,
    first_moved: Option<Index<NtLoadOrderEntry>>,
    b0: Option<int>,
    m: int,
)
    requires
        handles.no_duplicates(),
        pass_boundary(handles, first_moved, b0, m),
    ensures
        match first_moved {
            Some(f) => handles.contains(f) && handles.index_of(f) == boundary_place(b0, m) && (b0
                is None ==> m >= 1),
            None => b0 is None && m == 0,
        },
{
    match first_moved {
        Some(f) => {
            lemma_position(handles, boundary_place(b0, m));
        },
        None => {},
    }
}

/// Moving the entry at hand to the front keeps the boundary where the
/// invariant of a pass wants it, and sets it where none was set.
proof fn lemma_boundary_step(
    hs: Seq<Index<NtLoadOrderEntry>>,
    first_moved: Option<Index<NtLoadOrderEntry>>,
    b0: Option<int>,
    m: int,
    j: int,
    current: Index<NtLoadOrderEntry>,
)
    requires
        hs.no_duplicates(),
        pass_boundary(hs, first_moved, b0, m),
        m >= 0,
        scan_start(b0) < j,
        0 <= m + j - 1 < hs.len(),
        hs[m + j - 1] == current,
    ensures
        pass_boundary(
            moved_before(hs, m + j - 1, 0),
            if first_moved is Some {
                first_moved
            } else {
                Some(current)
            },
            b0,
            m + 1,
        ),
{
    lemma_moved_to_front(hs, m + j - 1);
    let t = moved_before(hs, m + j - 1, 0);
    match first_moved {
        Some(f) => {
            let p = boundary_place(b0, m);
            assert(p < m + j - 1);
            assert(t[p + 1] == hs[p]);
        },
        None => {},
    }
}

/// One key of a pass over several keys: what it picks, and the note that
/// a moved entry gets.
pub struct PassKey {
    pub picks: spec_fn(EntryView) -> bool,
    pub note: Seq<char>,
}

/// The list and the boundary after one pass for each key, the last key
/// first, so that the entries of the first key come to stand in front.
pub open spec fn passes(s: Seq<EntryView>, boundary: Option<int>, keys: Seq<PassKey>) -> (
    Seq<EntryView>,
    Option<int>,
)
    decreases keys.len(),
{
    if keys.len() == 0 {
        (s, boundary)
    } else {
        passes(
            front_partition(s, boundary, keys.last().picks, keys.last().note),
            boundary_after(s, boundary, keys.last().picks),
            keys.drop_last(),
        )
    }
}

/// A matcher together with the note for the entries it moves.
pub struct PassRule {
    pub matcher: EntryMatcher,
    pub note: String,
}

impl View for PassRule {
    type V = PassKey;

    open spec fn view(&self) -> PassKey {
        PassKey { picks: self.matcher.predicate(), note: self.note@ }
    }
}

/// The keys that a sequence of rules stands for.
pub open spec fn rule_keys(rules: Seq<PassRule>) -> Seq<PassKey> {
    rules.map_values(|rule: PassRule| rule@)
}

/// Runs one pass for each rule, the last rule first, all with one boundary
/// that starts unset.
pub fn move_each_to_front(entries: &mut VecList<NtLoadOrderEntry>, rules: &Vec<PassRule>)
    requires
        list_valid(*old(entries)),
    ensures
        list_valid(*final(entries)),
        list_entries(*final(entries)) == passes(
            list_entries(*old(entries)),
            None,
            rule_keys(rules@),
        ).0,
        list_entries(*final(entries)).len() == list_entries(*old(entries)).len(),
        entries_kept(*old(entries), *final(entries)),
        forall|h: Index<NtLoadOrderEntry>|
            list_handles(*old(entries)).contains(h) <==> list_handles(*final(entries)).contains(h),
{
    let ghost s0 = list_entries(*entries);
    let ghost h0 = list_handles(*entries);
    let ghost keys = rule_keys(rules@);
    let mut first_moved: Option<Index<NtLoadOrderEntry>> = None;
    let mut i = rules.len();
    proof {
        assert(keys.take(i as int) =~= keys);
        lemma_kept_same(h0, s0);
    }
    while i > 0
        invariant
            i <= rules.len(),
            keys == rule_keys(rules@),
            list_valid(*entries),
            boundary_valid(*entries, first_moved),
            list_entries(*entries).len() == s0.len(),
            handles_kept(h0, s0, list_handles(*entries), list_entries(*entries)),
            forall|h: Index<NtLoadOrderEntry>|
                h0.contains(h) <==> list_handles(*entries).contains(h),
            passes(s0, None, keys) == passes(
                list_entries(*entries),
                boundary_position(*entries, first_moved),
                keys.take(i as int),
            ),
        decreases i,
    {
        i -= 1;
        let rule = &rules[i];
        proof {
            assert(keys.take(i + 1).last() == rule@);
            assert(keys.take(i + 1).drop_last() =~= keys.take(i as int));
        }
        let ghost h1 = list_handles(*entries);
        let ghost s1 = list_entries(*entries);
        move_matching_elements_to_front(
            entries,
            &mut first_moved,
            &rule.matcher,
            rule.note.as_str(),
        );
        proof {
            lemma_kept_twice(h0, s0, h1, s1, list_handles(*entries), list_entries(*entries));
        }
    }
}

/// The predicate that holds of the entries that `picks` does not pick.
pub open spec fn negated(picks: spec_fn(EntryView) -> bool) -> spec_fn(EntryView) -> bool {
    |entry: EntryView| !picks(entry)
}

/// The function that appends a note to an entry's reason.
pub open spec fn noting(note: Seq<char>) -> spec_fn(EntryView) -> EntryView {
    |entry: EntryView| with_note(entry, note)
}

/// The two parts that a pass makes of the entries from `from` on are the
/// picked ones, each with the note, and the others, both in their order.
pub proof fn lemma_parts_are_filters(
    s: Seq<EntryView>,
    from: int,
    picks: spec_fn(EntryView) -> bool,
    note: Seq<char>,
)
    requires
        0 <= from <= s.len(),
    ensures
        moved_part(s, from, picks, note) == s.subrange(from, s.len() as int).filter(
            picks,
        ).map_values(noting(note)),
        kept_part(s, from, picks) == s.subrange(from, s.len() as int).filter(negated(picks)),
    decreases s.len() - from,
{
    let n = s.len() as int;
    let t = s.subrange(from, n);
    if from < n {
        lemma_parts_are_filters(s, from + 1, picks, note);
        assert(t.drop_first() =~= s.subrange(from + 1, n));
        t.lemma_filter_eq_filter_alt(picks);
        t.lemma_filter_eq_filter_alt(negated(picks));
        let rest = s.subrange(from + 1, n);
        if picks(s[from]) {
            assert(t.filter(picks) == seq![s[from]] + rest.filter(picks));
            assert((seq![s[from]] + rest.filter(picks)).map_values(noting(note)) =~= seq![
                with_note(s[from], note),
            ] + rest.filter(picks).map_values(noting(note)));
        } else {
            assert(t.filter(negated(picks)) == seq![s[from]] + rest.filter(negated(picks)));
        }
    } else {
        assert(t.filter(picks).map_values(noting(note)) =~= Seq::<EntryView>::empty());
        assert(t.filter(negated(picks)) =~= Seq::<EntryView>::empty());
    }
}

/// A pass over a list without a boundary is a stable partition: in front
/// stand the entries that the predicate picks, in the order they had, each
/// with the note appended to its reason; behind them stand all other
/// entries, unchanged and in the order they had.
pub proof fn lemma_front_partition_is_stable(
    s: Seq<EntryView>,
    picks: spec_fn(EntryView) -> bool,
    note: Seq<char>,
)
    ensures
        front_partition(s, None, picks, note) == s.filter(picks).map_values(noting(note))
            + s.filter(negated(picks)),
{
    lemma_parts_are_filters(s, 0, picks, note);
    assert(s.subrange(0, s.len() as int) =~= s);
    assert(s.subrange(0, 0) =~= Seq::<EntryView>::empty());
    assert(front_partition(s, None, picks, note) =~= s.filter(picks).map_values(noting(note))
        + s.filter(negated(picks)));
}

/// The entries that passes over the keys place in front: those of the first
/// key first. An entry that several keys pick stands with the last of them.
pub open spec fn placed(s: Seq<EntryView>, keys: Seq<PassKey>) -> Seq<EntryView>
    decreases keys.len(),
{
    if keys.len() == 0 {
        Seq::empty()
    } else {
        placed(s.filter(negated(keys.last().picks)), keys.drop_last()) + s.filter(
            keys.last().picks,
        ).map_values(noting(keys.last().note))
    }
}

/// The entries that no key picks, in their order.
pub open spec fn unplaced(s: Seq<EntryView>, keys: Seq<PassKey>) -> Seq<EntryView>
    decreases keys.len(),
{
    if keys.len() == 0 {
        s
    } else {
        unplaced(s.filter(negated(keys.last().picks)), keys.drop_last())
    }
}

/// The boundary that marks all of `front` as placed.
spec fn boundary_behind(front: Seq<EntryView>) -> Option<int> {
    if front.len() > 0 {
        Some(front.len() - 1)
    } else {
        None
    }
}

/// The parts that a pass makes of the entries behind a front do not
/// depend on the front.
proof fn lemma_parts_skip_front(
    front: Seq<EntryView>,
    rest: Seq<EntryView>,
    from: int,
    picks: spec_fn(EntryView) -> bool,
    note: Seq<char>,
)
    requires
        0 <= from,
    ensures
        moved_part(front + rest, front.len() + from, picks, note) == moved_part(
            rest,
            from,
            picks,
            note,
        ),
        kept_part(front + rest, front.len() + from, picks) == kept_part(rest, from, picks),
    decreases rest.len() - from,
{
    if from < rest.len() {
        lemma_parts_skip_front(front, rest, from + 1, picks, note);
        assert((front + rest)[front.len() + from] == rest[from]);
    }
}

/// Passes over a list whose front is placed put the entries of the keys
/// in front of it and leave the rest behind it.
proof fn lemma_passes_behind_front(front: Seq<EntryView>, rest: Seq<EntryView>, keys: Seq<PassKey>)
    ensures
        passes(front + rest, boundary_behind(front), keys).0 == placed(rest, keys) + front
            + unplaced(rest, keys),
    decreases keys.len(),
{
    if keys.len() == 0 {
        assert(placed(rest, keys) + front + unplaced(rest, keys) =~= front + rest);
    } else {
        let key = keys.last();
        let all = front + rest;
        let b = boundary_behind(front);
        let moved = moved_part(rest, 0, key.picks, key.note);
        let kept = kept_part(rest, 0, key.picks);
        lemma_parts_skip_front(front, rest, 0, key.picks, key.note);
        lemma_parts_skip_front(front, rest, 0, key.picks, Seq::empty());
        lemma_moved_len(rest, 0, key.picks, key.note);
        lemma_moved_len(rest, 0, key.picks, Seq::empty());
        lemma_parts_are_filters(rest, 0, key.picks, key.note);
        assert(rest.subrange(0, rest.len() as int) =~= rest);
        assert(all.subrange(0, front.len() as int) =~= front);
        assert(scan_start(b) == front.len());
        assert(front_partition(all, b, key.picks, key.note) =~= (moved + front) + kept);
        assert(boundary_after(all, b, key.picks) == boundary_behind(moved + front));
        lemma_passes_behind_front(moved + front, kept, keys.drop_last());
        assert(placed(kept, keys.drop_last()) + (moved + front) + unplaced(kept, keys.drop_last())
            =~= placed(rest, keys) + front + unplaced(rest, keys));
    }
}

/// Passes over several keys group the list: in front stand the entries of
/// the first key, behind them those of the second key, and so on, behind
/// them all the entries that no key picks, each of these groups in the
/// order that its entries had.
pub proof fn lemma_passes_group_by_key(s: Seq<EntryView>, keys: Seq<PassKey>)
    ensures
        passes(s, None, keys).0 == placed(s, keys) + unplaced(s, keys),
{
    lemma_passes_behind_front(Seq::empty(), s, keys);
    assert(Seq::<EntryView>::empty() + s =~= s);
    assert(placed(s, keys) + Seq::<EntryView>::empty() + unplaced(s, keys) =~= placed(s, keys)
        + unplaced(s, keys));
}

/// Passes for three keys, the third key first, leave the list in four
/// groups: the entries of the first key, those of the second, those of the
/// third, and the rest, each in the order that its entries had. An entry
/// that two keys pick stands with the later one of them.
pub proof fn lemma_passes_for_three_keys(
    s: Seq<EntryView>,
    first: PassKey,
    second: PassKey,
    third: PassKey,
)
    ensures
        passes(s, None, seq![first, second, third]).0 == s.filter(negated(third.picks)).filter(
            negated(second.picks),
        ).filter(first.picks).map_values(noting(first.note)) + s.filter(
            negated(third.picks),
        ).filter(second.picks).map_values(noting(second.note)) + s.filter(
            third.picks,
        ).map_values(noting(third.note)) + s.filter(negated(third.picks)).filter(
            negated(second.picks),
        ).filter(negated(first.picks)),
{
    let keys = seq![first, second, third];
    lemma_passes_group_by_key(s, keys);
    let two = keys.drop_last();
    let one = two.drop_last();
    let none = one.drop_last();
    assert(keys.last() == third);
    assert(two.last() == second);
    assert(one.last() == first);
    assert(none.len() == 0);
    let s3 = s.filter(negated(third.picks));
    let s2 = s3.filter(negated(second.picks));
    let s1 = s2.filter(negated(first.picks));
    assert(placed(s1, none) == Seq::<EntryView>::empty());
    assert(unplaced(s1, none) == s1);
    assert(placed(s2, one) == placed(s1, none) + s2.filter(first.picks).map_values(
        noting(first.note),
    ));
    assert(placed(s3, two) == placed(s2, one) + s3.filter(second.picks).map_values(
        noting(second.note),
    ));
    assert(placed(s, keys) == placed(s3, two) + s.filter(third.picks).map_values(
        noting(third.note),
    ));
    assert(unplaced(s2, one) == unplaced(s1, none));
    assert(unplaced(s3, two) == unplaced(s2, one));
    assert(unplaced(s, keys) == unplaced(s3, two));
    assert(placed(s, keys) + unplaced(s, keys) =~= s2.filter(first.picks).map_values(
        noting(first.note),
    ) + s3.filter(second.picks).map_values(noting(second.note)) + s.filter(
        third.picks,
    ).map_values(noting(third.note)) + s1);
}

} // verus!
