//! The groups that the bootloader loads before all others, whatever the
//! registry's group order says.

use vstd::prelude::*;
use vstd::string::*;
use dlv_list::{Index, VecList};
use crate::entry::NtLoadOrderEntry;
use crate::list::{entries_kept, list_entries, list_handles, list_valid};
use crate::steps::{
    matcher_predicate, move_each_to_front, passes, rule_keys, EntryMatcher, MatcherView, PassKey,
    PassRule,
};
use crate::text::{ascii_lower, joined};

verus! {

/// The names of the hardcoded groups, the one that loads first in front.
pub open spec fn hardcoded_group_names() -> Seq<Seq<char>> {
    seq!["Early-Launch"@, "Core Platform Extensions"@, "Core Security Extensions"@]
}

/// What is appended to the reason of an entry that a hardcoded group moves.
pub open spec fn hardcoded_group_note(name: Seq<char>) -> Seq<char> {
    ", loaded earlier due to hardcoded \""@ + name + "\" group"@
}

/// The key of a hardcoded group: it picks the entries whose group has the
/// lowercased name as its search key.
pub open spec fn hardcoded_group_key(name: Seq<char>) -> PassKey {
    PassKey {
        picks: matcher_predicate(MatcherView::GroupKey(ascii_lower(name))),
        note: hardcoded_group_note(name),
    }
}

/// The keys of all hardcoded groups, in the order of their names.
pub open spec fn hardcoded_group_keys() -> Seq<PassKey> {
    hardcoded_group_names().map_values(|name: Seq<char>| hardcoded_group_key(name))
}

/// Makes the rule of a hardcoded group.
fn hardcoded_group_rule(name: &str) -> (rule: PassRule)
    ensures
        rule@ == hardcoded_group_key(name@),
{
    let prefix = joined(", loaded earlier due to hardcoded \"", name);
    PassRule {
        matcher: EntryMatcher::GroupKey(name.to_ascii_lowercase()),
        note: joined(prefix.as_str(), "\" group"),
    }
}

/// Moves the entries of the hardcoded groups to the front, the groups in
/// the order of their names and the entries of each group in the order they
/// had, and appends to the reason of each moved entry why it was moved.
pub fn sort_by_hardcoded_groups(entries: &mut VecList<NtLoadOrderEntry>)
    requires
        list_valid(*old(entries)),
    ensures
        list_valid(*final(entries)),
        list_entries(*final(entries)) == passes(
            list_entries(*old(entries)),
            None,
            hardcoded_group_keys(),
        ).0,
        list_entries(*final(entries)).len() == list_entries(*old(entries)).len(),
        entries_kept(*old(entries), *final(entries)),
        forall|h: Index<NtLoadOrderEntry>|
            list_handles(*old(entries)).contains(h) <==> list_handles(*final(entries)).contains(h),
{
    let mut rules: Vec<PassRule> = Vec::new();
    rules.push(hardcoded_group_rule("Early-Launch"));
    rules.push(hardcoded_group_rule("Core Platform Extensions"));
    rules.push(hardcoded_group_rule("Core Security Extensions"));
    assert(rule_keys(rules@) =~= hardcoded_group_keys());
    move_each_to_front(entries, &rules);
}

} // verus!
