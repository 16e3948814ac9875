//! The lists of services that the bootloader loads first, whatever their
//! groups and tags say.

use vstd::prelude::*;
use vstd::string::*;
use dlv_list::{Index, VecList};
use crate::entry::NtLoadOrderEntry;
use crate::list::{entries_kept, list_entries, list_handles, list_valid};
use crate::steps::{
    matcher_predicate, move_each_to_front, passes, rule_keys, EntryMatcher, MatcherView, PassKey,
    PassRule,
};
use crate::text::joined;

verus! {

/// The image paths of the list "Core Driver Services", in load order.
pub open spec fn core_driver_services() -> Seq<Seq<char>> {
    seq![
        "system32\\drivers\\verifierext.sys"@,
        "system32\\drivers\\wdf01000.sys"@,
        "system32\\drivers\\acpiex.sys"@,
        "system32\\drivers\\cng.sys"@,
        "system32\\drivers\\mssecflt.sys"@,
        "system32\\drivers\\sgrmagent.sys"@,
        "system32\\drivers\\lxss.sys"@,
        "system32\\drivers\\palcore.sys"@,
    ]
}

/// The image paths of the list "TPM Core Driver Services", in load order.
pub open spec fn tpm_core_driver_services() -> Seq<Seq<char>> {
    seq!["system32\\drivers\\acpisim.sys"@, "system32\\drivers\\acpi.sys"@]
}

/// What is appended to the reason of an entry that a hardcoded list moves.
pub open spec fn hardcoded_list_note(list_name: Seq<char>) -> Seq<char> {
    ", loaded earlier due to hardcoded \""@ + list_name + "\" list"@
}

/// The key of one image path of a hardcoded list: it picks the entries with
/// that image path, the case of ASCII letters ignored.
pub open spec fn hardcoded_list_key(list_name: Seq<char>, image_path: Seq<char>) -> PassKey {
    PassKey {
        picks: matcher_predicate(MatcherView::ImagePath(image_path)),
        note: hardcoded_list_note(list_name),
    }
}

/// The keys of one hardcoded list, in the order of its image paths.
pub open spec fn hardcoded_list_keys(list_name: Seq<char>, image_paths: Seq<Seq<char>>) -> Seq<
    PassKey,
> {
    image_paths.map_values(|image_path: Seq<char>| hardcoded_list_key(list_name, image_path))
}

/// The keys of all hardcoded lists: the lists in load order, each with its
/// image paths in load order.
pub open spec fn hardcoded_service_list_keys() -> Seq<PassKey> {
    hardcoded_list_keys("Core Driver Services"@, core_driver_services()) + hardcoded_list_keys(
        "TPM Core Driver Services"@,
        tpm_core_driver_services(),
    )
}

/// Puts the rule of one image path of a hardcoded list behind the others.
fn push_hardcoded_list_rule(rules: &mut Vec<PassRule>, list_name: &str, image_path: &str)
    ensures
        rule_keys(final(rules)@) == rule_keys(old(rules)@).push(
            hardcoded_list_key(list_name@, image_path@),
        ),
{
    let prefix = joined(", loaded earlier due to hardcoded \"", list_name);
    let rule = PassRule {
        matcher: EntryMatcher::ImagePath(String::from_str(image_path)),
        note: joined(prefix.as_str(), "\" list"),
    };
    rules.push(rule);
    assert(rule_keys(rules@) =~= rule_keys(old(rules)@).push(
        hardcoded_list_key(list_name@, image_path@),
    ));
}

/// Moves the services of the hardcoded lists to the front, the lists in
/// load order, the services of each list in the order of the list, and
/// appends to the reason of each moved entry why it was moved.
pub fn sort_by_hardcoded_service_lists(entries: &mut VecList<NtLoadOrderEntry>)
    requires
        list_valid(*old(entries)),
    ensures
        list_valid(*final(entries)),
        list_entries(*final(entries)) == passes(
            list_entries(*old(entries)),
            None,
            hardcoded_service_list_keys(),
        ).0,
        list_entries(*final(entries)).len() == list_entries(*old(entries)).len(),
        entries_kept(*old(entries), *final(entries)),
        forall|h: Index<NtLoadOrderEntry>|
            list_handles(*old(entries)).contains(h) <==> list_handles(*final(entries)).contains(h),
{
    let mut rules: Vec<PassRule> = Vec::new();
    let core = "Core Driver Services";
    push_hardcoded_list_rule(&mut rules, core, "system32\\drivers\\verifierext.sys");
    push_hardcoded_list_rule(&mut rules, core, "system32\\drivers\\wdf01000.sys");
    push_hardcoded_list_rule(&mut rules, core, "system32\\drivers\\acpiex.sys");
    push_hardcoded_list_rule(&mut rules, core, "system32\\drivers\\cng.sys");
    push_hardcoded_list_rule(&mut rules, core, "system32\\drivers\\mssecflt.sys");
    push_hardcoded_list_rule(&mut rules, core, "system32\\drivers\\sgrmagent.sys");
    push_hardcoded_list_rule(&mut rules, core, "system32\\drivers\\lxss.sys");
    push_hardcoded_list_rule(&mut rules, core, "system32\\drivers\\palcore.sys");
    let tpm = "TPM Core Driver Services";
    push_hardcoded_list_rule(&mut rules, tpm, "system32\\drivers\\acpisim.sys");
    push_hardcoded_list_rule(&mut rules, tpm, "system32\\drivers\\acpi.sys");
    assert(rule_keys(rules@) =~= hardcoded_service_list_keys());
    move_each_to_front(entries, &rules);
}

} // verus!
