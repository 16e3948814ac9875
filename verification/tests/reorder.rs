use dlv_list::{Index, VecList};
use nt_load_order::steps::{
    move_each_to_front, move_matching_elements_to_front, sort_by_hardcoded_groups,
    sort_by_hardcoded_service_lists, EntryMatcher, PassRule,
};
use nt_load_order::{NtLoadOrderEntry, NtLoadOrderEntryGroup};

fn service(name: &str, group: Option<&str>) -> NtLoadOrderEntry {
    NtLoadOrderEntry {
        name: name.to_string(),
        image_path: format!("System32\\drivers\\{name}.sys"),
        group: group.map(|g| NtLoadOrderEntryGroup {
            display_name: g.to_string(),
            search_key: g.to_ascii_lowercase(),
        }),
        tag: None,
        reason: "Boot Driver".to_string(),
        is_kernel_binary: false,
    }
}

fn list_of(entries: Vec<NtLoadOrderEntry>) -> VecList<NtLoadOrderEntry> {
    let mut list = VecList::new();
    for entry in entries {
        list.push_back(entry);
    }
    list
}

fn names(list: &VecList<NtLoadOrderEntry>) -> Vec<String> {
    list.iter().map(|e| e.name.clone()).collect()
}

fn reasons(list: &VecList<NtLoadOrderEntry>) -> Vec<String> {
    list.iter().map(|e| e.reason.clone()).collect()
}

fn group_name(name: &str) -> EntryMatcher {
    EntryMatcher::GroupName(name.to_string())
}

#[test]
fn one_pass_is_a_stable_partition() {
    let mut list = list_of(vec![
        service("a", Some("x")),
        service("b", Some("y")),
        service("c", Some("x")),
        service("d", None),
        service("e", Some("X")),
        service("f", Some("y")),
    ]);
    let mut first_moved = None;
    move_matching_elements_to_front(&mut list, &mut first_moved, &group_name("x"), " (x)");
    assert_eq!(names(&list), vec!["a", "c", "e", "b", "d", "f"]);
    assert_eq!(
        reasons(&list),
        vec![
            "Boot Driver (x)",
            "Boot Driver (x)",
            "Boot Driver (x)",
            "Boot Driver",
            "Boot Driver",
            "Boot Driver"
        ]
    );
    // The boundary is the entry that was moved first: the last of the moved ones.
    let boundary: Index<NtLoadOrderEntry> = first_moved.unwrap();
    assert_eq!(list.get(boundary).unwrap().name, "e");
}

#[test]
fn a_pass_that_picks_nothing_changes_nothing() {
    let mut list = list_of(vec![service("a", Some("x")), service("b", None)]);
    let mut first_moved = None;
    move_matching_elements_to_front(&mut list, &mut first_moved, &group_name("z"), "!");
    assert_eq!(names(&list), vec!["a", "b"]);
    assert_eq!(reasons(&list), vec!["Boot Driver", "Boot Driver"]);
    assert!(first_moved.is_none());
}

#[test]
fn a_pass_over_an_empty_list_does_nothing() {
    let mut list: VecList<NtLoadOrderEntry> = VecList::new();
    let mut first_moved = None;
    move_matching_elements_to_front(&mut list, &mut first_moved, &group_name("x"), "!");
    assert!(list.is_empty());
    assert!(first_moved.is_none());
}

#[test]
fn a_pass_that_picks_only_the_front_keeps_the_order() {
    let mut list = list_of(vec![service("a", Some("x")), service("b", None)]);
    let mut first_moved = None;
    move_matching_elements_to_front(&mut list, &mut first_moved, &group_name("x"), "!");
    assert_eq!(names(&list), vec!["a", "b"]);
    assert_eq!(reasons(&list), vec!["Boot Driver!", "Boot Driver"]);
    assert_eq!(list.get(first_moved.unwrap()).unwrap().name, "a");
}

#[test]
fn the_entries_up_to_the_boundary_are_left_alone() {
    let mut list = list_of(vec![
        service("a", Some("y")),
        service("b", Some("x")),
        service("c", Some("y")),
        service("d", Some("x")),
    ]);
    let mut first_moved = None;
    move_matching_elements_to_front(&mut list, &mut first_moved, &group_name("x"), "");
    assert_eq!(names(&list), vec!["b", "d", "a", "c"]);
    // A second pass for the same key finds nothing behind the boundary.
    move_matching_elements_to_front(&mut list, &mut first_moved, &group_name("x"), "!");
    assert_eq!(names(&list), vec!["b", "d", "a", "c"]);
    assert_eq!(reasons(&list)[0], "Boot Driver");
    move_matching_elements_to_front(&mut list, &mut first_moved, &group_name("y"), "");
    assert_eq!(names(&list), vec!["a", "c", "b", "d"]);
    // Now every entry is placed, and a further pass does nothing at all.
    move_matching_elements_to_front(&mut list, &mut first_moved, &group_name("x"), "!");
    assert_eq!(names(&list), vec!["a", "c", "b", "d"]);
    assert_eq!(reasons(&list)[2], "Boot Driver");
}

#[test]
fn passes_for_three_keys_group_the_list() {
    let mut list = list_of(vec![
        service("r1", None),
        service("c1", Some("k3")),
        service("a1", Some("k1")),
        service("b1", Some("k2")),
        service("r2", Some("other")),
        service("a2", Some("K1")),
        service("c2", Some("k3")),
        service("b2", Some("k2")),
    ]);
    let rules = vec![
        PassRule { matcher: group_name("k1"), note: " one".to_string() },
        PassRule { matcher: group_name("k2"), note: " two".to_string() },
        PassRule { matcher: group_name("k3"), note: " three".to_string() },
    ];
    move_each_to_front(&mut list, &rules);
    assert_eq!(names(&list), vec!["a1", "a2", "b1", "b2", "c1", "c2", "r1", "r2"]);
    assert_eq!(
        reasons(&list),
        vec![
            "Boot Driver one",
            "Boot Driver one",
            "Boot Driver two",
            "Boot Driver two",
            "Boot Driver three",
            "Boot Driver three",
            "Boot Driver",
            "Boot Driver"
        ]
    );
}

#[test]
fn a_key_without_entries_leaves_the_other_groups_in_order() {
    let mut list = list_of(vec![
        service("b1", Some("k2")),
        service("r1", None),
        service("a1", Some("k1")),
    ]);
    let rules = vec![
        PassRule { matcher: group_name("k1"), note: String::new() },
        PassRule { matcher: group_name("none"), note: String::new() },
        PassRule { matcher: group_name("k2"), note: String::new() },
    ];
    move_each_to_front(&mut list, &rules);
    assert_eq!(names(&list), vec!["a1", "b1", "r1"]);
}

#[test]
fn an_entry_of_two_keys_stands_with_the_later_key() {
    let mut list = list_of(vec![service("a", Some("k")), service("b", None)]);
    let rules = vec![
        PassRule { matcher: group_name("k"), note: " first".to_string() },
        PassRule { matcher: group_name("K"), note: " second".to_string() },
    ];
    move_each_to_front(&mut list, &rules);
    assert_eq!(names(&list), vec!["a", "b"]);
    assert_eq!(reasons(&list), vec!["Boot Driver second", "Boot Driver"]);
}

#[test]
fn matchers_compare_as_they_say() {
    let entry = service("a", Some("Boot Bus Extender"));
    let mut list = list_of(vec![service("z", None), entry]);
    let mut first_moved = None;
    // The search key is in lower case, and a group key is compared exactly.
    let exact = EntryMatcher::GroupKey("Boot Bus Extender".to_string());
    move_matching_elements_to_front(&mut list, &mut first_moved, &exact, "");
    assert_eq!(names(&list), vec!["z", "a"]);
    let lower = EntryMatcher::GroupKey("boot bus extender".to_string());
    move_matching_elements_to_front(&mut list, &mut first_moved, &lower, "");
    assert_eq!(names(&list), vec!["a", "z"]);
    let mut list = list_of(vec![service("z", None), service("a", None)]);
    let mut first_moved = None;
    let path = EntryMatcher::ImagePath("SYSTEM32\\Drivers\\A.SYS".to_string());
    move_matching_elements_to_front(&mut list, &mut first_moved, &path, "");
    assert_eq!(names(&list), vec!["a", "z"]);
}

#[test]
fn hardcoded_groups_come_first_in_their_order() {
    let mut list = list_of(vec![
        service("a", Some("Boot Bus Extender")),
        service("b", Some("Core Security Extensions")),
        service("c", None),
        service("d", Some("Early-Launch")),
        service("e", Some("Core Security Extensions")),
        service("f", Some("early-launch")),
        service("g", Some("Core Platform Extensions")),
    ]);
    sort_by_hardcoded_groups(&mut list);
    assert_eq!(names(&list), vec!["d", "f", "g", "b", "e", "a", "c"]);
    let reasons = reasons(&list);
    assert_eq!(
        reasons[0],
        "Boot Driver, loaded earlier due to hardcoded \"Early-Launch\" group"
    );
    assert_eq!(
        reasons[2],
        "Boot Driver, loaded earlier due to hardcoded \"Core Platform Extensions\" group"
    );
    assert_eq!(
        reasons[3],
        "Boot Driver, loaded earlier due to hardcoded \"Core Security Extensions\" group"
    );
    assert_eq!(reasons[5], "Boot Driver");
}

#[test]
fn hardcoded_groups_go_by_the_search_key() {
    let mut entry = service("a", Some("Early-Launch"));
    entry.group.as_mut().unwrap().search_key = "Early-Launch".to_string();
    let mut list = list_of(vec![service("z", None), entry]);
    sort_by_hardcoded_groups(&mut list);
    assert_eq!(names(&list), vec!["z", "a"]);
}

#[test]
fn hardcoded_service_lists_come_first_in_their_order() {
    let mut list = list_of(vec![
        service("disk", None),
        service("ACPI", None),
        service("cng", None),
        service("Wdf01000", None),
        service("acpisim", None),
        service("palcore", None),
        service("verifierext", None),
    ]);
    sort_by_hardcoded_service_lists(&mut list);
    assert_eq!(
        names(&list),
        vec!["verifierext", "Wdf01000", "cng", "palcore", "acpisim", "ACPI", "disk"]
    );
    let reasons = reasons(&list);
    assert_eq!(
        reasons[1],
        "Boot Driver, loaded earlier due to hardcoded \"Core Driver Services\" list"
    );
    assert_eq!(
        reasons[5],
        "Boot Driver, loaded earlier due to hardcoded \"TPM Core Driver Services\" list"
    );
    assert_eq!(reasons[6], "Boot Driver");
}

#[test]
fn every_hardcoded_service_has_its_place() {
    let order = [
        "verifierext", "wdf01000", "acpiex", "cng", "mssecflt", "sgrmagent", "lxss", "palcore",
        "acpisim", "acpi",
    ];
    let mut entries: Vec<NtLoadOrderEntry> = order.iter().rev().map(|n| service(n, None)).collect();
    entries.insert(0, service("first", None));
    let mut list = list_of(entries);
    sort_by_hardcoded_service_lists(&mut list);
    let mut expected: Vec<&str> = order.to_vec();
    expected.push("first");
    assert_eq!(names(&list), expected);
}

#[test]
fn handles_keep_their_entries_through_the_passes() {
    let mut list = list_of(vec![
        service("a", None),
        service("b", Some("Core Security Extensions")),
        service("acpi", None),
        service("d", Some("Early-Launch")),
    ]);
    let handles: Vec<Index<NtLoadOrderEntry>> = list.indices().collect();
    sort_by_hardcoded_groups(&mut list);
    sort_by_hardcoded_service_lists(&mut list);
    assert_eq!(names(&list), vec!["acpi", "d", "b", "a"]);
    let held: Vec<&str> = handles.iter().map(|h| list.get(*h).unwrap().name.as_str()).collect();
    assert_eq!(held, vec!["a", "b", "acpi", "d"]);
    assert_eq!(list.len(), 4);
    assert!(list.get(handles[2]).unwrap().reason.starts_with("Boot Driver, loaded earlier"));
    assert_eq!(list.get(handles[0]).unwrap().reason, "Boot Driver");
}
