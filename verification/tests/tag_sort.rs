use dlv_list::VecList;
use nt_load_order::steps::load_from_registry::RegistryInfo;
use nt_load_order::steps::sort_by_tag_and_group;
use nt_load_order::steps::sort_by_tag_and_group::{
    compare_tags, get_tag_index, sort_list_by_group, sort_list_by_tag, TagOrder,
};
use nt_load_order::{NtLoadOrderEntry, NtLoadOrderEntryGroup};

fn service(name: &str, group: Option<&str>, tag: Option<u32>) -> NtLoadOrderEntry {
    NtLoadOrderEntry {
        name: name.to_string(),
        image_path: format!("System32\\drivers\\{name}.sys"),
        group: group.map(|g| NtLoadOrderEntryGroup {
            display_name: g.to_string(),
            search_key: g.to_ascii_lowercase(),
        }),
        tag,
        reason: "Boot Driver".to_string(),
        is_kernel_binary: false,
    }
}

fn list_of(entries: Vec<NtLoadOrderEntry>) -> VecList<NtLoadOrderEntry> {
    let mut list = VecList::new();
    for entry in entries {
        list.push_back(entry);
    }
    list
}

fn names(list: &VecList<NtLoadOrderEntry>) -> Vec<String> {
    list.iter().map(|e| e.name.clone()).collect()
}

fn info_with(group: &str, tags: Vec<u32>) -> RegistryInfo {
    let mut info = RegistryInfo::new(Vec::new(), Vec::new());
    info.set_group_order(group, &tags);
    info
}

#[test]
fn tagged_with_group_before_tagged_without_before_untagged() {
    let info = RegistryInfo::new(Vec::new(), Vec::new());
    let mut list = list_of(vec![
        service("B", None, None),
        service("C", None, Some(5)),
        service("A", Some("G"), Some(5)),
    ]);
    sort_list_by_tag(&mut list, &info.groups);
    assert_eq!(names(&list), vec!["A", "C", "B"]);
    let a = service("A", Some("G"), Some(5));
    let b = service("B", None, None);
    let c = service("C", None, Some(5));
    assert!(compare_tags(&a, &c, &info.groups) == TagOrder::Less);
    assert!(compare_tags(&c, &b, &info.groups) == TagOrder::Less);
    assert!(compare_tags(&b, &a, &info.groups) == TagOrder::Greater);
    assert!(compare_tags(&b, &service("D", Some("G"), None), &info.groups) == TagOrder::Equal);
    assert!(compare_tags(&c, &service("E", None, Some(9)), &info.groups) == TagOrder::Equal);
}

#[test]
fn tags_rank_by_their_place_in_the_group_order() {
    let info = info_with("G", vec![10, 20]);
    let mut list = list_of(vec![
        service("untagged", Some("G"), None),
        service("t30", Some("G"), Some(30)),
        service("t20", Some("G"), Some(20)),
        service("t10", Some("G"), Some(10)),
    ]);
    sort_list_by_tag(&mut list, &info.groups);
    assert_eq!(names(&list), vec!["t10", "t20", "t30", "untagged"]);
}

#[test]
fn tag_index_by_place_sentinel_or_tag() {
    let info = info_with("Video", vec![7, 3, 7, 9]);
    assert_eq!(get_tag_index(7, "video", &info.groups), 1);
    assert_eq!(get_tag_index(3, "video", &info.groups), 2);
    assert_eq!(get_tag_index(9, "video", &info.groups), 3);
    assert_eq!(get_tag_index(4, "video", &info.groups), 0xffff_fffe);
    assert_eq!(get_tag_index(4, "core", &info.groups), 4);
    assert_eq!(get_tag_index(0xffff_ffff, "core", &info.groups), 0xffff_ffff);
    // The tables are kept under lowercased names, and looked up as given.
    assert_eq!(get_tag_index(7, "Video", &info.groups), 7);
}

#[test]
fn a_listed_tag_ranks_before_an_unlisted_one_and_a_raw_tag_counts_as_index() {
    let info = info_with("A", vec![100, 1]);
    let listed = service("listed", Some("A"), Some(1));
    let unlisted = service("unlisted", Some("A"), Some(0));
    let raw = service("raw", Some("B"), Some(2));
    let raw_big = service("raw_big", Some("B"), Some(3));
    assert!(compare_tags(&listed, &unlisted, &info.groups) == TagOrder::Less);
    // "listed" has index 2, as has the entry of a group without tag order and tag 2.
    assert!(compare_tags(&listed, &raw, &info.groups) == TagOrder::Equal);
    assert!(compare_tags(&listed, &raw_big, &info.groups) == TagOrder::Less);
    assert!(compare_tags(&unlisted, &raw_big, &info.groups) == TagOrder::Greater);
}

#[test]
fn an_entry_that_moves_goes_in_front_of_its_equals() {
    let info = RegistryInfo::new(Vec::new(), Vec::new());
    let mut list = list_of(vec![
        service("a1", Some("g"), Some(1)),
        service("b2", Some("g"), Some(2)),
        service("c1", Some("g"), Some(1)),
        service("d2", Some("g"), Some(2)),
        service("e0", Some("g"), Some(0)),
    ]);
    sort_list_by_tag(&mut list, &info.groups);
    assert_eq!(names(&list), vec!["e0", "c1", "a1", "b2", "d2"]);
}

#[test]
fn equal_ranks_keep_their_order() {
    let info = RegistryInfo::new(Vec::new(), Vec::new());
    let mut list = list_of(vec![
        service("a", None, None),
        service("b", None, None),
        service("c", None, None),
    ]);
    sort_list_by_tag(&mut list, &info.groups);
    assert_eq!(names(&list), vec!["a", "b", "c"]);
}

#[test]
fn short_lists_are_sorted_too() {
    let info = RegistryInfo::new(Vec::new(), Vec::new());
    let mut list: VecList<NtLoadOrderEntry> = VecList::new();
    sort_list_by_tag(&mut list, &info.groups);
    assert!(list.is_empty());
    let mut list = list_of(vec![service("only", None, None)]);
    sort_list_by_tag(&mut list, &info.groups);
    assert_eq!(names(&list), vec!["only"]);
    let mut list = list_of(vec![service("late", None, None), service("early", Some("g"), Some(1))]);
    sort_list_by_tag(&mut list, &info.groups);
    assert_eq!(names(&list), vec!["early", "late"]);
}

#[test]
fn groups_come_in_the_order_of_the_group_order() {
    let mut list = list_of(vec![
        service("n1", Some("Network"), None),
        service("x", None, None),
        service("d1", Some("Disk"), None),
        service("n2", Some("network"), None),
        service("d2", Some("DISK"), None),
        service("u", Some("Unlisted"), None),
    ]);
    let order = vec!["disk".to_string(), "NETWORK".to_string(), "Missing".to_string()];
    sort_list_by_group(&mut list, &order);
    assert_eq!(names(&list), vec!["d1", "d2", "n1", "n2", "x", "u"]);
    let reasons: Vec<String> = list.iter().map(|e| e.reason.clone()).collect();
    assert!(reasons.iter().all(|r| r == "Boot Driver"));
}

#[test]
fn services_are_taken_last_to_first_sorted_by_tag_and_grouped() {
    let entries = vec![
        service("s1", Some("Base"), Some(2)),
        service("s2", Some("Boot"), Some(1)),
        service("s3", None, None),
        service("s4", Some("Base"), Some(1)),
        service("s5", Some("Boot"), Some(1)),
        service("s6", None, None),
    ];
    let mut info = RegistryInfo::new(entries, vec!["Boot".to_string(), "Base".to_string()]);
    info.set_group_order("Base", &vec![2, 1]);
    let list = sort_by_tag_and_group(info);
    // Reversed: s6 s5 s4 s3 s2 s1. Indices: s1 = 1, s4 = 2, s5 = s2 = 1; s6 and s3 have no tag.
    // By tag, each moved entry in front of its equals: s1 s2 s5 s4 s6 s3.
    // By group: Boot (s2 s5), Base (s1 s4), the rest (s6 s3).
    assert_eq!(names(&list), vec!["s2", "s5", "s1", "s4", "s6", "s3"]);
}
