use dlv_list::VecList;
use nt_load_order::list::{list_from_entries, list_from_entries_reversed};
use nt_load_order::steps::load_from_registry::RegistryInfo;
use nt_load_order::steps::{add_basic_kernel_binaries, add_kernel_binaries, add_kernel_binary};
use nt_load_order::{NtLoadOrder, NtLoadOrderEntry, NtLoadOrderEntryGroup};

fn service(name: &str, group: Option<&str>, tag: Option<u32>) -> NtLoadOrderEntry {
    NtLoadOrderEntry {
        name: name.to_string(),
        image_path: format!("System32\\drivers\\{name}.sys"),
        group: group.map(|g| NtLoadOrderEntryGroup {
            display_name: g.to_string(),
            search_key: g.to_ascii_lowercase(),
        }),
        tag,
        reason: "Boot Driver".to_string(),
        is_kernel_binary: false,
    }
}

fn names(list: &VecList<NtLoadOrderEntry>) -> Vec<String> {
    list.iter().map(|e| e.name.clone()).collect()
}

fn paths(list: &VecList<NtLoadOrderEntry>) -> Vec<String> {
    list.iter().map(|e| e.image_path.clone()).collect()
}

#[test]
fn kernel_binaries_with_kd_driver_and_cpu_vendor() {
    let mut list = list_from_entries(vec![service("disk", None, None)]);
    add_kernel_binaries(
        &mut list,
        &Some("kdcom".to_string()),
        &Some("AuthenticAMD".to_string()),
    );
    assert_eq!(
        paths(&list),
        vec![
            "System32\\ntoskrnl.exe",
            "System32\\hal.dll",
            "System32\\kdcom.dll",
            "System32\\mcupdate_AuthenticAMD.dll",
            "System32\\drivers\\disk.sys"
        ]
    );
    assert_eq!(names(&list), vec!["ntoskrnl", "hal", "kdcom", "mcupdate", "disk"]);
    for (i, entry) in list.iter().enumerate() {
        assert_eq!(entry.is_kernel_binary, i < 4);
        if i < 4 {
            assert_eq!(entry.reason, "Kernel binary");
            assert!(entry.group.is_none());
            assert!(entry.tag.is_none());
        }
    }
}

#[test]
fn kernel_binaries_without_kd_driver_or_cpu_vendor() {
    let mut list = list_from_entries(Vec::new());
    add_kernel_binaries(&mut list, &None, &None);
    assert_eq!(paths(&list), vec!["System32\\ntoskrnl.exe", "System32\\hal.dll"]);
    let mut list = list_from_entries(Vec::new());
    add_kernel_binaries(&mut list, &None, &Some("GenuineIntel".to_string()));
    assert_eq!(
        paths(&list),
        vec!["System32\\ntoskrnl.exe", "System32\\hal.dll", "System32\\mcupdate_GenuineIntel.dll"]
    );
    let mut list = list_from_entries(Vec::new());
    add_kernel_binaries(&mut list, &Some("kdnet".to_string()), &None);
    assert_eq!(
        paths(&list),
        vec!["System32\\ntoskrnl.exe", "System32\\hal.dll", "System32\\kdnet.dll"]
    );
}

#[test]
fn a_kernel_binary_goes_behind_the_given_entry() {
    let mut list = list_from_entries(vec![service("a", None, None), service("b", None, None)]);
    let hal = add_basic_kernel_binaries(&mut list);
    assert_eq!(list.get(hal).unwrap().name, "hal");
    assert_eq!(names(&list), vec!["ntoskrnl", "hal", "a", "b"]);
    let back = list.back_index().unwrap();
    let last = add_kernel_binary(&mut list, back, "x".to_string(), "System32\\x.dll".to_string());
    assert_eq!(names(&list), vec!["ntoskrnl", "hal", "a", "b", "x"]);
    assert_eq!(list.back_index(), Some(last));
    let entry = list.get(last).unwrap();
    assert!(entry.is_kernel_binary);
    assert_eq!(entry.image_path, "System32\\x.dll");
    assert_eq!(entry.reason, "Kernel binary");
}

#[test]
fn lists_are_made_in_order_and_reversed() {
    let entries = || vec![service("a", None, None), service("b", None, None), service("c", None, None)];
    assert_eq!(names(&list_from_entries(entries())), vec!["a", "b", "c"]);
    assert_eq!(names(&list_from_entries_reversed(entries())), vec!["c", "b", "a"]);
    assert!(list_from_entries(Vec::new()).is_empty());
    assert!(list_from_entries_reversed(Vec::new()).is_empty());
}

fn info() -> RegistryInfo {
    let entries = vec![
        service("late", Some("Filter"), Some(1)),
        service("cng", Some("Core"), Some(2)),
        service("elam", Some("Early-Launch"), None),
        service("disk", Some("Boot Bus Extender"), Some(1)),
    ];
    RegistryInfo::new(
        entries,
        vec!["Boot Bus Extender".to_string(), "Core".to_string(), "Filter".to_string()],
    )
}

#[test]
fn every_pass_switched_on() {
    let request = NtLoadOrder::new()
        .kd_driver(Some("kdcom".to_string()))
        .cpu_vendor(Some("AuthenticAMD".to_string()));
    assert!(request.wants_imports());
    assert!(request.target_system_root().is_none());
    let list = request.arrange(info());
    assert_eq!(
        names(&list),
        vec!["ntoskrnl", "hal", "kdcom", "mcupdate", "cng", "elam", "disk", "late"]
    );
    let reasons: Vec<String> = list.iter().map(|e| e.reason.clone()).collect();
    assert_eq!(
        reasons[4],
        "Boot Driver, loaded earlier due to hardcoded \"Core Driver Services\" list"
    );
    assert_eq!(
        reasons[5],
        "Boot Driver, loaded earlier due to hardcoded \"Early-Launch\" group"
    );
}

#[test]
fn no_pass_switched_on_keeps_the_order_of_the_registry() {
    let request = NtLoadOrder::new()
        .sort_by_tag_and_group(false)
        .sort_by_hardcoded_groups(false)
        .sort_by_hardcoded_service_lists(false)
        .add_kernel_binaries(false)
        .add_imports(false)
        .system_root(Some("D:\\Windows".to_string()));
    assert!(!request.wants_imports());
    assert_eq!(request.target_system_root().as_deref(), Some("D:\\Windows"));
    let list = request.arrange(info());
    assert_eq!(names(&list), vec!["late", "cng", "elam", "disk"]);
}

#[test]
fn each_pass_is_switched_by_itself() {
    let off = || {
        NtLoadOrder::default()
            .sort_by_tag_and_group(false)
            .sort_by_hardcoded_groups(false)
            .sort_by_hardcoded_service_lists(false)
            .add_kernel_binaries(false)
    };
    let list = off().sort_by_tag_and_group(true).arrange(info());
    assert_eq!(names(&list), vec!["disk", "cng", "late", "elam"]);
    let list = off().sort_by_hardcoded_groups(true).arrange(info());
    assert_eq!(names(&list), vec!["elam", "late", "cng", "disk"]);
    let list = off().sort_by_hardcoded_service_lists(true).arrange(info());
    assert_eq!(names(&list), vec!["cng", "late", "elam", "disk"]);
    let list = off().add_kernel_binaries(true).arrange(info());
    assert_eq!(names(&list), vec!["ntoskrnl", "hal", "late", "cng", "elam", "disk"]);
    let list = off().clone().arrange(info());
    assert_eq!(names(&list), vec!["late", "cng", "elam", "disk"]);
}
