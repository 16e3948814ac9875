use std::collections::HashMap;

use dlv_list::VecList;
use nt_load_order::steps::add_imports::{
    ImageImports, ImportAnswer, ImportError, ImportHandler, ImportName, ImportRequest,
};
use nt_load_order::steps::load_from_registry::RegistryInfo;
use nt_load_order::steps::sort_by_tag_and_group::{
    compare_tags, sort_list_by_group, sort_list_by_tag, TagOrder,
};
use nt_load_order::steps::{move_each_to_front, EntryMatcher, PassRule};
use nt_load_order::{NtLoadOrderEntry, NtLoadOrderEntryGroup};

/// A small generator of numbers, the same on every run.
struct Numbers(u64);

impl Numbers {
    fn below(&mut self, n: u64) -> u64 {
        self.0 = self.0.wrapping_mul(6364136223846793005).wrapping_add(1442695040888963407);
        (self.0 >> 33) % n
    }
}

const GROUPS: [&str; 5] = ["Boot Bus Extender", "Filter", "Base", "Core", "Video"];

fn entries(numbers: &mut Numbers, n: usize) -> Vec<NtLoadOrderEntry> {
    (0..n)
        .map(|i| {
            let group = numbers.below(7) as usize;
            NtLoadOrderEntry {
                name: format!("s{i}"),
                image_path: format!("System32\\drivers\\s{i}.sys"),
                group: GROUPS.get(group).map(|g| NtLoadOrderEntryGroup {
                    display_name: g.to_string(),
                    search_key: g.to_ascii_lowercase(),
                }),
                tag: if numbers.below(3) == 0 { None } else { Some(numbers.below(6) as u32) },
                reason: "Boot Driver".to_string(),
                is_kernel_binary: false,
            }
        })
        .collect()
}

fn in_group(entry: &NtLoadOrderEntry, group: &str) -> bool {
    entry.group.as_ref().is_some_and(|g| g.search_key.eq_ignore_ascii_case(group))
}

fn names<'a>(entries: impl Iterator<Item = &'a NtLoadOrderEntry>) -> Vec<String> {
    entries.map(|e| e.name.clone()).collect()
}

#[test]
fn passes_group_any_list_by_any_keys() {
    let mut numbers = Numbers(1);
    for _ in 0..2000 {
        let n = numbers.below(10) as usize;
        let all = entries(&mut numbers, n);
        let mut keys: Vec<&str> = Vec::new();
        for group in GROUPS {
            if numbers.below(2) == 0 {
                keys.insert(numbers.below(keys.len() as u64 + 1) as usize, group);
            }
        }
        let mut expected: Vec<String> = Vec::new();
        for key in &keys {
            expected.extend(names(all.iter().filter(|e| in_group(e, key))));
        }
        expected.extend(names(all.iter().filter(|e| !keys.iter().any(|k| in_group(e, k)))));

        let mut list: VecList<NtLoadOrderEntry> = all.iter().cloned().collect();
        let order: Vec<String> = keys.iter().map(|k| k.to_string()).collect();
        sort_list_by_group(&mut list, &order);
        assert_eq!(names(list.iter()), expected);

        let mut list: VecList<NtLoadOrderEntry> = all.iter().cloned().collect();
        let rules: Vec<PassRule> = keys
            .iter()
            .map(|k| PassRule {
                matcher: EntryMatcher::GroupName(k.to_ascii_uppercase()),
                note: format!(" in {k}"),
            })
            .collect();
        move_each_to_front(&mut list, &rules);
        assert_eq!(names(list.iter()), expected);
        for entry in list.iter() {
            let key = keys.iter().find(|k| in_group(entry, k));
            match key {
                Some(key) => assert_eq!(entry.reason, format!("Boot Driver in {key}")),
                None => assert_eq!(entry.reason, "Boot Driver"),
            }
        }
    }
}

#[test]
fn the_tag_sort_orders_any_list_and_loses_nothing() {
    let mut numbers = Numbers(2);
    for _ in 0..2000 {
        let n = numbers.below(10) as usize;
        let all = entries(&mut numbers, n);
        let mut info = RegistryInfo::new(Vec::new(), Vec::new());
        for group in GROUPS.iter().take(numbers.below(4) as usize) {
            let tags: Vec<u32> = (0..numbers.below(5)).map(|_| numbers.below(6) as u32).collect();
            info.set_group_order(group, &tags);
        }
        // Each entry in turn stays behind the others, or goes in front of the first one
        // that it does not rank above.
        let mut expected: Vec<NtLoadOrderEntry> = Vec::new();
        for entry in &all {
            let below_last = expected
                .last()
                .is_some_and(|last| compare_tags(entry, last, &info.groups) == TagOrder::Less);
            if below_last {
                let place = expected
                    .iter()
                    .position(|e| compare_tags(e, entry, &info.groups) != TagOrder::Less)
                    .unwrap();
                expected.insert(place, entry.clone());
            } else {
                expected.push(entry.clone());
            }
        }
        let mut list: VecList<NtLoadOrderEntry> = all.iter().cloned().collect();
        sort_list_by_tag(&mut list, &info.groups);
        assert_eq!(names(list.iter()), names(expected.iter()));
        let sorted: Vec<&NtLoadOrderEntry> = list.iter().collect();
        for pair in sorted.windows(2) {
            assert!(compare_tags(pair[0], pair[1], &info.groups) != TagOrder::Greater);
        }
        let mut before = names(all.iter());
        let mut after = names(list.iter());
        before.sort();
        after.sort();
        assert_eq!(before, after);
    }
}

struct Disk {
    imports: HashMap<String, Vec<String>>,
}

impl Disk {
    fn run(&self, entries: Vec<NtLoadOrderEntry>) -> Result<Vec<NtLoadOrderEntry>, ImportError> {
        let mut handler = ImportHandler::new(entries.into_iter().collect());
        let mut answer = ImportAnswer::Go;
        for _ in 0..100_000 {
            let (next, request) = handler.advance(answer);
            handler = next;
            answer = match request {
                ImportRequest::Continue => ImportAnswer::Go,
                ImportRequest::ReadImage(path) => {
                    match self.imports.get(&path.to_ascii_lowercase()) {
                        Some(imports) => ImportAnswer::Imports(ImageImports::Names(
                            imports.iter().map(|name| ImportName::Use(name.clone())).collect(),
                        )),
                        None => ImportAnswer::Imports(ImageImports::Unreadable),
                    }
                }
                ImportRequest::Probe(path) => {
                    ImportAnswer::Exists(self.imports.contains_key(&path.to_ascii_lowercase()))
                }
                ImportRequest::Finished => return Ok(handler.into_entries()),
                ImportRequest::Failed(error) => return Err(error),
            };
        }
        panic!("the handler does not come to an end");
    }
}

#[test]
fn every_module_is_placed_once_and_behind_what_it_imports() {
    let files = ["a.dll", "b.dll", "c.sys", "d.sys", "e.dll", "f.sys"];
    let mut numbers = Numbers(3);
    let mut finished = 0;
    for _ in 0..2000 {
        let mut disk = Disk { imports: HashMap::new() };
        let mut paths = Vec::new();
        for file in files {
            let path = if numbers.below(2) == 0 {
                format!("System32\\drivers\\{file}")
            } else {
                format!("System32\\{file}")
            };
            let imports = (0..numbers.below(4))
                .map(|_| files[numbers.below(files.len() as u64) as usize].to_string())
                .collect();
            disk.imports.insert(path.to_ascii_lowercase(), imports);
            paths.push(path);
        }
        let kernel = numbers.below(3) as usize;
        let services: Vec<NtLoadOrderEntry> = (0..numbers.below(5) as usize)
            .map(|i| {
                let path = paths[numbers.below(paths.len() as u64) as usize].clone();
                NtLoadOrderEntry {
                    name: format!("e{i}"),
                    image_path: if numbers.below(3) == 0 { path.to_ascii_uppercase() } else { path },
                    group: None,
                    tag: None,
                    reason: "Boot Driver".to_string(),
                    is_kernel_binary: i < kernel,
                }
            })
            .collect();
        let seeded = services.iter().take_while(|e| e.is_kernel_binary).count();
        let out = disk.run(services.clone()).unwrap();
        finished += 1;

        // The kernel binaries at the front keep their places.
        assert_eq!(names(out.iter().take(seeded)), names(services.iter().take(seeded)));
        // Behind them no image path stands twice, and none of theirs.
        let lowered: Vec<String> = out.iter().map(|e| e.image_path.to_ascii_lowercase()).collect();
        for j in seeded..out.len() {
            for i in 0..j {
                assert_ne!(lowered[i], lowered[j]);
            }
        }
        // Every entry and every import of a placed module is placed.
        for service in &services {
            assert!(lowered.contains(&service.image_path.to_ascii_lowercase()));
        }
        let place = |path: &str| lowered.iter().position(|p| p == path).unwrap();
        for (j, entry) in out.iter().enumerate() {
            if let Some(importer) = entry.reason.strip_prefix("Import of \"") {
                let importer = importer.strip_suffix('"').unwrap().to_ascii_lowercase();
                let is_top_level = out[place(&importer)].reason == "Boot Driver";
                // An import stands behind the entry that pulled it in where that is a
                // service or a kernel binary, and in front of it where that is an import.
                assert_eq!(place(&importer) < j, is_top_level);
                assert!(!entry.is_kernel_binary);
            }
            for import in &disk.imports[&lowered[j]] {
                assert!(lowered.iter().any(|p| p.ends_with(&format!("\\{import}"))));
            }
        }
    }
    assert_eq!(finished, 2000);
}
