use nt_load_order::steps::add_imports::{
    check_schema, patch_dll_name, read_imports, ImageImports, ImportError, ImportName,
};

fn put16(bytes: &mut [u8], at: usize, value: u16) {
    bytes[at..at + 2].copy_from_slice(&value.to_le_bytes());
}

fn put32(bytes: &mut [u8], at: usize, value: u32) {
    bytes[at..at + 4].copy_from_slice(&value.to_le_bytes());
}

fn put_text(bytes: &mut [u8], at: usize, text: &str) {
    bytes[at..at + text.len()].copy_from_slice(text.as_bytes());
}

/// The bytes of an API Set schema: every name with the modules it is redirected to.
fn schema_section(entries: &[(&str, &[&str])]) -> Vec<u8> {
    const FACTOR: u32 = 31;
    let wide = |text: &str| -> Vec<u8> { text.encode_utf16().flat_map(|u| u.to_le_bytes()).collect() };
    let count = entries.len();
    let names_at = 28;
    let hashes_at = names_at + 24 * count;
    let mut section = vec![0u8; hashes_at + 8 * count];
    put32(&mut section, 0, 6);
    put32(&mut section, 12, count as u32);
    put32(&mut section, 16, names_at as u32);
    put32(&mut section, 20, hashes_at as u32);
    put32(&mut section, 24, FACTOR);

    let mut hashes: Vec<(u32, u32)> = Vec::new();
    for (i, (name, targets)) in entries.iter().enumerate() {
        let name_at = section.len();
        section.extend(wide(name));
        let values_at = section.len();
        section.extend(vec![0u8; 20 * targets.len()]);
        for (j, target) in targets.iter().enumerate() {
            let target_at = section.len();
            section.extend(wide(target));
            put32(&mut section, values_at + 20 * j + 12, target_at as u32);
            put32(&mut section, values_at + 20 * j + 16, 2 * target.encode_utf16().count() as u32);
        }
        let entry_at = names_at + 24 * i;
        put32(&mut section, entry_at + 4, name_at as u32);
        put32(&mut section, entry_at + 8, 2 * name.len() as u32);
        put32(&mut section, entry_at + 16, values_at as u32);
        put32(&mut section, entry_at + 20, targets.len() as u32);
        let hashed = name.rsplit_once('-').unwrap().0;
        let hash = hashed.chars().fold(0u32, |h, c| h.wrapping_mul(FACTOR).wrapping_add(c as u32));
        hashes.push((hash, i as u32));
    }
    hashes.sort();
    for (i, (hash, index)) in hashes.iter().enumerate() {
        put32(&mut section, hashes_at + 8 * i, *hash);
        put32(&mut section, hashes_at + 8 * i + 4, *index);
    }
    let size = section.len() as u32;
    put32(&mut section, 4, size);
    section
}

/// The bytes of a 64-bit image that imports the given modules and holds the given schema.
fn image_bytes(imports: Option<&[&str]>, schema: Option<&[u8]>) -> Vec<u8> {
    const HEADERS: usize = 0x200;
    const IMPORTS_AT: usize = 0x200;
    const SCHEMA_AT: usize = 0x800;
    let schema_size = schema.map_or(0, |s| s.len().next_multiple_of(0x200));
    let mut bytes = vec![0u8; SCHEMA_AT + schema_size];
    put16(&mut bytes, 0, 0x5a4d);
    put32(&mut bytes, 0x3c, 0x40);
    put32(&mut bytes, 0x40, 0x0000_4550);
    put16(&mut bytes, 0x44, 0x8664);
    put16(&mut bytes, 0x46, 2);
    put16(&mut bytes, 0x54, 240);
    put16(&mut bytes, 0x56, 0x2022);
    let optional = 0x58;
    put16(&mut bytes, optional, 0x20b);
    put32(&mut bytes, optional + 24, 0x4000_0000);
    put32(&mut bytes, optional + 28, 1);
    put32(&mut bytes, optional + 32, 0x1000);
    put32(&mut bytes, optional + 36, 0x200);
    put32(&mut bytes, optional + 56, 0x10000);
    put32(&mut bytes, optional + 60, HEADERS as u32);
    put32(&mut bytes, optional + 108, 16);
    if imports.is_some() {
        put32(&mut bytes, optional + 112 + 8, 0x1000);
        put32(&mut bytes, optional + 112 + 12, 0x600);
    }
    let sections = 0x148;
    put_text(&mut bytes, sections, ".idata");
    put32(&mut bytes, sections + 8, 0x600);
    put32(&mut bytes, sections + 12, 0x1000);
    put32(&mut bytes, sections + 16, 0x600);
    put32(&mut bytes, sections + 20, IMPORTS_AT as u32);
    put_text(&mut bytes, sections + 40, if schema.is_some() { ".apiset" } else { ".other" });
    put32(&mut bytes, sections + 48, schema_size.max(0x200) as u32);
    put32(&mut bytes, sections + 52, 0x2000);
    put32(&mut bytes, sections + 56, schema_size as u32);
    put32(&mut bytes, sections + 60, SCHEMA_AT as u32);

    if let Some(imports) = imports {
        let mut text_at = 20 * (imports.len() + 1);
        for (i, name) in imports.iter().enumerate() {
            put32(&mut bytes, IMPORTS_AT + 20 * i + 12, 0x1000 + text_at as u32);
            put32(&mut bytes, IMPORTS_AT + 20 * i + 16, 0x1500);
            put_text(&mut bytes, IMPORTS_AT + text_at, name);
            text_at += name.len() + 1;
        }
        assert!(text_at < 0x500);
    }
    if let Some(schema) = schema {
        bytes[SCHEMA_AT..SCHEMA_AT + schema.len()].copy_from_slice(schema);
    }
    bytes
}

/// The bytes at a place in memory where images are read from: one that four divides.
struct Aligned {
    room: Vec<u8>,
    from: usize,
    len: usize,
}

impl Aligned {
    fn new(bytes: &[u8]) -> Aligned {
        let mut room = vec![0u8; bytes.len() + 4];
        let from = (4 - room.as_ptr() as usize % 4) % 4;
        room[from..from + bytes.len()].copy_from_slice(bytes);
        Aligned { room, from, len: bytes.len() }
    }

    fn bytes(&self) -> &[u8] {
        &self.room[self.from..self.from + self.len]
    }
}

fn schema() -> Aligned {
    let section = schema_section(&[
        ("api-ms-win-core-file-l1-1-0", &["kernelbase.dll"]),
        ("api-ms-win-core-none-l1-1-0", &[]),
        ("ext-ms-win-empty-l1-1-0", &[""]),
        ("api-ms-win-two-l1-1-0", &["first.dll", "second.dll"]),
    ]);
    Aligned::new(&image_bytes(None, Some(&section)))
}

fn told(imports: ImageImports) -> Vec<String> {
    match imports {
        ImageImports::Unreadable => vec!["unreadable".to_string()],
        ImageImports::Names(names) => names
            .into_iter()
            .map(|name| match name {
                ImportName::Use(name) => name,
                ImportName::Skip => "-".to_string(),
                ImportName::Fail(error) => format!("{error:?}"),
            })
            .collect(),
    }
}

#[test]
fn the_imports_of_an_image_are_read_in_their_order() {
    let schema = schema();
    let names = ["ntoskrnl.exe", "HAL.dll", "b.sys", "a.dll"];
    let image = Aligned::new(&image_bytes(Some(&names), None));
    assert_eq!(told(read_imports(image.bytes(), schema.bytes())), names);
}

#[test]
fn api_sets_are_replaced_or_passed_over() {
    let schema = schema();
    let image = Aligned::new(&image_bytes(
        Some(&[
            "hal.dll",
            "api-ms-win-core-file-l1-1-0.dll",
            "api-ms-win-core-none-l1-1-0.dll",
            "ext-ms-win-empty-l1-1-0.dll",
            "api-ms-win-core-foo-l1-1-0.dll",
            "api-ms-win-two-l1-1-0.dll",
            "API-MS-WIN-CORE-FILE-L1-1-0.DLL",
            "api-ms-win-core-file-l1-1-0.DLL",
            "api-MS-win-core-file-l1-1-0.dll",
        ]),
        None,
    ));
    assert_eq!(
        told(read_imports(image.bytes(), schema.bytes())),
        vec![
            "hal.dll",
            "kernelbase.dll",
            "-",
            "-",
            "-",
            "first.dll",
            "API-MS-WIN-CORE-FILE-L1-1-0.DLL",
            "api-ms-win-core-file-l1-1-0.DLL",
            "-"
        ]
    );
    let file = "api-ms-win-core-file-l1-1-0.dll".to_string();
    assert!(matches!(patch_dll_name(file, schema.bytes()), Ok(Some(ref n)) if n == "kernelbase.dll"));
    let foo = "api-ms-win-core-foo-l1-1-0.dll".to_string();
    assert!(matches!(patch_dll_name(foo, schema.bytes()), Ok(None)));
}

#[test]
fn an_image_without_imports_has_none() {
    let schema = schema();
    let image = Aligned::new(&image_bytes(None, None));
    assert_eq!(told(read_imports(image.bytes(), schema.bytes())), Vec::<String>::new());
    let image = Aligned::new(&image_bytes(Some(&[]), None));
    assert_eq!(told(read_imports(image.bytes(), schema.bytes())), Vec::<String>::new());
}

#[test]
fn what_is_no_image_cannot_be_read() {
    let schema = schema();
    let mut bytes = image_bytes(Some(&["hal.dll"]), None);
    bytes[0] = b'X';
    let broken = Aligned::new(&bytes);
    assert_eq!(told(read_imports(broken.bytes(), schema.bytes())), vec!["unreadable"]);
    let mut bytes = image_bytes(Some(&["hal.dll"]), None);
    put16(&mut bytes, 0x58, 0x10b);
    let narrow = Aligned::new(&bytes);
    assert_eq!(told(read_imports(narrow.bytes(), schema.bytes())), vec!["unreadable"]);
}

#[test]
fn a_schema_is_an_image_with_an_api_set_section() {
    assert_eq!(check_schema(schema().bytes()), Ok(()));
    let plain = Aligned::new(&image_bytes(Some(&["hal.dll"]), None));
    assert_eq!(check_schema(plain.bytes()), Err(ImportError::SchemaNotLoaded));
    let mut section = schema_section(&[("api-ms-win-core-file-l1-1-0", &["kernelbase.dll"])]);
    put32(&mut section, 0, 4);
    let old = Aligned::new(&image_bytes(None, Some(&section)));
    assert_eq!(check_schema(old.bytes()), Err(ImportError::SchemaNotLoaded));
    let api = "api-ms-win-core-file-l1-1-0.dll".to_string();
    assert!(matches!(patch_dll_name(api, plain.bytes()), Err(ImportError::ApiSetNotRead)));
}

#[test]
fn a_redirection_that_lies_outside_the_schema_fails() {
    let mut section = schema_section(&[("api-ms-win-core-file-l1-1-0", &["kernelbase.dll"])]);
    let values_at = u32::from_le_bytes(section[28 + 16..28 + 20].try_into().unwrap()) as usize;
    put32(&mut section, values_at + 12, 0x7fff_0000);
    let schema = Aligned::new(&image_bytes(None, Some(&section)));
    let api = "api-ms-win-core-file-l1-1-0.dll".to_string();
    assert!(matches!(patch_dll_name(api, schema.bytes()), Err(ImportError::ApiSetNotRead)));
    let image = Aligned::new(&image_bytes(Some(&["api-ms-win-core-file-l1-1-0.dll", "hal.dll"]), None));
    assert_eq!(
        told(read_imports(image.bytes(), schema.bytes())),
        vec!["ApiSetNotRead", "hal.dll"]
    );
}
