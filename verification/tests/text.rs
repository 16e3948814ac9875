use nt_load_order::text::{
    decimal_text, digit_text, ends_with, format_option, format_tag, joined, starts_with,
};

#[test]
fn numbers_are_written_in_decimal() {
    assert_eq!(decimal_text(0), "0");
    assert_eq!(decimal_text(7), "7");
    assert_eq!(decimal_text(10), "10");
    assert_eq!(decimal_text(1203), "1203");
    assert_eq!(decimal_text(4_294_967_295), "4294967295");
    for n in [9u32, 99, 100, 101, 65_535, 1_000_000] {
        assert_eq!(decimal_text(n), n.to_string());
    }
    for d in 0..10u32 {
        assert_eq!(digit_text(d), d.to_string());
    }
}

#[test]
fn prefixes_and_suffixes_are_told() {
    assert!(ends_with("kernel32.dll", ".dll"));
    assert!(!ends_with("kernel32.DLL", ".dll"));
    assert!(!ends_with("dll", ".dll"));
    assert!(ends_with(".dll", ".dll"));
    assert!(ends_with("anything", ""));
    assert!(starts_with("api-ms-win", "api-"));
    assert!(!starts_with("API-ms-win", "api-"));
    assert!(!starts_with("api", "api-"));
    assert!(starts_with("", ""));
    assert!(ends_with("grüße.dll", ".dll"));
    assert!(starts_with("äpi-x", "äpi-"));
}

#[test]
fn texts_are_joined() {
    assert_eq!(joined("System32\\", "hal.dll"), "System32\\hal.dll");
    assert_eq!(joined("", ""), "");
}

#[test]
fn what_is_absent_is_shown_as_none() {
    assert_eq!(format_option(Some("Boot Bus Extender")), "Boot Bus Extender");
    assert_eq!(format_option(Some("")), "");
    assert_eq!(format_option(None), "<none>");
    assert_eq!(format_tag(Some(0)), "0");
    assert_eq!(format_tag(Some(33)), "33");
    assert_eq!(format_tag(None), "<none>");
}
