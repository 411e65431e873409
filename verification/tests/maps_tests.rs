use offset_dumper::maps::{
    is_module_candidate, parse_hex_range, parse_maps_line, perms_match, section_bounds, select_module_base, MapsLine,
    MemRegion,
};

fn region(start: usize, end: usize, perms: &str, path: &str) -> MemRegion {
    MemRegion { start, end, perms: perms.to_string(), path: path.to_string() }
}

#[test]
fn parses_a_full_line() {
    let l = parse_maps_line("7f0000000000-7f0000100000 r-xp 00000000 08:01 1234    /memfd:roblox (deleted)").unwrap();
    assert_eq!(l.region.start, 0x7f0000000000);
    assert_eq!(l.region.end, 0x7f0000100000);
    assert_eq!(l.region.perms, "r-xp");
    assert_eq!(l.region.path, "   /memfd:roblox (deleted)");
    assert_eq!(l.offset, Some(0));
}

#[test]
fn parses_a_line_without_path() {
    let l = parse_maps_line("1000-2000 rw-p 0001a000 00:00 0").unwrap();
    assert_eq!(l.region.start, 0x1000);
    assert_eq!(l.region.end, 0x2000);
    assert_eq!(l.region.perms, "rw-p");
    assert_eq!(l.region.path, "");
    assert_eq!(l.offset, Some(0x1a000));
}

#[test]
fn rejects_malformed_lines() {
    assert!(parse_maps_line("1000-2000 rw-p 0 0").is_none());
    assert!(parse_maps_line("10002000 rw-p 0 0 0").is_none());
    assert!(parse_maps_line("zz-2000 rw-p 0 0 0").is_none());
    assert!(parse_maps_line("1000- rw-p 0 0 0").is_none());
    assert!(parse_maps_line("").is_none());
}

#[test]
fn offset_field_may_fail_alone() {
    let l = parse_maps_line("1000-2000 rw-p xyz 00:00 0").unwrap();
    assert_eq!(l.offset, None);
}

#[test]
fn hex_fields() {
    let b = b"ff-1A2b";
    assert_eq!(parse_hex_range(b, 0, 2), Some(0xff));
    assert_eq!(parse_hex_range(b, 3, 7), Some(0x1a2b));
    assert_eq!(parse_hex_range(b, 2, 3), None);
    assert_eq!(parse_hex_range(b, 0, 0), None);
    assert_eq!(parse_hex_range(b"+f", 0, 2), Some(0xf));
    assert_eq!(parse_hex_range(b"fffffffffffffffff", 0, 17), None);
}

#[test]
fn section_permissions() {
    assert!(perms_match(".data", "rw-p"));
    assert!(perms_match(".data", "r--p"));
    assert!(!perms_match(".data", "r-xp"));
    assert!(perms_match(".rdata", "r--p"));
    assert!(perms_match(".rodata", "r--p"));
    assert!(!perms_match(".rodata", "rw-p"));
    assert!(perms_match(".text", "r-xp"));
    assert!(!perms_match(".bss", "rw-p"));
}

#[test]
fn section_merges_neighbouring_maps() {
    let base = 0x7f00_0000_0000usize;
    let rs = vec![
        region(base + 0x9000, base + 0xA000, "r--p", ""),
        region(base + 0x2000, base + 0x3000, "r--p", ""),
        region(base + 0x1000, base + 0x2000, "r--p", ""),
        region(base + 0x500, base + 0x800, "rw-p", ""),
        region(base - 0x1000, base, "r--p", ""),
        region(base + 0x1000_0000, base + 0x1000_1000, "r--p", ""),
    ];
    assert_eq!(section_bounds(&rs, base, ".rdata"), Some((base + 0x1000, 0x9000)));
    assert_eq!(section_bounds(&rs, base, ".data"), Some((base + 0x500, 0x9B00)));
    assert_eq!(section_bounds(&rs, base, ".text"), None);
    assert_eq!(section_bounds(&rs, 0, ".rdata"), None);
}

#[test]
fn module_candidates() {
    let big = 60 * 1024 * 1024;
    assert!(is_module_candidate(&region(0x10000, 0x10000 + big, "r-xp", "/memfd:x (deleted)")));
    assert!(is_module_candidate(&region(0x10000, 0x10000 + big, "r-xp", "/memfd:x")));
    assert!(!is_module_candidate(&region(0x10000, 0x10000 + big, "r--p", "/memfd:x")));
    assert!(!is_module_candidate(&region(0x10000, 0x20000, "r-xp", "/memfd:x")));
    assert!(!is_module_candidate(&region(0x10000, 0x10000 + big, "r-xp", "/usr/lib/libc.so")));
}

#[test]
fn module_base_choice() {
    let big = 60 * 1024 * 1024;
    let a = 0x7f00_0000_0000usize;
    let b = 0x7e00_0000_0000usize;
    let first = vec![
        region(0x1000, 0x2000, "r--p", "/lib/x"),
        region(a, a + big, "r-xp", "/memfd:a (deleted)"),
        region(b, b + big, "r-xp", "/memfd:b (deleted)"),
    ];
    assert_eq!(select_module_base(&first, None), Some(b));
    let second = vec![
        MapsLine { region: region(b, b + big, "r-xp", "/memfd:b (deleted)"), offset: Some(0x1000) },
        MapsLine { region: region(a, a + big, "r-xp", "/memfd:a (deleted)"), offset: Some(0) },
    ];
    assert_eq!(select_module_base(&first, Some(&second)), Some(a));
    let none_zero = vec![MapsLine { region: region(a, a + big, "r-xp", "/memfd:a"), offset: Some(0x2000) }];
    assert_eq!(select_module_base(&first, Some(&none_zero)), Some(b));
    assert_eq!(select_module_base(&vec![region(0x1000, 0x2000, "r-xp", "/memfd:a")], None), None);
}
