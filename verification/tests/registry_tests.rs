use offset_dumper::baseline::{count_reference, reference_offsets, register_all};
use offset_dumper::registry::Dumper;
use offset_dumper::writer::{build_header, get_val, render, total_offsets, Style};

fn names_of(d: &Dumper) -> Vec<String> {
    d.namespaces().iter().map(|n| n.name.clone()).collect()
}

#[test]
fn new_registry_is_empty() {
    let d = Dumper::new();
    assert!(d.namespaces().is_empty());
    assert_eq!(d.get_offset("Instance", "Name"), None);
    assert_eq!(d.get_value("Instance", "Name"), None);
}

#[test]
fn offset_reads_back_after_add() {
    let mut d = Dumper::new();
    d.add_offset("Instance", "Name", 0x78);
    assert_eq!(d.get_offset("Instance", "Name"), Some(0x78));
    assert_eq!(d.get_offset("Instance", "Parent"), None);
    assert_eq!(d.get_offset("Other", "Name"), None);
}

#[test]
fn second_add_replaces_in_place() {
    let mut d = Dumper::new();
    d.add_offset("Player", "UserId", 0x10);
    d.add_offset("Player", "Team", 0x20);
    d.add_offset("Player", "UserId", 0x30);
    assert_eq!(d.get_offset("Player", "UserId"), Some(0x30));
    let ns = &d.namespaces()[0];
    assert_eq!(ns.entries.len(), 2);
    assert_eq!(ns.entries[0].name, "UserId");
    assert_eq!(ns.entries[0].offset, 0x30);
    assert_eq!(ns.entries[1].name, "Team");
}

#[test]
fn namespaces_kept_in_name_order() {
    let mut d = Dumper::new();
    d.add_offset("Workspace", "Camera", 1);
    d.add_offset("Attachment", "Position", 2);
    d.add_offset("Humanoid", "Health", 3);
    d.add_offset("Attachment", "Axis", 4);
    assert_eq!(names_of(&d), vec!["Attachment", "Humanoid", "Workspace"]);
}

#[test]
fn adding_leaves_other_offsets_alone() {
    let mut d = Dumper::new();
    d.add_offset("A", "x", 1);
    d.add_offset("B", "x", 2);
    d.add_offset("A", "y", 3);
    assert_eq!(d.get_offset("A", "x"), Some(1));
    assert_eq!(d.get_offset("B", "x"), Some(2));
    assert_eq!(d.get_offset("A", "y"), Some(3));
}

#[test]
fn offset_with_value_keeps_both() {
    let mut d = Dumper::new();
    d.add_offset_val("DataModel", "PlaceId", 0x180, 1818);
    assert_eq!(d.get_offset("DataModel", "PlaceId"), Some(0x180));
    assert_eq!(d.get_value("DataModel", "PlaceId"), Some(1818));
    assert_eq!(d.get_value("DataModel", "GameId"), None);
    d.add_offset_val("DataModel", "PlaceId", 0x188, 42);
    assert_eq!(d.get_offset("DataModel", "PlaceId"), Some(0x188));
    assert_eq!(d.get_value("DataModel", "PlaceId"), Some(42));
}

#[test]
fn value_key_joins_with_double_colon() {
    let mut d = Dumper::new();
    d.add_offset_val("A::B", "c", 1, 5);
    assert_eq!(d.get_value("A", "B::c"), Some(5));
}

#[test]
fn header_text_is_exact() {
    let h = build_header(3, 12);
    assert_eq!(
        h,
        "// ===========================\n// Turners Dumper\n// Discord @grfq\n// ===========================\n// 3 offsets in 12ms\n// auto-generated, do not edit\n//\n\n"
    );
    let h0 = build_header(0, 0);
    assert!(h0.contains("// 0 offsets in 0ms\n"));
}

#[test]
fn value_suffix_only_when_kept() {
    let mut d = Dumper::new();
    d.add_offset_val("Camera", "Fov", 0x160, 70);
    d.add_offset("Camera", "CFrame", 0xF0);
    assert_eq!(get_val(&d, "Camera", "Fov"), " # 70");
    assert_eq!(get_val(&d, "Camera", "CFrame"), "");
}

fn sample() -> Dumper {
    let mut d = Dumper::new();
    d.add_offset_val("B", "x", 0x1F, 7);
    d.add_offset("A", "y", 0x0);
    d.add_offset("A", "z", 0xABC);
    d
}

#[test]
fn rust_output_is_exact() {
    let d = sample();
    let s = render(&d, "H\n", Style::Rust);
    assert_eq!(
        s,
        "H\npub mod A {\n    pub const y: usize = 0x0;\n    pub const z: usize = 0xABC;\n}\n\npub mod B {\n    pub const x: usize = 0x1F; # 7\n}\n\n"
    );
}

#[test]
fn cpp_output_is_exact() {
    let d = sample();
    let s = render(&d, "H\n", Style::Cpp);
    assert_eq!(
        s,
        "H\n#include <cstdint>\n\nnamespace offsets {\n    // A\n    constexpr std::uintptr_t y = 0x0;\n    constexpr std::uintptr_t z = 0xABC;\n\n    // B\n    constexpr std::uintptr_t x = 0x1F; # 7\n\n} // namespace offsets\n"
    );
}

#[test]
fn python_output_is_exact() {
    let d = sample();
    let s = render(&d, "H\n", Style::Python);
    assert_eq!(
        s,
        "H\n\"\"\"\nTurners Dumper\nDiscord @grfq\n\nauto-generated, do not edit\n\"\"\"\n\n# A\ny = 0x0\nz = 0xABC\n\n# B\nx = 0x1F # 7\n\n"
    );
}

#[test]
fn empty_registry_renders_frame_only() {
    let d = Dumper::new();
    assert_eq!(render(&d, "", Style::Rust), "");
    assert_eq!(render(&d, "", Style::Cpp), "#include <cstdint>\n\nnamespace offsets {\n} // namespace offsets\n");
}

#[test]
fn total_counts_every_entry() {
    let d = sample();
    assert_eq!(total_offsets(&d), 3);
    assert_eq!(total_offsets(&Dumper::new()), 0);
}

#[test]
fn baseline_registers_reference_table() {
    let mut d = Dumper::new();
    register_all(&mut d);
    assert_eq!(d.get_offset("BasePart", "CastShadow"), Some(0xED));
    assert_eq!(d.get_offset("BasePart", "Primitive"), Some(0x138));
    assert_eq!(d.get_offset("Atmosphere", "Color"), Some(0xD0));
    assert_eq!(d.get_offset("Camera", "Position"), Some(0x114));
    let refs = reference_offsets();
    assert_eq!(total_offsets(&d), refs.len());
    for (ns, name, off) in refs.iter() {
        assert_eq!(d.get_offset(ns, name), Some(*off));
    }
}

#[test]
fn baseline_list_has_105_entries() {
    assert_eq!(reference_offsets().len(), 105);
}

#[test]
fn announced_reference_count() {
    assert_eq!(count_reference(), 105);
    assert_eq!(count_reference(), reference_offsets().len());
}

#[test]
fn baseline_then_stage_override() {
    let mut d = Dumper::new();
    register_all(&mut d);
    let before = total_offsets(&d);
    d.add_offset("BasePart", "CastShadow", 0x99);
    assert_eq!(d.get_offset("BasePart", "CastShadow"), Some(0x99));
    assert_eq!(total_offsets(&d), before);
}

#[test]
fn every_reference_row_is_found_after_registration() {
    let mut d = Dumper::new();
    d.add_offset("Camera", "Position", 0x1);
    d.add_offset("Custom", "Field", 0x2);
    register_all(&mut d);
    for (ns, name, off) in reference_offsets() {
        assert_eq!(d.get_offset(ns, name), Some(off));
    }
    assert_eq!(d.get_offset("Custom", "Field"), Some(0x2));
    assert_eq!(total_offsets(&d), reference_offsets().len() + 1);
}

#[test]
fn registering_the_baseline_twice_changes_nothing() {
    let mut d = Dumper::new();
    register_all(&mut d);
    let once: Vec<(String, usize)> = reference_offsets().iter().map(|(n, m, _)| (format!("{}::{}", n, m), d.get_offset(n, m).unwrap())).collect();
    let count = total_offsets(&d);
    register_all(&mut d);
    assert_eq!(total_offsets(&d), count);
    for (key, off) in once {
        let mut parts = key.split("::");
        let (n, m) = (parts.next().unwrap(), parts.next().unwrap());
        assert_eq!(d.get_offset(n, m), Some(off));
    }
}
