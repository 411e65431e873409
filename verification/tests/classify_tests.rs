use offset_dumper::classify::{
    class_stem, count_char, has_char, is_asset_reference, is_basic_part_class, is_body_part_class,
    is_celestial_class, is_client_ticket, is_display_name, is_inline_display_name, is_job_id, is_object_name,
    is_part_class, is_part_holder_class, is_script_runtime_class, is_server_address, is_short_text, is_sky_texture, is_sound_id,
};

#[test]
fn stems_cut_at_first_at_sign() {
    assert_eq!(class_stem("Humanoid@RBX"), "Humanoid");
    assert_eq!(class_stem("VisualEngine@Graphics@RBX"), "VisualEngine");
    assert_eq!(class_stem("Plain"), "Plain");
    assert_eq!(class_stem("@RBX"), "");
    assert_eq!(class_stem(""), "");
}

#[test]
fn part_class_lists() {
    assert!(is_part_class("Part@RBX"));
    assert!(is_part_class("SkateboardPlatform@RBX"));
    assert!(is_part_class("Seat@RBX"));
    assert!(!is_part_class("MeshPart@RBX"));
    assert!(is_basic_part_class("TrussPart@RBX"));
    assert!(!is_basic_part_class("Seat@RBX"));
}

#[test]
fn job_ids() {
    assert!(is_job_id("0f1e2d3c-4b5a-6978-8a9b-0c1d2e3f4a5b"));
    assert!(!is_job_id("0f1e2d3c-4b5a-6978-8a9b-0c1d2e3f4a5"));
    assert!(!is_job_id("0f1e2d3c 4b5a-6978-8a9b-0c1d2e3f4a5b"));
}

#[test]
fn server_addresses() {
    assert!(is_server_address("128.116.1.2:55123"));
    assert!(!is_server_address("128.116.1.2"));
    assert!(!is_server_address("localhost:80"));
    assert_eq!(count_char("a.b.c.d", '.'), 3);
    assert!(has_char("x:y", ':'));
    assert!(!has_char("", ':'));
}

#[test]
fn display_names() {
    assert!(is_display_name("Builderman"));
    assert!(!is_display_name("x"));
    assert!(!is_display_name("name@host"));
    assert!(!is_display_name("abcdefghijklmnopqrstuvwxyz12345"));
    assert!(is_display_name("abcdefghijklmnopqrstuvwxyz1234"));
    assert!(is_inline_display_name("Builderman"));
    assert!(!is_inline_display_name("Player"));
    assert!(is_display_name("Player"));
}

#[test]
fn asset_references() {
    assert!(is_asset_reference("rbxassetid://123"));
    assert!(is_asset_reference("https://example.com/a"));
    assert!(!is_asset_reference("asset"));
    assert!(is_sound_id("rbxasset://sounds/x.ogg"));
    assert!(!is_sound_id("rbxassetid://1"));
    assert!(is_sky_texture("rbxasset://sky/x.tex"));
    assert!(is_sky_texture("textures/Skybox_up.png"));
    assert!(is_sky_texture("my_skybox"));
    assert!(!is_sky_texture("rbxassetid://1"));
}

#[test]
fn short_texts() {
    assert!(is_short_text("Heartbeat", 64));
    assert!(!is_short_text("", 64));
    assert!(!is_short_text("abc", 3));
    assert!(is_short_text("ab", 3));
}

#[test]
fn client_tickets() {
    assert!(is_client_ticket("abcdefghijklmnopqrstuvwxyz-01234"));
    assert!(is_client_ticket("abcdefghijklmnopqrstuvwxyz_01234"));
    assert!(!is_client_ticket("abcdefghijklmnopqrstuvwxyz001234"));
    assert!(!is_client_ticket("short-ticket"));
}

#[test]
fn class_name_groups() {
    assert!(is_script_runtime_class("ScriptContext@RBX"));
    assert!(is_script_runtime_class("LuaVm@RBX"));
    assert!(is_script_runtime_class("ExecutionContext@RBX"));
    assert!(!is_script_runtime_class("Workspace@RBX"));
    assert!(is_celestial_class("CelestialBody@RBX"));
    assert!(is_celestial_class("SunRays@RBX"));
    assert!(!is_celestial_class("Moon@RBX"));
    assert!(is_body_part_class("MeshPart@RBX"));
    assert!(is_body_part_class("BasePart@RBX"));
    assert!(!is_body_part_class("Humanoid@RBX"));
}

#[test]
fn object_names() {
    assert!(is_object_name("Head"));
    assert!(!is_object_name("H"));
    assert!(!is_object_name("--"));
    assert!(is_object_name("-a"));
    assert!(!is_object_name(&"x".repeat(100)));
    assert!(is_object_name(&"x".repeat(99)));
}

#[test]
fn part_holders_by_primitive_or_by_name() {
    assert!(is_part_holder_class("Primitive@RBX", false));
    assert!(!is_part_holder_class("Seat@RBX", false));
    assert!(is_part_holder_class("Seat@RBX", true));
    assert!(is_part_holder_class("MeshPart@RBX", true));
    assert!(!is_part_holder_class("Humanoid@RBX", true));
}
