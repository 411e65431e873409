use std::collections::HashMap;

use offset_dumper::lists::{ListCheck, ListProbe};
use offset_dumper::memory::{Progress, ReadRequest};
use offset_dumper::slots::{accepts, ClassRule, DescriptorScan, NameSlotScan, TypedCollect};

struct Mem {
    b: HashMap<u64, u8>,
}

impl Mem {
    fn new() -> Mem {
        Mem { b: HashMap::new() }
    }
    fn put(&mut self, a: u64, bytes: &[u8]) {
        for (i, x) in bytes.iter().enumerate() {
            self.b.insert(a + i as u64, *x);
        }
    }
    fn word(&mut self, a: u64, v: u64) {
        self.put(a, &v.to_le_bytes());
    }
    fn zeros(&mut self, a: u64, n: usize) {
        self.put(a, &vec![0u8; n]);
    }
    fn read(&self, q: ReadRequest) -> Option<Vec<u8>> {
        (0..q.len).map(|i| self.b.get(&q.addr.wrapping_add(i as u64)).copied()).collect()
    }
    fn typed(&mut self, obj: u64, slot: u64, mangled: &str) {
        let vt = slot + 0x100;
        let ti = slot + 0x200;
        let np = slot + 0x300;
        self.word(obj, vt);
        self.word(vt - 8, ti);
        self.word(ti + 8, np);
        let mut buf = mangled.as_bytes().to_vec();
        buf.resize(256, 0);
        self.put(np, &buf);
    }
}

fn list_search(m: &Mem, mode: ListCheck, addr: u64, parent_off: usize) -> Option<(usize, usize)> {
    let (mut p, mut step) = ListProbe::start(mode, addr, parent_off);
    loop {
        match step {
            Progress::Read(q) => step = p.resume(m.read(q)),
            Progress::Done(r) => return r,
        }
    }
}

fn name_slot(m: &Mem, addr: u64, target: &str, limit: usize, strict: bool) -> Option<usize> {
    let (mut s, mut step) = NameSlotScan::start(addr, target, limit, strict);
    loop {
        match step {
            Progress::Read(q) => step = s.resume(m.read(q)),
            Progress::Done(r) => return r,
        }
    }
}

fn descriptor(m: &Mem, addr: u64) -> Option<usize> {
    let (mut s, mut q) = DescriptorScan::start(addr);
    loop {
        match s.resume(m.read(q)) {
            Progress::Read(n) => q = n,
            Progress::Done(r) => return r,
        }
    }
}

fn collect(m: &Mem, addr: u64, rule: ClassRule, limit: usize, max: usize) -> Vec<u64> {
    let (mut c, mut step) = TypedCollect::start(addr, rule, limit, max);
    loop {
        match step {
            Progress::Read(q) => step = c.resume(m.read(q)),
            Progress::Done(r) => return r,
        }
    }
}

const W: u64 = 0x1000_0000;
const PARENT: usize = 0x40;

/// An instance at `W` whose child list sits at `W + 0x48`, with children at
/// the given addresses; each child's parent word points back to `W` when
/// `linked` is set, and each child carries RTTI.
fn world(kids: &[u64], linked: bool) -> Mem {
    let mut m = Mem::new();
    m.zeros(W, 0x300);
    let head = 0x2000_0000u64;
    let first = 0x3000_0000u64;
    m.word(W + 0x48, head);
    m.word(head, first);
    m.word(head + 8, first + 0x10 * kids.len() as u64);
    for (i, k) in kids.iter().enumerate() {
        m.word(first + 0x10 * i as u64, *k);
        m.typed(*k, 0x6000_0000 + 0x1000 * i as u64, "N3RBX4PartE");
        m.word(*k + PARENT as u64, if linked { W } else { 0x1234_5678 });
    }
    m
}

#[test]
fn child_list_found_by_parent_links() {
    let m = world(&[0x4000_0000, 0x4100_0000], true);
    assert_eq!(list_search(&m, ListCheck::ParentLink, W, PARENT), Some((0x48, 8)));
}

#[test]
fn child_list_found_by_rtti() {
    let m = world(&[0x4000_0000, 0x4100_0000], false);
    assert_eq!(list_search(&m, ListCheck::ParentLink, W, PARENT), None);
    assert_eq!(list_search(&m, ListCheck::Typed, W, PARENT), Some((0x48, 8)));
}

#[test]
fn loose_check_takes_one_child() {
    let m = world(&[0x4000_0000], true);
    assert_eq!(list_search(&m, ListCheck::ParentLink, W, PARENT), None);
    assert_eq!(list_search(&m, ListCheck::Loose, W, PARENT), Some((0x48, 8)));
}

#[test]
fn list_in_parent_slot_is_passed_over() {
    let m = world(&[0x4000_0000, 0x4100_0000], true);
    assert_eq!(list_search(&m, ListCheck::ParentLink, W, 0x48), None);
}

#[test]
fn no_list_without_memory() {
    let m = Mem::new();
    assert_eq!(list_search(&m, ListCheck::ParentLink, W, PARENT), None);
    assert_eq!(list_search(&m, ListCheck::Loose, W, PARENT), None);
}

const O: u64 = 0x1000_0000;

#[test]
fn name_found_through_pointer() {
    let mut m = Mem::new();
    m.zeros(O, 0x100);
    m.word(O + 0x10, 0x2000_0000);
    m.put(0x2000_0000, &[18]);
    m.put(0x2000_0001, b"Workspace");
    assert_eq!(name_slot(&m, O, "Workspace", 0x400, false), Some(0x10));
    assert_eq!(name_slot(&m, O, "Workspace", 0x10, false), None);
    assert_eq!(name_slot(&m, O, "Camera", 0x100, false), None);
}

#[test]
fn name_found_inline() {
    let mut m = Mem::new();
    m.zeros(O, 0x100);
    let mut s = vec![6u8];
    s.extend_from_slice(b"Camera");
    m.put(O + 0x20, &s);
    assert_eq!(name_slot(&m, O, "Camera", 0x80, true), Some(0x20));
}

#[test]
fn unreadable_slot_ends_strict_search() {
    let mut m = Mem::new();
    m.zeros(O, 8);
    m.put(O + 8, &[0x20, 1, 2, 3, 4, 5, 6]);
    m.word(O + 16, 0x3000_0000);
    m.word(O + 24, 4);
    m.put(0x3000_0000, b"Head");
    assert_eq!(name_slot(&m, O, "Head", 0x80, false), Some(8));
    assert_eq!(name_slot(&m, O, "Head", 0x80, true), None);
}

#[test]
fn descriptor_slot() {
    let mut m = Mem::new();
    m.zeros(O, 0x80);
    m.word(O, 0x5);
    m.word(O + 8, 0x2000_0000);
    m.word(0x2000_0000, 0x8000_0000_0000);
    m.word(O + 16, 0x2100_0000);
    m.word(0x2100_0000, 0x5000_0000);
    assert_eq!(descriptor(&m, O), Some(16));
    let mut m2 = Mem::new();
    m2.zeros(O, 0x80);
    m2.word(O + 8, 0x2000_0000);
    assert_eq!(descriptor(&m2, O), None);
    let mut m3 = Mem::new();
    m3.zeros(O, 0x80);
    assert_eq!(descriptor(&m3, O), None);
    // a live object's vtable in slot 0 is passed over
    let mut m4 = Mem::new();
    m4.zeros(O, 0x80);
    m4.word(O, 0x2200_0000);
    m4.word(0x2200_0000, 0x5500_0000);
    m4.word(O + 0x18, 0x2300_0000);
    m4.word(0x2300_0000, 0x5600_0000);
    assert_eq!(descriptor(&m4, O), Some(0x18));
}

#[test]
fn typed_slots_collected_in_order() {
    let mut m = Mem::new();
    m.zeros(O, 0x20);
    m.word(O, 0x4000_0000);
    m.word(O + 8, 0x10);
    m.word(O + 16, 0x4100_0000);
    m.word(O + 24, 0x4200_0000);
    m.typed(0x4000_0000, 0x5000_0000, "N3RBX9PrimitiveE");
    m.typed(0x4100_0000, 0x5100_0000, "N3RBX4PartE");
    m.typed(0x4200_0000, 0x5200_0000, "N3RBX9PrimitiveE");
    let prim = || ClassRule::Named("Primitive@RBX".to_string());
    assert_eq!(collect(&m, O, prim(), 0x20, 5), vec![0x4000_0000, 0x4200_0000]);
    assert_eq!(collect(&m, O, prim(), 0x20, 1), vec![0x4000_0000]);
    assert_eq!(collect(&m, O, ClassRule::PlainPart, 0x40, 5), vec![0x4100_0000]);
    assert_eq!(collect(&m, O, prim(), 0, 5), Vec::<u64>::new());
}

#[test]
fn class_rules() {
    assert!(accepts(&ClassRule::Named("Sky@RBX".to_string()), "Sky@RBX"));
    assert!(!accepts(&ClassRule::Named("Sky@RBX".to_string()), "Sky"));
    assert!(accepts(&ClassRule::PlainPart, "WedgePart@RBX"));
    assert!(!accepts(&ClassRule::PlainPart, "MeshPart@RBX"));
}

use offset_dumper::instance_stage::{register_instance, InstanceProbe};
use offset_dumper::registry::Dumper;

#[test]
fn instance_layout_of_a_workspace() {
    let ws: u64 = 0x1000_0000;
    let mut m = Mem::new();
    m.zeros(ws, 0x400);
    m.typed(ws, 0x2000_0000, "N3RBX9WorkspaceE");
    m.zeros(0x2000_0100, 0x40);
    m.word(ws + 8, 0x3000_0000);
    m.word(0x3000_0000, 0x5000_0000);
    let name = 0x3100_0000u64;
    m.word(ws + 0x18, name);
    let mut text = vec![18u8];
    text.extend_from_slice(b"Workspace");
    m.put(name, &text);
    let dm = 0x3200_0000u64;
    m.word(ws + 0x20, dm);
    m.typed(dm, 0x3300_0000, "N3RBX9DataModelE");
    let head = 0x3400_0000u64;
    let first = 0x3500_0000u64;
    m.word(ws + 0x48, head);
    m.word(head, first);
    m.word(head + 8, first + 0x20);
    for (i, kid) in [0x3600_0000u64, 0x3700_0000].iter().enumerate() {
        m.word(first + 0x10 * i as u64, *kid);
        m.typed(*kid, 0x3800_0000 + 0x1000 * i as u64, "N3RBX4PartE");
        m.word(*kid + 0x20, ws);
    }

    let (mut probe, mut q) = InstanceProbe::start(ws);
    let layout = loop {
        match probe.resume(m.read(q)) {
            Progress::Read(n) => q = n,
            Progress::Done(l) => break l,
        }
    };
    assert_eq!(layout.name, Some(0x18));
    assert_eq!(layout.parent, 0x20);
    assert_eq!(layout.children, Some((0x48, 8)));
    assert_eq!(layout.descriptor, Some(8));
    assert_eq!(layout.class_name, Some(0x18));

    let mut d = Dumper::new();
    register_instance(&mut d, &layout);
    assert_eq!(d.get_offset("Instance", "Name"), Some(0x18));
    assert_eq!(d.get_offset("Instance", "ChildrenStart"), Some(0x48));
    assert_eq!(d.get_offset("Instance", "ChildrenEnd"), Some(8));
    assert_eq!(d.get_offset("Instance", "ClassDescriptor"), Some(8));
    assert_eq!(d.get_offset("Instance", "ClassName"), Some(0x18));
    assert_eq!(d.get_offset("Instance", "Parent"), Some(0x20));
}

#[test]
fn instance_layout_without_memory() {
    let m = Mem::new();
    let (mut probe, mut q) = InstanceProbe::start(0x1000_0000);
    let layout = loop {
        match probe.resume(m.read(q)) {
            Progress::Read(n) => q = n,
            Progress::Done(l) => break l,
        }
    };
    assert_eq!(layout.name, None);
    assert_eq!(layout.parent, 0x70);
    assert_eq!(layout.children, None);
    assert_eq!(layout.descriptor, None);
    assert_eq!(layout.class_name, None);
    let mut d = Dumper::new();
    register_instance(&mut d, &layout);
    assert!(d.namespaces().is_empty());
}

use offset_dumper::texts::{text_rule_holds, TextReader, TextRule, TextSlotScan};

fn text_slot(m: &Mem, addr: u64, reader: TextReader, rule: TextRule, limit: usize, skip: Vec<usize>) -> Option<usize> {
    let (mut s, mut step) = TextSlotScan::start(addr, reader, rule, limit, skip);
    loop {
        match step {
            Progress::Read(q) => step = s.resume(m.read(q)),
            Progress::Done(r) => return r,
        }
    }
}

#[test]
fn text_slots_by_c_string() {
    let mut m = Mem::new();
    m.zeros(O, 0x40);
    m.word(O + 8, 0x2000_0000);
    let mut a = b"not a job".to_vec();
    a.resize(64, 0);
    m.put(0x2000_0000, &a);
    m.word(O + 0x18, 0x2100_0000);
    let mut b = b"0f1e2d3c-4b5a-6978-8a9b-0c1d2e3f4a5b".to_vec();
    b.resize(64, 0);
    m.put(0x2100_0000, &b);
    assert_eq!(text_slot(&m, O, TextReader::CString(64), TextRule::JobId, 0x40, vec![]), Some(0x18));
    assert_eq!(text_slot(&m, O, TextReader::CString(64), TextRule::JobId, 0x40, vec![0x18]), None);
    assert_eq!(text_slot(&m, O, TextReader::CString(128), TextRule::JobId, 0x40, vec![]), None);
}

#[test]
fn text_slots_by_engine_name_or_inline() {
    let mut m = Mem::new();
    m.zeros(O, 0x40);
    m.word(O + 0x10, 0x2000_0000);
    let mut n = vec![(16u8) << 1];
    n.extend_from_slice(b"rbxassetid://123");
    m.put(0x2000_0000, &n);
    assert_eq!(text_slot(&m, O, TextReader::EngineName, TextRule::AssetReference, 0x40, vec![]), Some(0x10));
    assert_eq!(text_slot(&m, O, TextReader::EngineName, TextRule::SoundId, 0x40, vec![]), None);
    assert_eq!(text_slot(&m, O, TextReader::EngineName, TextRule::AssetReference, 0x40, vec![0x10]), None);
}

#[test]
fn text_rules() {
    assert!(text_rule_holds(TextRule::ServerAddress, "10.0.0.1:53640"));
    assert!(!text_rule_holds(TextRule::ClientTicket, "short"));
    assert!(text_rule_holds(TextRule::SoundId, "http://x"));
}

#[test]
fn more_text_rules() {
    assert!(text_rule_holds(TextRule::ObjectName, "Sword"));
    assert!(!text_rule_holds(TextRule::ObjectName, "!"));
    assert!(text_rule_holds(TextRule::SkyTexture, "rbxasset://sky/up.tex"));
    assert!(!text_rule_holds(TextRule::SkyTexture, "clouds"));
    assert!(text_rule_holds(TextRule::ShortText(4), "abc"));
    assert!(!text_rule_holds(TextRule::ShortText(4), "abcd"));
    assert!(!text_rule_holds(TextRule::ShortText(4), ""));
}

#[test]
fn successive_text_slots_skip_what_was_taken() {
    let mut m = Mem::new();
    m.zeros(O, 0x40);
    for (slot, p) in [(0x08u64, 0x2000_0000u64), (0x20, 0x2100_0000)] {
        m.word(O + slot, p);
        let mut n = vec![(3u8) << 1];
        n.extend_from_slice(b"abc");
        m.put(p, &n);
    }
    let short = TextRule::ShortText(64);
    assert_eq!(text_slot(&m, O, TextReader::EngineName, short, 0x40, vec![]), Some(0x08));
    assert_eq!(text_slot(&m, O, TextReader::EngineName, short, 0x40, vec![0x08]), Some(0x20));
    assert_eq!(text_slot(&m, O, TextReader::EngineName, short, 0x40, vec![0x08, 0x20]), None);
}

use offset_dumper::links::SlotFind;

fn slot_find(m: &Mem, addr: u64, rule: ClassRule, limit: usize, strict: bool, hop: bool) -> Option<(usize, u64)> {
    let (mut f, mut step) = SlotFind::start(addr, rule, limit, strict, hop);
    loop {
        match step {
            Progress::Read(q) => step = f.resume(m.read(q)),
            Progress::Done(r) => return r,
        }
    }
}

#[test]
fn slot_find_direct_and_through_an_array() {
    let mut m = Mem::new();
    m.zeros(O, 0x40);
    m.word(O + 0x08, 0x4000_0000);
    m.word(O + 0x18, 0x4100_0000);
    m.typed(0x4000_0000, 0x5000_0000, "N3RBX4PartE");
    m.typed(0x4100_0000, 0x5100_0000, "N3RBX8HumanoidE");
    m.word(O + 0x28, 0x4200_0000);
    m.word(0x4200_0000, 0x4300_0000);
    m.typed(0x4300_0000, 0x5300_0000, "N3RBX9PrimitiveE");
    let named = |s: &str| ClassRule::Named(s.to_string());
    assert_eq!(slot_find(&m, O, named("Humanoid@RBX"), 0x40, false, false), Some((0x18, 0x4100_0000)));
    assert_eq!(slot_find(&m, O, ClassRule::BodyPart, 0x40, false, false), Some((0x08, 0x4000_0000)));
    assert_eq!(slot_find(&m, O, named("Primitive@RBX"), 0x40, false, false), None);
    assert_eq!(slot_find(&m, O, named("Primitive@RBX"), 0x40, false, true), Some((0x28, 0x4200_0000)));
    assert_eq!(slot_find(&m, O, named("Humanoid@RBX"), 0x18, false, false), None);
}

#[test]
fn strict_slot_find_stops_at_an_unreadable_slot() {
    let mut m = Mem::new();
    m.zeros(O, 0x10);
    m.word(O + 0x18, 0x4100_0000);
    m.typed(0x4100_0000, 0x5100_0000, "N3RBX7PlayersE");
    let players = || ClassRule::Named("Players@RBX".to_string());
    assert_eq!(slot_find(&m, O, players(), 0x20, false, false), Some((0x18, 0x4100_0000)));
    assert_eq!(slot_find(&m, O, players(), 0x20, true, false), None);
}

#[test]
fn wider_class_rules() {
    let either = ClassRule::Either("Model@RBX".to_string(), "ModelInstance@RBX".to_string());
    assert!(accepts(&either, "ModelInstance@RBX"));
    assert!(!accepts(&either, "Folder@RBX"));
    assert!(accepts(&ClassRule::BodyPart, "MeshPart@RBX"));
    assert!(accepts(&ClassRule::Celestial, "SunRaysEffect@RBX"));
    assert!(accepts(&ClassRule::ScriptRuntime, "ScriptContext@RBX"));
    assert!(!accepts(&ClassRule::ScriptRuntime, "Workspace@RBX"));
}
