use std::collections::HashMap;

use offset_dumper::memory::{i64_is_sane, le_at, string_from_buffer, word_of, zero_position, Progress, ReadRequest};
use offset_dumper::names::{sso_inline_text, NameRead, SsoRead};
use offset_dumper::rtti::{demangle_itanium, is_valid_ptr, RttiFind, RttiInfo, RttiProbe};
use offset_dumper::walk::ChildWalk;

struct Mem {
    b: HashMap<u64, u8>,
}

impl Mem {
    fn new() -> Mem {
        Mem { b: HashMap::new() }
    }
    fn put(&mut self, a: u64, bytes: &[u8]) {
        for (i, x) in bytes.iter().enumerate() {
            self.b.insert(a + i as u64, *x);
        }
    }
    fn word(&mut self, a: u64, v: u64) {
        self.put(a, &v.to_le_bytes());
    }
    fn zeros(&mut self, a: u64, n: usize) {
        self.put(a, &vec![0u8; n]);
    }
    fn read(&self, q: ReadRequest) -> Option<Vec<u8>> {
        (0..q.len).map(|i| self.b.get(&q.addr.wrapping_add(i as u64)).copied()).collect()
    }
    /// An object at `obj` whose RTTI names `mangled`; `slot` is a private area.
    fn typed(&mut self, obj: u64, slot: u64, mangled: &str) {
        let vt = slot + 0x100;
        let ti = slot + 0x200;
        let np = slot + 0x300;
        self.word(obj, vt);
        self.word(vt - 8, ti);
        self.word(ti + 8, np);
        let mut buf = mangled.as_bytes().to_vec();
        buf.resize(256, 0);
        self.put(np, &buf);
    }
}

fn probe(m: &Mem, addr: u64) -> Option<RttiInfo> {
    let (mut p, mut q) = RttiProbe::start(addr);
    loop {
        match p.resume(m.read(q)) {
            Progress::Read(n) => q = n,
            Progress::Done(r) => return r,
        }
    }
}

fn find(m: &Mem, base: u64, target: &str, max: usize) -> Option<usize> {
    let (mut f, mut p) = RttiFind::start(base, target, max, 8);
    loop {
        match p {
            Progress::Read(q) => p = f.resume(m.read(q)),
            Progress::Done(r) => return r,
        }
    }
}

fn children(m: &Mem, addr: u64, cs: usize, ce: usize, check_head: bool) -> Vec<u64> {
    let (mut w, mut step) = ChildWalk::start(addr, cs, ce, check_head);
    loop {
        match step {
            Progress::Read(q) => step = w.resume(m.read(q)),
            Progress::Done(r) => return r,
        }
    }
}

fn name_fmt(m: &Mem, addr: u64) -> Option<String> {
    let (mut r, mut q) = NameRead::start(addr);
    loop {
        match r.resume(m.read(q)) {
            Progress::Read(n) => q = n,
            Progress::Done(s) => return s,
        }
    }
}

fn sso(m: &Mem, addr: u64) -> Option<String> {
    let (mut r, mut q) = SsoRead::start(addr);
    loop {
        match r.resume(m.read(q)) {
            Progress::Read(n) => q = n,
            Progress::Done(s) => return s,
        }
    }
}

#[test]
fn little_endian_values() {
    let d = [1u8, 2, 3, 4, 5, 6, 7, 8, 9];
    assert_eq!(le_at(&d, 0, 8), 0x0807060504030201);
    assert_eq!(le_at(&d, 1, 2), 0x0302);
    assert_eq!(le_at(&d, 4, 0), 0);
    assert_eq!(word_of(&Some(d[..8].to_vec())), Some(0x0807060504030201));
    assert_eq!(word_of(&Some(d.to_vec())), None);
    assert_eq!(word_of(&None), None);
}

#[test]
fn c_strings() {
    assert_eq!(zero_position(b"ab\0c"), 2);
    assert_eq!(zero_position(b"abc"), 3);
    assert_eq!(string_from_buffer(b"Hi\0xx"), Some("Hi".to_string()));
    assert_eq!(string_from_buffer(b"\0abc"), None);
    assert_eq!(string_from_buffer(b"full"), Some("full".to_string()));
    assert_eq!(string_from_buffer(b"\xff\0"), Some("\u{fffd}".to_string()));
    assert_eq!(string_from_buffer(b""), None);
}

#[test]
fn sane_i64_bounds() {
    assert!(i64_is_sane(10_000_000));
    assert!(i64_is_sane(-10_000_000));
    assert!(i64_is_sane(0));
    assert!(!i64_is_sane(10_000_001));
    assert!(!i64_is_sane(i64::MIN));
}

#[test]
fn pointer_range() {
    assert!(!is_valid_ptr(0xFFFF));
    assert!(is_valid_ptr(0x10000));
    assert!(is_valid_ptr(0x7fff_ffff_ffff));
    assert!(!is_valid_ptr(0x8000_0000_0000));
    assert!(!is_valid_ptr(0));
}

#[test]
fn demangles_nested_names() {
    assert_eq!(demangle_itanium("N3RBX8HumanoidE"), "Humanoid@RBX");
    assert_eq!(demangle_itanium("N3RBX8Graphics12VisualEngineE"), "VisualEngine@Graphics@RBX");
    assert_eq!(demangle_itanium("N3RBX"), "RBX");
}

#[test]
fn demangle_leaves_other_text() {
    assert_eq!(demangle_itanium("Part"), "Part");
    assert_eq!(demangle_itanium(""), "");
    assert_eq!(demangle_itanium("N0E"), "N0E");
    assert_eq!(demangle_itanium("NxE"), "NxE");
    assert_eq!(demangle_itanium("N5RBXE"), "N5RBXE");
    assert_eq!(demangle_itanium("NE"), "NE");
}

#[test]
fn rtti_probe_reads_class_name() {
    let mut m = Mem::new();
    m.typed(0x100000, 0x200000, "N3RBX8HumanoidE");
    let r = probe(&m, 0x100000).map(|i| i.name);
    assert_eq!(r, Some("Humanoid@RBX".to_string()));
}

#[test]
fn rtti_probe_plain_name() {
    let mut m = Mem::new();
    m.typed(0x100000, 0x200000, "7Example");
    assert_eq!(probe(&m, 0x100000).map(|i| i.name), Some("7Example".to_string()));
}

#[test]
fn rtti_probe_rejects_bad_chains() {
    let mut m = Mem::new();
    m.typed(0x100000, 0x200000, "_odd");
    assert!(probe(&m, 0x100000).is_none());
    let mut m2 = Mem::new();
    m2.word(0x100000, 0x500);
    assert!(probe(&m2, 0x100000).is_none());
    assert!(probe(&Mem::new(), 0x100000).is_none());
    let mut m3 = Mem::new();
    m3.typed(0x100000, 0x200000, "N3RBX4PartE");
    m3.b.remove(&(0x200300 + 255));
    assert!(probe(&m3, 0x100000).is_none());
}

#[test]
fn rtti_find_first_matching_slot() {
    let mut m = Mem::new();
    let base = 0x500000;
    m.zeros(base, 0x40);
    m.word(base + 8, 0x600000);
    m.word(base + 16, 0x610000);
    m.word(base + 24, 0x620000);
    m.typed(0x600000, 0x700000, "N3RBX4PartE");
    m.typed(0x610000, 0x710000, "N3RBX8HumanoidE");
    m.typed(0x620000, 0x720000, "N3RBX8HumanoidE");
    assert_eq!(find(&m, base, "Humanoid@RBX", 0x40), Some(16));
    assert_eq!(find(&m, base, "Part@RBX", 0x40), Some(8));
    assert_eq!(find(&m, base, "Sky@RBX", 0x40), None);
    assert_eq!(find(&m, base, "Humanoid@RBX", 16), None);
}

#[test]
fn rtti_find_passes_over_unreadable_slots() {
    let mut m = Mem::new();
    let base = 0x500000;
    m.zeros(base, 8);
    m.typed(0x610000, 0x710000, "N3RBX8HumanoidE");
    assert_eq!(find(&m, base, "Humanoid@RBX", 0x40), None);
    // slot 8 cannot be read; slot 16 points to the humanoid
    m.word(base + 16, 0x610000);
    assert_eq!(find(&m, base, "Humanoid@RBX", 0x40), Some(16));
}

fn list_instance(m: &mut Mem, inst: u64, kids: &[u64]) {
    let head = inst + 0x1000;
    let first = inst + 0x2000;
    m.zeros(inst, 0x100);
    m.word(inst + 0x10, head);
    m.word(head, first);
    m.word(head + 8, first + 0x10 * kids.len() as u64);
    for (i, k) in kids.iter().enumerate() {
        m.word(first + 0x10 * i as u64, *k);
    }
}

#[test]
fn child_walk_collects_pointers() {
    let mut m = Mem::new();
    list_instance(&mut m, 0x100000, &[0x300000, 0x500, 0x310000]);
    assert_eq!(children(&m, 0x100000, 0x10, 8, true), vec![0x300000, 0x310000]);
}

#[test]
fn child_walk_without_list() {
    let mut m = Mem::new();
    m.zeros(0x100000, 0x100);
    assert!(children(&m, 0x100000, 0x10, 8, true).is_empty());
    assert!(children(&m, 0x100000, 0x10, 8, false).is_empty());
    assert!(children(&Mem::new(), 0x100000, 0x10, 8, true).is_empty());
}

#[test]
fn child_walk_skips_unreadable_nodes() {
    let mut m = Mem::new();
    list_instance(&mut m, 0x100000, &[0x300000, 0x310000, 0x320000]);
    for i in 0..8 {
        m.b.remove(&(0x102010 + i));
    }
    assert_eq!(children(&m, 0x100000, 0x10, 8, true), vec![0x300000, 0x320000]);
}

#[test]
fn engine_names_inline_and_out_of_line() {
    let mut m = Mem::new();
    m.put(0x100000, &[10]);
    m.put(0x100001, b"Hello");
    assert_eq!(name_fmt(&m, 0x100000), Some("Hello".to_string()));
    m.word(0x200000, 0x60000D);
    m.put(0x60000C, b"Player");
    assert_eq!(name_fmt(&m, 0x200000), Some("Player".to_string()));
    m.put(0x300000, &[0]);
    assert_eq!(name_fmt(&m, 0x300000), None);
}

#[test]
fn short_strings_inline_and_heap() {
    let mut m = Mem::new();
    m.put(0x100000, &[9]);
    let mut buf = b"Workspace".to_vec();
    buf.resize(15, 0);
    m.put(0x100001, &buf);
    assert_eq!(sso(&m, 0x100000), Some("Workspace".to_string()));
    m.zeros(0x200000, 24);
    m.put(0x200000, &[0x20]);
    m.word(0x200008, 0x700000);
    m.word(0x200010, 20);
    m.put(0x700000, b"A long name for test");
    assert_eq!(sso(&m, 0x200000), Some("A long name for test".to_string()));
    m.word(0x200010, 300);
    assert_eq!(sso(&m, 0x200000), None);
}

#[test]
fn short_string_length_must_match() {
    let mut buf = b"Work".to_vec();
    buf.resize(15, 0);
    assert_eq!(sso_inline_text(&buf, 4), Some("Work".to_string()));
    assert_eq!(sso_inline_text(&buf, 5), None);
    let full = b"abcdefghijklmno".to_vec();
    assert_eq!(sso_inline_text(&full, 3), Some("abc".to_string()));
}

#[test]
fn child_walk_with_unknown_offsets() {
    let mut m = Mem::new();
    list_instance(&mut m, 0x100000, &[0x300000]);
    // the list is at 0x10 with its end marker 8 into the record
    assert_eq!(children(&m, 0x100000, 0x10, 8, true), vec![0x300000]);
    assert!(children(&m, 0x100000, 0, 8, true).is_empty());
    assert!(children(&m, 0x100000, 0x10, 0, false).is_empty());
}

#[test]
fn child_walk_returns_long_lists_whole() {
    let mut m = Mem::new();
    let kids: Vec<u64> = (0..1200u64).map(|i| 0x4000_0000 + 0x100 * i).collect();
    list_instance(&mut m, 0x100000, &kids);
    assert_eq!(children(&m, 0x100000, 0x10, 8, true), kids);
}
