use offset_dumper::fields::scan_isolated_byte;
use offset_dumper::heuristics::{
    scan_common_byte, scan_lone_id, scan_looped, scan_second_flag, scan_star_count, scan_u32_field, scan_u64_between,
    U32Rule,
};
use offset_dumper::window::MemWindow;

fn win(bytes: &[u8]) -> MemWindow {
    MemWindow { base: 0, cells: bytes.iter().map(|b| Some(*b)).collect() }
}

fn words32(vals: &[u32]) -> Vec<u8> {
    vals.iter().flat_map(|v| v.to_le_bytes()).collect()
}

fn words64(vals: &[u64]) -> Vec<u8> {
    vals.iter().flat_map(|v| v.to_le_bytes()).collect()
}

#[test]
fn tagged_u32_with_next_guard() {
    let w = win(&words32(&[0, 1, 5, 1, 70]));
    let rule = U32Rule { lo: 1, hi: 1, check_prev: false, check_next: true, neighbour_min: 10, missing: 99 };
    assert_eq!(scan_u32_field(&w, 4, 0x10, rule), Some(8));
    let short = win(&words32(&[0, 0, 1]));
    assert_eq!(scan_u32_field(&short, 4, 0x8, rule), Some(4));
}

#[test]
fn u32_with_both_neighbours() {
    let w = win(&words32(&[500, 7, 3, 1000, 42, 1000]));
    let rule = U32Rule { lo: 1, hi: 99, check_prev: true, check_next: true, neighbour_min: 100, missing: u32::MAX };
    assert_eq!(scan_u32_field(&w, 4, 0x14, rule), Some(12));
    let plain = U32Rule { lo: 0, hi: 4, check_prev: false, check_next: false, neighbour_min: 0, missing: 0 };
    assert_eq!(scan_u32_field(&w, 4, 0x14, plain), Some(4));
}

#[test]
fn lone_ids() {
    let big = 0x7f00_0000_0000u64;
    let w = win(&words64(&[big, 5, 6, big, 77, big]));
    assert_eq!(scan_lone_id(&w, 8, 0x28, &vec![]), Some(0x18));
    assert_eq!(scan_lone_id(&w, 8, 0x28, &vec![0x18]), None);
    let edge = win(&words64(&[9, big]));
    assert_eq!(scan_lone_id(&edge, 8, 0x8, &vec![]), None);
    let mut e2 = win(&words64(&[0, 9, big]));
    e2.cells[0] = None;
    assert_eq!(scan_lone_id(&e2, 8, 0x8, &vec![]), Some(0));
}

#[test]
fn u64_in_range() {
    let w = win(&words64(&[5, 200, 20_000_000, 300]));
    assert_eq!(scan_u64_between(&w, 0x20, 100, 10_000_001, &vec![]), Some(8));
    assert_eq!(scan_u64_between(&w, 0x20, 100, 10_000_001, &vec![8]), Some(24));
    assert_eq!(scan_u64_between(&w, 0x20, 100_000_000, 1_000_000_000_000, &vec![]), None);
}

#[test]
fn star_counts() {
    let mut b = vec![0u8; 8];
    b[0..2].copy_from_slice(&50u16.to_le_bytes());
    b[2..4].copy_from_slice(&3000u16.to_le_bytes());
    b[6..8].copy_from_slice(&3000u16.to_le_bytes());
    let w = win(&b);
    assert_eq!(scan_star_count(&w, 8), None);
    let mut c = vec![0u8; 4];
    c[0..2].copy_from_slice(&3000u16.to_le_bytes());
    assert_eq!(scan_star_count(&win(&c), 4), Some(0));
}

#[test]
fn looped_and_second_flags() {
    let w = win(&[7, 0, 1, 1, 0]);
    assert_eq!(scan_looped(&w, 5), Some(1));
    assert_eq!(scan_second_flag(&w, 5, 1), Some(3));
    assert_eq!(scan_second_flag(&w, 5, usize::MAX), Some(1));
    let tail = win(&[3, 1]);
    assert_eq!(scan_looped(&tail, 2), None);
    assert_eq!(scan_second_flag(&tail, 2, usize::MAX), None);
}

#[test]
fn common_bytes() {
    let ws = vec![win(&[1, 0, 1]), win(&[0, 0, 1])];
    assert_eq!(scan_common_byte(&ws, 3, 1), Some(2));
    assert_eq!(scan_common_byte(&ws, 3, 0), Some(1));
    let one = vec![win(&[1, 1, 1])];
    assert_eq!(scan_common_byte(&one, 3, 1), None);
}

#[test]
fn isolated_bytes() {
    let w = win(&[9, 0, 0, 9, 0, 9, 1, 7]);
    assert_eq!(scan_isolated_byte(&w, 6, 0, 0, 1, 2, &vec![]), Some(3));
    assert_eq!(scan_isolated_byte(&w, 6, 0, 0, 1, 2, &vec![3]), None);
    assert_eq!(scan_isolated_byte(&w, 6, 1, 1, 1, 2, &vec![]), Some(5));
    let edge = MemWindow { base: 0, cells: vec![None, Some(5)] };
    assert_eq!(scan_isolated_byte(&edge, 1, 1, 40, 40, 0, &vec![]), None);
    assert_eq!(scan_isolated_byte(&edge, 1, 1, 40, 40, 50, &vec![]), Some(0));
}
