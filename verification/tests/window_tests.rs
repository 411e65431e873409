use offset_dumper::anchors::{chunk_candidates, section_batches, Anchors, BATCH_SIZE};
use offset_dumper::fields::{
    bool_flag_offsets, flag_name, scan_flag_field, scan_shared_enum_field, scan_varying_isolated_byte,
};
use offset_dumper::window::{
    enum_field_check, find_int64, scan_byte_equal, scan_byte_hits, scan_enum_field, scan_pointer, scan_pointer_to,
    scan_routine_start, scan_u16_equal, scan_user_id, scan_zero_near, win_le, MemWindow,
};

fn win(bytes: &[u8]) -> MemWindow {
    MemWindow { base: 0x1000, cells: bytes.iter().map(|b| Some(*b)).collect() }
}

fn put_u64(v: &mut Vec<u8>, off: usize, x: u64) {
    v[off..off + 8].copy_from_slice(&x.to_le_bytes());
}

#[test]
fn little_endian_reads() {
    let mut w = win(&[1, 2, 3, 4, 5]);
    assert_eq!(win_le(&w, 0, 4), Some(0x04030201));
    assert_eq!(win_le(&w, 2, 3), Some(0x050403));
    assert_eq!(win_le(&w, 3, 4), None);
    w.cells[1] = None;
    assert_eq!(win_le(&w, 0, 2), None);
    assert_eq!(win_le(&w, 2, 2), Some(0x0403));
}

#[test]
fn byte_scans() {
    let w = win(&[2, 0, 1, 0, 1]);
    assert_eq!(scan_byte_equal(&w, 5, 1), Some(2));
    assert_eq!(scan_byte_equal(&w, 2, 1), None);
    assert_eq!(scan_byte_equal(&w, 5, 7), None);
}

#[test]
fn small_enum_fields() {
    let w = win(&[9, 9, 9, 9, 3, 0, 0, 0, 2, 0x20, 0, 0]);
    assert_eq!(scan_enum_field(&w, 12, 0, 4, 0x1000, None, false), Some(4));
    assert_eq!(scan_enum_field(&w, 12, 0, 4, 0x1000, Some(4), false), None);
    assert!(enum_field_check(&w, 8, 1, 40, 0x10000, None, false));
    assert!(!enum_field_check(&w, 8, 1, 40, 0x1000, None, false));
    let mut w2 = win(&[5, 0]);
    w2.cells.push(None);
    w2.cells.push(None);
    assert!(!enum_field_check(&w2, 0, 1, 40, 0x10000, None, false));
    assert!(!enum_field_check(&w2, 0, 1, 40, 0x10000, None, true));
    assert!(enum_field_check(&w2, 1, 0, 40, 0x10000, None, true));
}

#[test]
fn zero_near_a_reference() {
    let w = win(&[0, 0, 1, 0, 0, 0]);
    let cast = vec![2usize];
    assert_eq!(scan_zero_near(&w, 6, &cast, &cast, 4), Some(0));
    let cast_far = vec![20usize];
    assert_eq!(scan_zero_near(&w, 6, &cast_far, &cast_far, 4), None);
    let missing = vec![usize::MAX];
    assert_eq!(scan_zero_near(&w, 6, &missing, &missing, 4), Some(0));
    let avoid = vec![0usize, 1, 3];
    assert_eq!(scan_zero_near(&w, 6, &avoid, &cast, 4), Some(4));
}

#[test]
fn sixteen_bit_values() {
    let w = win(&[0, 0, 1, 1, 0, 0]);
    assert_eq!(scan_u16_equal(&w, 6, 257), Some(2));
    assert_eq!(scan_u16_equal(&w, 6, 258), None);
}

#[test]
fn id_fields() {
    let mut v = vec![0u8; 0x40];
    put_u64(&mut v, 8, 5);
    put_u64(&mut v, 16, 1818);
    put_u64(&mut v, 24, 7);
    put_u64(&mut v, 32, 0x7f00_0000_1000);
    let w = win(&v);
    assert_eq!(find_int64(&w, 0x40, &vec![]), Some(8));
    assert_eq!(find_int64(&w, 0x40, &vec![8]), Some(16));
    assert_eq!(find_int64(&w, 0x40, &vec![8, 16]), None);
    assert_eq!(scan_user_id(&w, 0x40), Some(8));
    assert_eq!(scan_pointer(&w, 0, 0x40), Some(32));
    assert_eq!(scan_pointer(&w, 0, 32), None);
}

#[test]
fn int64_scan_stops_at_unreadable_value() {
    let mut v = vec![0u8; 0x20];
    put_u64(&mut v, 16, 9);
    let mut w = win(&v);
    w.cells[8] = None;
    assert_eq!(find_int64(&w, 0x20, &vec![]), None);
}

#[test]
fn routine_start_marks() {
    let w = win(&[0x55, 0x48, 0xC3, 0xCC]);
    assert_eq!(scan_routine_start(&w, 4, 0x100), Some(0x101));
    let w2 = win(&[0x55, 0xCC]);
    assert_eq!(scan_routine_start(&w2, 2, 0x100), Some(0x101));
    assert_eq!(scan_routine_start(&w2, 1, 0x100), None);
    let w3 = win(&[0xC3]);
    assert_eq!(scan_routine_start(&w3, 1, 1), Some(0));
}

#[test]
fn flag_bytes() {
    let allowed = vec![0x81u8, 0x01, 0x83, 0x85, 0x87];
    let w = win(&[0x81, 0x10, 0, 0, 0x81, 0, 0, 0]);
    assert_eq!(scan_flag_field(&w, 8, &allowed, 0x1000), Some(4));
    assert_eq!(scan_flag_field(&w, 4, &allowed, 0x1000), None);
}

#[test]
fn enum_shared_by_two_objects() {
    let a = win(&[0, 0, 0, 0, 7, 0, 0, 0]);
    let b = win(&[0, 0, 0, 0, 9, 0, 0, 0]);
    let c = win(&[3, 0, 0, 0, 0, 0, 0, 0]);
    assert_eq!(scan_shared_enum_field(&vec![a, b], 8, 1, 45, 0x10000), Some(4));
    let a2 = win(&[0, 0, 0, 0, 7, 0, 0, 0]);
    assert_eq!(scan_shared_enum_field(&vec![a2, c], 8, 1, 45, 0x10000), None);
}

#[test]
fn boolean_flags_in_order() {
    let p = win(&[5, 1, 0, 1, 7, 7, 7, 7, 7, 7, 0, 1]);
    let q = win(&[5, 0, 0, 1, 7, 7, 7, 7, 7, 7, 1, 1]);
    let ws = vec![p, q];
    assert_eq!(bool_flag_offsets(&ws, 0x200, 0x200), vec![1, 2, 3, 2]);
    assert_eq!(bool_flag_offsets(&ws, 1, 2), vec![3, 10, 10, 11]);
    assert_eq!(flag_name(0), "Anchored");
    assert_eq!(flag_name(3), "CanTouch");
}

#[test]
fn chunk_pointer_candidates() {
    let mut c = vec![0u8; 24];
    put_u64(&mut c, 0, 0x7f00_0000_0000);
    put_u64(&mut c, 8, 0x5);
    put_u64(&mut c, 16, 0x20000);
    let hits = chunk_candidates(&c, 8, 0x5000_1000, 0x5000_0000);
    assert_eq!(hits, vec![(0x1000, 0x7f00_0000_0000), (0x1010, 0x20000)]);
    let short = chunk_candidates(&c[..20], 8, 0x5000_1000, 0x5000_0000);
    assert_eq!(short, vec![(0x1000, 0x7f00_0000_0000)]);
}

#[test]
fn anchors_keep_first_match() {
    let mut a = Anchors::new();
    assert!(!a.complete());
    a.note(0x10, "Other@RBX");
    a.note(0x20, "DataModel@RBX");
    a.note(0x30, "DataModel@RBX");
    assert_eq!(a.data_model, Some(0x20));
    assert!(!a.complete());
    a.note(0x40, "VisualEngine@Graphics@RBX");
    assert_eq!(a.visual_engine, Some(0x40));
    assert!(a.complete());
}

#[test]
fn pointers_into_a_set() {
    let mut v = vec![0u8; 0x30];
    put_u64(&mut v, 0x00, 0x5000_0000);
    put_u64(&mut v, 0x10, 0x6000_0000);
    put_u64(&mut v, 0x20, 0x5000_0000);
    put_u64(&mut v, 0x28, 0x100);
    let w = win(&v);
    assert_eq!(scan_pointer_to(&w, 0x30, &vec![0x6000_0000, 0x7000_0000]), Some(0x10));
    assert_eq!(scan_pointer_to(&w, 0x10, &vec![0x6000_0000]), None);
    assert_eq!(scan_pointer_to(&w, 0x30, &vec![0x100]), None);
    assert_eq!(scan_pointer_to(&w, 0x30, &vec![]), None);
    let mut u = win(&v);
    u.cells[0x13] = None;
    assert_eq!(scan_pointer_to(&u, 0x30, &vec![0x6000_0000, 0x5000_0000]), Some(0x00));
    assert_eq!(scan_pointer_to(&u, 0x30, &vec![0x6000_0000]), None);
}

#[test]
fn first_few_equal_bytes() {
    let mut w = win(&[1, 0, 1, 1, 2, 1]);
    assert_eq!(scan_byte_hits(&w, 6, 1, 3), vec![0, 2, 3]);
    assert_eq!(scan_byte_hits(&w, 6, 1, 9), vec![0, 2, 3, 5]);
    assert_eq!(scan_byte_hits(&w, 3, 1, 9), vec![0, 2]);
    assert_eq!(scan_byte_hits(&w, 6, 1, 0), Vec::<usize>::new());
    w.cells[2] = None;
    assert_eq!(scan_byte_hits(&w, 6, 1, 2), vec![0, 3]);
}

#[test]
fn isolated_bytes_that_differ_between_objects() {
    // windows start one byte before their objects
    let a = win(&[9, 9, 0, 9, 1, 9, 9]);
    let b = win(&[9, 9, 0, 9, 0, 9, 9]);
    assert_eq!(scan_varying_isolated_byte(&vec![win(&[9, 9, 0, 9, 1, 9, 9])], 5, 0, 1, 1, 2), Some(1));
    assert_eq!(scan_varying_isolated_byte(&vec![a, b], 5, 0, 1, 1, 2), Some(3));
    let mut c = win(&[9, 9, 0, 9, 0, 9, 9]);
    c.cells[4] = None;
    let d = win(&[9, 9, 0, 9, 1, 9, 9]);
    assert_eq!(scan_varying_isolated_byte(&vec![d, c], 5, 0, 1, 1, 2), None);
}

#[test]
fn sections_are_read_in_whole_batches_then_the_rest() {
    assert_eq!(section_batches(0x1000, 0), Vec::<(usize, usize)>::new());
    assert_eq!(section_batches(0x1000, 10), vec![(0x1000, 10)]);
    assert_eq!(section_batches(0x1000, BATCH_SIZE), vec![(0x1000, BATCH_SIZE)]);
    assert_eq!(
        section_batches(0x1000, 2 * BATCH_SIZE + 5),
        vec![(0x1000, BATCH_SIZE), (0x1000 + BATCH_SIZE, BATCH_SIZE), (0x1000 + 2 * BATCH_SIZE, 5)]
    );
}
