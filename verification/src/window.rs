use vstd::prelude::*;

use crate::memory::{le_at, le_value, mem_read, Memory};

verus! {

/// A copy of the target's bytes from `base` on; `None` marks a byte that could
/// not be read.
pub struct MemWindow {
    pub base: u64,
    pub cells: Vec<Option<u8>>,
}

/// The `n` bytes at offset `off` of a window, when all of them were read.
pub open spec fn win_read(c: Seq<Option<u8>>, off: int, n: nat) -> Option<Seq<u8>> {
    if 0 <= off && off + n <= c.len() && forall|i: int| 0 <= i < n ==> (#[trigger] c[off + i]) is Some {
        Some(Seq::new(n, |i: int| c[off + i]->0))
    } else {
        None
    }
}

/// The little-endian value of `n` bytes at `off`.
pub open spec fn win_value(c: Seq<Option<u8>>, off: int, n: nat) -> Option<nat> {
    match win_read(c, off, n) {
        Some(b) => Some(le_value(b)),
        None => None,
    }
}

/// The window that a memory gives when `len` bytes from `base` are copied.
pub open spec fn window_of(m: Memory, base: int, len: nat) -> Seq<Option<u8>> {
    Seq::new(len, |i: int| if m.contains_key(base + i) { Some(m[base + i]) } else { None })
}

/// Reading a faithful copy is reading the memory it was copied from.
pub proof fn law_window_faithful(m: Memory, base: int, len: nat, off: int, n: nat)
    requires
        0 <= off,
        off + n <= len,
    ensures
        win_read(window_of(m, base, len), off, n) == mem_read(m, base + off, n),
{
    let c = window_of(m, base, len);
    if forall|i: int| 0 <= i < n ==> #[trigger] m.contains_key(base + off + i) {
        assert forall|i: int| 0 <= i < n implies (#[trigger] c[off + i]) is Some by {
            assert(m.contains_key(base + off + i));
        }
        assert(Seq::new(n, |i: int| c[off + i]->0) =~= Seq::new(n, |i: int| m[base + off + i]));
    } else {
        let i = choose|i: int| 0 <= i < n && !#[trigger] m.contains_key(base + off + i);
        assert(c[off + i] is None);
    }
}

/// The first offset from `off`, stepping by `step` while below `end`, that
/// satisfies `p`.
pub open spec fn first_hit(p: spec_fn(int) -> bool, off: int, end: int, step: int) -> Option<int>
    decreases end + step - off,
{
    if step <= 0 || off >= end {
        None
    } else if p(off) {
        Some(off)
    } else {
        first_hit(p, off + step, end, step)
    }
}

/// A stepped search gives the first hit: a result lies in the searched range
/// on the step grid and satisfies the predicate, and no grid point before it
/// does; no result means no grid point in the range does.
pub proof fn law_first_hit(p: spec_fn(int) -> bool, off: int, end: int, step: int)
    requires
        step > 0,
    ensures
        match first_hit(p, off, end, step) {
            Some(o) => {
                &&& off <= o < end
                &&& (o - off) % step == 0
                &&& p(o)
                &&& forall|j: int| off <= j < o && (j - off) % step == 0 ==> !#[trigger] p(j)
            },
            None => forall|j: int| off <= j < end && (j - off) % step == 0 ==> !#[trigger] p(j),
        },
    decreases end + step - off,
{
    if off >= end {
    } else if p(off) {
        assert((off - off) % step == 0) by (nonlinear_arith)
            requires
                step > 0,
        ;
    } else {
        law_first_hit(p, off + step, end, step);
        assert forall|j: int| off < j && #[trigger] ((j - off) % step) == 0 implies j >= off + step && (j - (off + step)) % step == 0 by {
            lemma_grid_step(j - off, step);
        }
        match first_hit(p, off + step, end, step) {
            Some(o) => {
                lemma_grid_step(o - off, step);
                assert((o - off) % step == 0) by (nonlinear_arith)
                    requires
                        (o - (off + step)) % step == 0,
                        step > 0,
                ;
            },
            None => {},
        }
    }
}

proof fn lemma_grid_step(d: int, step: int)
    requires
        step > 0,
    ensures
        d > 0 && d % step == 0 ==> d >= step && (d - step) % step == 0,
        (d - step) % step == 0 ==> d % step == 0,
{
    assert(d > 0 && d % step == 0 ==> d >= step) by (nonlinear_arith)
        requires
            step > 0,
    ;
    assert(d % step == 0 ==> (d - step) % step == 0) by (nonlinear_arith)
        requires
            step > 0,
    ;
    assert((d - step) % step == 0 ==> d % step == 0) by (nonlinear_arith)
        requires
            step > 0,
    ;
}

/// Reads the little-endian value of `n <= 8` bytes at `off`.
pub fn win_le(w: &MemWindow, off: usize, n: usize) -> (r: Option<u64>)
    requires
        n <= 8,
    ensures
        match r {
            Some(v) => win_value(w.cells@, off as int, n as nat) == Some(v as nat),
            None => win_value(w.cells@, off as int, n as nat) is None,
        },
{
    let len = w.cells.len();
    if off > len || n > len - off {
        return None;
    }
    let mut bytes: Vec<u8> = Vec::new();
    let mut i: usize = 0;
    while i < n
        invariant
            i <= n <= 8,
            off + n <= len,
            len == w.cells@.len(),
            bytes@.len() == i,
            forall|k: int| 0 <= k < i ==> (#[trigger] w.cells@[off + k]) is Some && bytes@[k] == w.cells@[off + k]->0,
        decreases n - i,
    {
        match w.cells[off + i] {
            Some(b) => bytes.push(b),
            None => {
                return None;
            },
        }
        i = i + 1;
    }
    let v = le_at(bytes.as_slice(), 0, n);
    proof {
        assert(bytes@.subrange(0, n as int) =~= Seq::new(n as nat, |k: int| w.cells@[off + k]->0));
        crate::memory::lemma_le_bound(bytes@.subrange(0, n as int));
    }
    Some(v)
}

pub proof fn lemma_win_value_bound(c: Seq<Option<u8>>, off: int, n: nat)
    requires
        win_value(c, off, n) is Some,
        n <= 8,
    ensures
        win_value(c, off, n)->0 < crate::memory::pow256(n),
{
    crate::memory::lemma_le_bound(win_read(c, off, n)->0);
}

// ---------------------------------------------------------------------------
// Small-enum fields: a byte whose enclosing aligned 32-bit word holds only it.
// ---------------------------------------------------------------------------

/// At `off` sits a byte `v` with `lo <= v <= hi` whose aligned 32-bit word has
/// `v` as low byte and is below `bound`; `off` is not `exclude`. With
/// `missing_word_as_zero` an unreadable word counts as zero instead of ruling
/// the offset out.
pub open spec fn enum_field_at(
    c: Seq<Option<u8>>,
    off: int,
    lo: u8,
    hi: u8,
    bound: u32,
    exclude: Option<usize>,
    missing_word_as_zero: bool,
) -> bool {
    match win_value(c, off, 1) {
        None => false,
        Some(v) => {
            &&& lo <= v <= hi
            &&& exclude != Some(off as usize)
            &&& match win_value(c, off - off % 4, 4) {
                Some(w) => w % 256 == v && w < bound,
                None => missing_word_as_zero && v == 0 && 0 < bound,
            }
        },
    }
}

/// Whether the byte at `off` is a small-enum field (see `enum_field_at`).
pub fn enum_field_check(
    w: &MemWindow,
    off: usize,
    lo: u8,
    hi: u8,
    bound: u32,
    exclude: Option<usize>,
    missing_word_as_zero: bool,
) -> (r: bool)
    ensures
        r == enum_field_at(w.cells@, off as int, lo, hi, bound, exclude, missing_word_as_zero),
{
    match win_le(w, off, 1) {
        None => false,
        Some(v) => {
            if v < lo as u64 || v > hi as u64 || exclude == Some(off) {
                false
            } else {
                match win_le(w, off - off % 4, 4) {
                    Some(word) => word % 256 == v && word < bound as u64,
                    None => missing_word_as_zero && v == 0 && 0 < bound,
                }
            }
        },
    }
}

/// The first offset below `limit` holding a small-enum field (see `enum_field_at`).
pub fn scan_enum_field(
    w: &MemWindow,
    limit: usize,
    lo: u8,
    hi: u8,
    bound: u32,
    exclude: Option<usize>,
    missing_word_as_zero: bool,
) -> (r: Option<usize>)
    ensures
        match r {
            Some(o) => first_hit(|off: int| enum_field_at(w.cells@, off, lo, hi, bound, exclude, missing_word_as_zero), 0, limit as int, 1) == Some(o as int),
            None => first_hit(|off: int| enum_field_at(w.cells@, off, lo, hi, bound, exclude, missing_word_as_zero), 0, limit as int, 1) is None,
        },
{
    let ghost p = |off: int| enum_field_at(w.cells@, off, lo, hi, bound, exclude, missing_word_as_zero);
    let mut off: usize = 0;
    while off < limit
        invariant
            off <= limit,
            p == (|off: int| enum_field_at(w.cells@, off, lo, hi, bound, exclude, missing_word_as_zero)),
            first_hit(p, 0, limit as int, 1) == first_hit(p, off as int, limit as int, 1),
        decreases limit - off,
    {
        let hit = enum_field_check(w, off, lo, hi, bound, exclude, missing_word_as_zero);
        assert(hit == p(off as int));
        if hit {
            return Some(off);
        }
        off = off + 1;
    }
    None
}

/// The first offset below `limit` whose byte equals `value`.
pub fn scan_byte_equal(w: &MemWindow, limit: usize, value: u8) -> (r: Option<usize>)
    ensures
        match r {
            Some(o) => first_hit(|off: int| win_value(w.cells@, off, 1) == Some(value as nat), 0, limit as int, 1) == Some(o as int),
            None => first_hit(|off: int| win_value(w.cells@, off, 1) == Some(value as nat), 0, limit as int, 1) is None,
        },
{
    let ghost p = |off: int| win_value(w.cells@, off, 1) == Some(value as nat);
    let mut off: usize = 0;
    while off < limit
        invariant
            off <= limit,
            p == (|off: int| win_value(w.cells@, off, 1) == Some(value as nat)),
            first_hit(p, 0, limit as int, 1) == first_hit(p, off as int, limit as int, 1),
        decreases limit - off,
    {
        let hit = match win_le(w, off, 1) {
            Some(v) => v == value as u64,
            None => false,
        };
        assert(hit == p(off as int));
        if hit {
            return Some(off);
        }
        off = off + 1;
    }
    None
}

/// The offsets below `end` whose byte equals `value`, in order.
pub open spec fn byte_hits(c: Seq<Option<u8>>, value: u8, end: int) -> Seq<usize>
    decreases end,
{
    if end <= 0 {
        seq![]
    } else {
        let rest = byte_hits(c, value, end - 1);
        if win_value(c, end - 1, 1) == Some(value as nat) {
            rest.push((end - 1) as usize)
        } else {
            rest
        }
    }
}

/// The first `k` offsets below `limit` whose byte equals `value` (all of them
/// when there are fewer), in order.
pub fn scan_byte_hits(w: &MemWindow, limit: usize, value: u8, k: usize) -> (r: Vec<usize>)
    ensures
        r@ == (if byte_hits(w.cells@, value, limit as int).len() <= k {
            byte_hits(w.cells@, value, limit as int)
        } else {
            byte_hits(w.cells@, value, limit as int).take(k as int)
        }),
{
    let mut out: Vec<usize> = Vec::new();
    let mut off: usize = 0;
    while off < limit
        invariant
            off <= limit,
            out@ == (if byte_hits(w.cells@, value, off as int).len() <= k {
                byte_hits(w.cells@, value, off as int)
            } else {
                byte_hits(w.cells@, value, off as int).take(k as int)
            }),
        decreases limit - off,
    {
        let ghost before = byte_hits(w.cells@, value, off as int);
        let hit = match win_le(w, off, 1) {
            Some(v) => v == value as u64,
            None => false,
        };
        assert(hit == (win_value(w.cells@, off as int, 1) == Some(value as nat)));
        if hit {
            assert(byte_hits(w.cells@, value, off + 1) == before.push(off));
            if out.len() < k {
                out.push(off);
            } else {
                assert(before.push(off).take(k as int) =~= before.take(k as int));
            }
        } else {
            assert(byte_hits(w.cells@, value, off + 1) == before);
        }
        off = off + 1;
    }
    out
}

/// The value an offset has once converted to a signed word (`usize::MAX`, the
/// mark for "not found", becomes -1).
pub open spec fn signed_of(x: usize) -> int {
    if x > isize::MAX {
        x - usize::MAX - 1
    } else {
        x as int
    }
}

pub open spec fn abs_int(x: int) -> int {
    if x < 0 {
        -x
    } else {
        x
    }
}

/// A zero byte at `off` that is none of `avoid` and lies within `reach` of
/// one of `near` (distances taken between the signed values of the offsets).
pub open spec fn zero_near_at(c: Seq<Option<u8>>, off: int, avoid: Seq<usize>, near: Seq<usize>, reach: int) -> bool {
    &&& win_value(c, off, 1) == Some(0nat)
    &&& forall|k: int| 0 <= k < avoid.len() ==> avoid[k] != off
    &&& exists|k: int| 0 <= k < near.len() && abs_int(off - signed_of(#[trigger] near[k])) <= reach
}

pub(crate) fn signed_distance(a: usize, b: usize) -> (d: u128)
    ensures
        d == abs_int(a - signed_of(b)),
{
    if b > isize::MAX as usize {
        let nb: u128 = (usize::MAX - b) as u128 + 1;
        a as u128 + nb
    } else if a >= b {
        (a - b) as u128
    } else {
        (b - a) as u128
    }
}

/// The first offset below `limit` of a zero byte that is none of `avoid` and
/// within `reach` of one of `near` (see `zero_near_at`).
pub fn scan_zero_near(w: &MemWindow, limit: usize, avoid: &Vec<usize>, near: &Vec<usize>, reach: usize) -> (r: Option<usize>)
    ensures
        match r {
            Some(o) => first_hit(|off: int| zero_near_at(w.cells@, off, avoid@, near@, reach as int), 0, limit as int, 1) == Some(o as int),
            None => first_hit(|off: int| zero_near_at(w.cells@, off, avoid@, near@, reach as int), 0, limit as int, 1) is None,
        },
{
    let ghost p = |off: int| zero_near_at(w.cells@, off, avoid@, near@, reach as int);
    let mut off: usize = 0;
    while off < limit
        invariant
            off <= limit,
            p == (|off: int| zero_near_at(w.cells@, off, avoid@, near@, reach as int)),
            first_hit(p, 0, limit as int, 1) == first_hit(p, off as int, limit as int, 1),
        decreases limit - off,
    {
        let zero = match win_le(w, off, 1) {
            Some(v) => v == 0,
            None => false,
        };
        let mut clear = true;
        let mut a: usize = 0;
        while a < avoid.len()
            invariant
                a <= avoid@.len(),
                clear == forall|k: int| 0 <= k < a ==> avoid@[k] != off,
            decreases avoid@.len() - a,
        {
            if avoid[a] == off {
                clear = false;
            }
            a = a + 1;
        }
        let mut close = false;
        let mut b: usize = 0;
        while b < near.len()
            invariant
                b <= near@.len(),
                close == exists|k: int| 0 <= k < b && abs_int(off - signed_of(#[trigger] near@[k])) <= reach,
            decreases near@.len() - b,
        {
            if signed_distance(off, near[b]) <= reach as u128 {
                close = true;
            }
            proof {
                if close && !(exists|k: int| 0 <= k < b && abs_int(off - signed_of(#[trigger] near@[k])) <= reach) {
                    assert(abs_int(off - signed_of(near@[b as int])) <= reach);
                }
            }
            b = b + 1;
        }
        let hit = zero && clear && close;
        assert(hit == p(off as int));
        if hit {
            return Some(off);
        }
        off = off + 1;
    }
    None
}

/// The first even offset below `limit` holding the 16-bit value `value`.
pub fn scan_u16_equal(w: &MemWindow, limit: usize, value: u16) -> (r: Option<usize>)
    ensures
        match r {
            Some(o) => first_hit(|off: int| win_value(w.cells@, off, 2) == Some(value as nat), 0, limit as int, 2) == Some(o as int),
            None => first_hit(|off: int| win_value(w.cells@, off, 2) == Some(value as nat), 0, limit as int, 2) is None,
        },
{
    let ghost p = |off: int| win_value(w.cells@, off, 2) == Some(value as nat);
    let mut off: usize = 0;
    while off < limit
        invariant
            off <= limit + 1,
            p == (|off: int| win_value(w.cells@, off, 2) == Some(value as nat)),
            first_hit(p, 0, limit as int, 2) == first_hit(p, off as int, limit as int, 2),
        decreases limit - off,
    {
        let hit = match win_le(w, off, 2) {
            Some(v) => v == value as u64,
            None => false,
        };
        assert(hit == p(off as int));
        if hit {
            return Some(off);
        }
        if limit - off < 2 {
            assert(first_hit(p, off + 2, limit as int, 2) is None);
            return None;
        }
        off = off + 2;
    }
    None
}

/// A plausible identifier: a positive signed 64-bit value below 10^11.
pub open spec fn plausible_id(v: nat) -> bool {
    0 < v < 100_000_000_000
}

/// A signed 64-bit id field at `off`: the value is a plausible id and so are
/// its neighbours eight bytes before and after (an unreadable neighbour
/// counts as -1, which is not).
pub open spec fn int64_field_at(c: Seq<Option<u8>>, off: int) -> bool {
    &&& win_value(c, off, 8) matches Some(v) && plausible_id(v)
    &&& win_value(c, off + 8, 8) matches Some(n) && n <= 100_000_000_000
    &&& win_value(c, off - 8, 8) matches Some(p) && p <= 100_000_000_000
}

/// The search for a 64-bit id: from `off` in steps of 8 below `max`, offsets
/// listed in `skip` and offset 0 are passed over, the first id field found is
/// the result, and a value that cannot be read ends the search with nothing.
pub open spec fn int64_scan(c: Seq<Option<u8>>, off: int, max: int, skip: Seq<usize>) -> Option<int>
    decreases max + 8 - off,
{
    if off >= max {
        None
    } else if skip.contains(off as usize) || off < 8 {
        int64_scan(c, off + 8, max, skip)
    } else {
        match win_value(c, off, 8) {
            None => None,
            Some(v) => if int64_field_at(c, off) {
                Some(off)
            } else {
                int64_scan(c, off + 8, max, skip)
            },
        }
    }
}

/// An id field found by the search is on the 8-byte grid from the start,
/// at least 8 bytes in, not listed in `skip`, and is an id field.
pub proof fn law_int64_hit(c: Seq<Option<u8>>, off: int, max: int, skip: Seq<usize>)
    ensures
        int64_scan(c, off, max, skip) matches Some(o) ==> {
            &&& off <= o < max
            &&& (o - off) % 8 == 0
            &&& o >= 8
            &&& !skip.contains(o as usize)
            &&& int64_field_at(c, o)
        },
    decreases max + 8 - off,
{
    if off >= max {
    } else if skip.contains(off as usize) || off < 8 {
        law_int64_hit(c, off + 8, max, skip);
    } else {
        match win_value(c, off, 8) {
            None => {},
            Some(v) => if !int64_field_at(c, off) {
                law_int64_hit(c, off + 8, max, skip);
            },
        }
    }
}

/// Finds a 64-bit id field (see `int64_scan`) in the window.
pub fn find_int64(w: &MemWindow, max_off: usize, skip: &Vec<usize>) -> (r: Option<usize>)
    requires
        max_off <= usize::MAX - 16,
    ensures
        match r {
            Some(o) => int64_scan(w.cells@, 0, max_off as int, skip@) == Some(o as int),
            None => int64_scan(w.cells@, 0, max_off as int, skip@) is None,
        },
{
    let mut off: usize = 0;
    while off < max_off
        invariant
            off <= max_off + 8,
            max_off <= usize::MAX - 16,
            int64_scan(w.cells@, 0, max_off as int, skip@) == int64_scan(w.cells@, off as int, max_off as int, skip@),
        decreases max_off + 8 - off,
    {
        let mut listed = false;
        let mut k: usize = 0;
        while k < skip.len()
            invariant
                k <= skip@.len(),
                listed == exists|j: int| 0 <= j < k && skip@[j] == off,
            decreases skip@.len() - k,
        {
            if skip[k] == off {
                listed = true;
            }
            k = k + 1;
        }
        assert(listed == skip@.contains(off));
        if listed || off < 8 {
            off = off + 8;
            continue;
        }
        let v = match win_le(w, off, 8) {
            Some(v) => v,
            None => {
                return None;
            },
        };
        if v > 0 && v < 100_000_000_000 {
            let next_ok = match win_le(w, off + 8, 8) {
                Some(n) => n <= 100_000_000_000,
                None => false,
            };
            let prev_ok = match win_le(w, off - 8, 8) {
                Some(p) => p <= 100_000_000_000,
                None => false,
            };
            if next_ok && prev_ok {
                return Some(off);
            }
        }
        off = off + 8;
    }
    None
}

/// A user id at `off`: a plausible id (see `plausible_id`) that does not look
/// like a user-space pointer.
pub open spec fn user_id_at(c: Seq<Option<u8>>, off: int) -> bool {
    win_value(c, off, 8) matches Some(v) && plausible_id(v) && (v < 0x10000 || v > 0x7fffffffffff)
}

/// The first 8-aligned offset below `limit` holding a user id.
pub fn scan_user_id(w: &MemWindow, limit: usize) -> (r: Option<usize>)
    requires
        limit <= usize::MAX - 8,
    ensures
        match r {
            Some(o) => first_hit(|off: int| user_id_at(w.cells@, off), 0, limit as int, 8) == Some(o as int),
            None => first_hit(|off: int| user_id_at(w.cells@, off), 0, limit as int, 8) is None,
        },
{
    let ghost p = |off: int| user_id_at(w.cells@, off);
    let mut off: usize = 0;
    while off < limit
        invariant
            off <= limit + 8,
            limit <= usize::MAX - 8,
            p == (|off: int| user_id_at(w.cells@, off)),
            first_hit(p, 0, limit as int, 8) == first_hit(p, off as int, limit as int, 8),
        decreases limit + 8 - off,
    {
        let hit = match win_le(w, off, 8) {
            Some(v) => v > 0 && v < 100_000_000_000 && (v < 0x10000 || v > 0x7fffffffffff),
            None => false,
        };
        assert(hit == p(off as int));
        if hit {
            return Some(off);
        }
        off = off + 8;
    }
    None
}

/// The first 8-aligned offset from `from` below `to` holding a user-space pointer.
pub fn scan_pointer(w: &MemWindow, from: usize, to: usize) -> (r: Option<usize>)
    requires
        to <= usize::MAX - 8,
    ensures
        match r {
            Some(o) => first_hit(|off: int| win_value(w.cells@, off, 8) matches Some(v) && 0x10000 <= v <= 0x7fffffffffff, from as int, to as int, 8) == Some(o as int),
            None => first_hit(|off: int| win_value(w.cells@, off, 8) matches Some(v) && 0x10000 <= v <= 0x7fffffffffff, from as int, to as int, 8) is None,
        },
{
    let ghost p = |off: int| win_value(w.cells@, off, 8) matches Some(v) && 0x10000 <= v <= 0x7fffffffffff;
    let mut off: usize = from;
    if from >= to {
        return None;
    }
    while off < to
        invariant
            from <= off <= to + 8,
            to <= usize::MAX - 8,
            p == (|off: int| win_value(w.cells@, off, 8) matches Some(v) && 0x10000 <= v <= 0x7fffffffffff),
            first_hit(p, from as int, to as int, 8) == first_hit(p, off as int, to as int, 8),
        decreases to + 8 - off,
    {
        let hit = match win_le(w, off, 8) {
            Some(v) => v >= 0x10000 && v <= 0x7fffffffffff,
            None => false,
        };
        assert(hit == p(off as int));
        if hit {
            return Some(off);
        }
        off = off + 8;
    }
    None
}

/// The slot at `off` holds a word of at least `0x10000` that is one of
/// `targets`.
pub open spec fn points_into(c: Seq<Option<u8>>, off: int, targets: Seq<u64>) -> bool {
    win_value(c, off, 8) matches Some(v) && v >= 0x10000 && targets.contains(v as u64)
}

/// The first 8-aligned offset below `limit` whose word is at least `0x10000`
/// and one of `targets`.
pub fn scan_pointer_to(w: &MemWindow, limit: usize, targets: &Vec<u64>) -> (r: Option<usize>)
    requires
        limit <= usize::MAX - 8,
    ensures
        match r {
            Some(o) => first_hit(|off: int| points_into(w.cells@, off, targets@), 0, limit as int, 8) == Some(o as int),
            None => first_hit(|off: int| points_into(w.cells@, off, targets@), 0, limit as int, 8) is None,
        },
{
    let ghost p = |off: int| points_into(w.cells@, off, targets@);
    let mut off: usize = 0;
    while off < limit
        invariant
            off <= limit + 8,
            limit <= usize::MAX - 8,
            p == (|off: int| points_into(w.cells@, off, targets@)),
            first_hit(p, 0, limit as int, 8) == first_hit(p, off as int, limit as int, 8),
        decreases limit + 8 - off,
    {
        let hit = match win_le(w, off, 8) {
            Some(v) => {
                let mut found = false;
                let mut k: usize = 0;
                while k < targets.len()
                    invariant
                        k <= targets@.len(),
                        found == exists|j: int| 0 <= j < k && targets@[j] == v,
                    decreases targets@.len() - k,
                {
                    if targets[k] == v {
                        found = true;
                    }
                    k = k + 1;
                }
                assert(found == targets@.contains(v));
                v >= 0x10000 && found
            },
            None => false,
        };
        assert(hit == p(off as int));
        if hit {
            return Some(off);
        }
        off = off + 8;
    }
    None
}

/// The offset at which the print routine is taken to start, scanning bytes
/// from the window start: a return instruction (`0xC3`) puts it one byte
/// before, a breakpoint filler (`0xCC`) at the byte itself.
pub open spec fn routine_mark(c: Seq<Option<u8>>, off: int) -> bool {
    win_value(c, off, 1) == Some(0xC3nat) || win_value(c, off, 1) == Some(0xCCnat)
}

/// Where the routine starts, as an offset from `origin` (the window start's
/// own offset): the first return or breakpoint byte below `limit` (see
/// `routine_mark`) gives the byte before a return and the breakpoint itself.
pub fn scan_routine_start(w: &MemWindow, limit: usize, origin: usize) -> (r: Option<usize>)
    requires
        origin >= 1,
        origin + limit <= usize::MAX,
    ensures
        match r {
            Some(e) => first_hit(|off: int| routine_mark(w.cells@, off), 0, limit as int, 1) matches Some(o)
                && e == origin + o - (if win_value(w.cells@, o, 1) == Some(0xC3nat) {
                    1int
                } else {
                    0int
                }),
            None => first_hit(|off: int| routine_mark(w.cells@, off), 0, limit as int, 1) is None,
        },
{
    let ghost p = |off: int| routine_mark(w.cells@, off);
    let mut off: usize = 0;
    while off < limit
        invariant
            off <= limit,
            origin >= 1,
            origin + limit <= usize::MAX,
            p == (|off: int| routine_mark(w.cells@, off)),
            first_hit(p, 0, limit as int, 1) == first_hit(p, off as int, limit as int, 1),
        decreases limit - off,
    {
        match win_le(w, off, 1) {
            Some(v) => {
                if v == 0xC3 {
                    return Some(origin + off - 1);
                }
                if v == 0xCC {
                    return Some(origin + off);
                }
            },
            None => {},
        }
        off = off + 1;
    }
    None
}

} // verus!
