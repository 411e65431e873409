use vstd::prelude::*;

use crate::window::{abs_int, first_hit, lemma_win_value_bound, signed_of, win_le, win_value, MemWindow};

verus! {

/// How a 32-bit field is recognised: its value lies in `[lo, hi]`; when
/// `check_prev` (`check_next`) is set, the 32-bit value just before (after)
/// it must be above `neighbour_min`, a value that cannot be read counting as
/// `missing`.
#[derive(Clone, Copy)]
pub struct U32Rule {
    pub lo: u32,
    pub hi: u32,
    pub check_prev: bool,
    pub check_next: bool,
    pub neighbour_min: u32,
    pub missing: u32,
}

pub open spec fn u32_or(c: Seq<Option<u8>>, i: int, missing: u32) -> nat {
    match win_value(c, i, 4) {
        Some(v) => v,
        None => missing as nat,
    }
}

/// For a window whose index `origin` is the object's offset zero: the object's
/// 32-bit value at `off` follows the rule.
pub open spec fn u32_field_at(c: Seq<Option<u8>>, origin: int, off: int, r: U32Rule) -> bool {
    &&& win_value(c, origin + off, 4) matches Some(v) && r.lo <= v <= r.hi
    &&& r.check_prev ==> u32_or(c, origin + off - 4, r.missing) > r.neighbour_min
    &&& r.check_next ==> u32_or(c, origin + off + 4, r.missing) > r.neighbour_min
}

/// The first 4-aligned object offset below `limit` holding a field that
/// follows the rule (see `u32_field_at`).
pub fn scan_u32_field(w: &MemWindow, origin: usize, limit: usize, r: U32Rule) -> (res: Option<usize>)
    requires
        origin >= 4,
        origin + limit + 8 <= usize::MAX,
    ensures
        match res {
            Some(o) => first_hit(|off: int| u32_field_at(w.cells@, origin as int, off, r), 0, limit as int, 4) == Some(o as int),
            None => first_hit(|off: int| u32_field_at(w.cells@, origin as int, off, r), 0, limit as int, 4) is None,
        },
{
    let ghost p = |off: int| u32_field_at(w.cells@, origin as int, off, r);
    let mut off: usize = 0;
    while off < limit
        invariant
            off <= limit + 4,
            origin >= 4,
            origin + limit + 8 <= usize::MAX,
            p == (|off: int| u32_field_at(w.cells@, origin as int, off, r)),
            first_hit(p, 0, limit as int, 4) == first_hit(p, off as int, limit as int, 4),
        decreases limit + 4 - off,
    {
        let at = origin + off;
        let hit = match win_le(w, at, 4) {
            Some(v) => {
                let prev_ok = if r.check_prev {
                    let pv = match win_le(w, at - 4, 4) {
                        Some(x) => x,
                        None => r.missing as u64,
                    };
                    pv > r.neighbour_min as u64
                } else {
                    true
                };
                let next_ok = if r.check_next {
                    let nv = match win_le(w, at + 4, 4) {
                        Some(x) => x,
                        None => r.missing as u64,
                    };
                    nv > r.neighbour_min as u64
                } else {
                    true
                };
                r.lo as u64 <= v && v <= r.hi as u64 && prev_ok && next_ok
            },
            None => false,
        };
        assert(hit == p(off as int));
        if hit {
            return Some(off);
        }
        off = off + 4;
    }
    None
}

/// A signed 64-bit value in `[0, 10^11]`, taken from its unsigned bits.
pub open spec fn id_range(v: nat) -> bool {
    v <= 100_000_000_000
}

/// For a window whose index `origin` is the object's offset zero: a plausible
/// id (see `crate::window::plausible_id`) at `off` whose neighbours eight bytes
/// before and after are both outside `[0, 10^11]` (an unreadable neighbour
/// counts as -1), and `off` is none of `skip`.
pub open spec fn lone_id_at(c: Seq<Option<u8>>, origin: int, off: int, skip: Seq<usize>) -> bool {
    &&& !skip.contains(off as usize)
    &&& win_value(c, origin + off, 8) matches Some(v) && crate::window::plausible_id(v)
    &&& !(win_value(c, origin + off - 8, 8) matches Some(p) && id_range(p))
    &&& !(win_value(c, origin + off + 8, 8) matches Some(n) && id_range(n))
}

/// The first 8-aligned object offset below `limit` holding a lone id (see
/// `lone_id_at`).
pub fn scan_lone_id(w: &MemWindow, origin: usize, limit: usize, skip: &Vec<usize>) -> (res: Option<usize>)
    requires
        origin >= 8,
        origin + limit + 16 <= usize::MAX,
    ensures
        match res {
            Some(o) => first_hit(|off: int| lone_id_at(w.cells@, origin as int, off, skip@), 0, limit as int, 8) == Some(o as int),
            None => first_hit(|off: int| lone_id_at(w.cells@, origin as int, off, skip@), 0, limit as int, 8) is None,
        },
{
    let ghost p = |off: int| lone_id_at(w.cells@, origin as int, off, skip@);
    let mut off: usize = 0;
    while off < limit
        invariant
            off <= limit + 8,
            origin >= 8,
            origin + limit + 16 <= usize::MAX,
            p == (|off: int| lone_id_at(w.cells@, origin as int, off, skip@)),
            first_hit(p, 0, limit as int, 8) == first_hit(p, off as int, limit as int, 8),
        decreases limit + 8 - off,
    {
        let mut listed = false;
        let mut k: usize = 0;
        while k < skip.len()
            invariant
                k <= skip@.len(),
                listed == exists|j: int| 0 <= j < k && skip@[j] == off,
            decreases skip@.len() - k,
        {
            if skip[k] == off {
                listed = true;
            }
            k = k + 1;
        }
        assert(listed == skip@.contains(off));
        let at = origin + off;
        let hit = !listed && match win_le(w, at, 8) {
            Some(v) => {
                let prev_in = match win_le(w, at - 8, 8) {
                    Some(x) => x <= 100_000_000_000,
                    None => false,
                };
                let next_in = match win_le(w, at + 8, 8) {
                    Some(x) => x <= 100_000_000_000,
                    None => false,
                };
                v > 0 && v < 100_000_000_000 && !prev_in && !next_in
            },
            None => false,
        };
        assert(hit == p(off as int));
        if hit {
            return Some(off);
        }
        off = off + 8;
    }
    None
}

/// A 64-bit value at `off` with `lo < v < hi`, where `off` is none of `skip`.
pub open spec fn u64_between_at(c: Seq<Option<u8>>, off: int, lo: u64, hi: u64, skip: Seq<usize>) -> bool {
    !skip.contains(off as usize) && (win_value(c, off, 8) matches Some(v) && lo < v < hi)
}

/// The first 8-aligned offset below `limit` holding a 64-bit value strictly
/// between `lo` and `hi` (see `u64_between_at`).
pub fn scan_u64_between(w: &MemWindow, limit: usize, lo: u64, hi: u64, skip: &Vec<usize>) -> (res: Option<usize>)
    requires
        limit <= usize::MAX - 8,
    ensures
        match res {
            Some(o) => first_hit(|off: int| u64_between_at(w.cells@, off, lo, hi, skip@), 0, limit as int, 8) == Some(o as int),
            None => first_hit(|off: int| u64_between_at(w.cells@, off, lo, hi, skip@), 0, limit as int, 8) is None,
        },
{
    let ghost p = |off: int| u64_between_at(w.cells@, off, lo, hi, skip@);
    let mut off: usize = 0;
    while off < limit
        invariant
            off <= limit + 8,
            limit <= usize::MAX - 8,
            p == (|off: int| u64_between_at(w.cells@, off, lo, hi, skip@)),
            first_hit(p, 0, limit as int, 8) == first_hit(p, off as int, limit as int, 8),
        decreases limit + 8 - off,
    {
        let mut listed = false;
        let mut k: usize = 0;
        while k < skip.len()
            invariant
                k <= skip@.len(),
                listed == exists|j: int| 0 <= j < k && skip@[j] == off,
            decreases skip@.len() - k,
        {
            if skip[k] == off {
                listed = true;
            }
            k = k + 1;
        }
        assert(listed == skip@.contains(off));
        let hit = !listed && match win_le(w, off, 8) {
            Some(v) => lo < v && v < hi,
            None => false,
        };
        assert(hit == p(off as int));
        if hit {
            return Some(off);
        }
        off = off + 8;
    }
    None
}

/// A star count: a 16-bit value strictly between 100 and 10000 whose aligned
/// 32-bit word is below 100000 (an unreadable word counting as zero).
pub open spec fn star_count_at(c: Seq<Option<u8>>, off: int) -> bool {
    &&& win_value(c, off, 2) matches Some(v) && 100 < v < 10000
    &&& match win_value(c, off - off % 4, 4) {
        Some(w) => w < 100000,
        None => true,
    }
}

/// The first 2-aligned offset below `limit` holding a star count.
pub fn scan_star_count(w: &MemWindow, limit: usize) -> (res: Option<usize>)
    requires
        limit <= usize::MAX - 2,
    ensures
        match res {
            Some(o) => first_hit(|off: int| star_count_at(w.cells@, off), 0, limit as int, 2) == Some(o as int),
            None => first_hit(|off: int| star_count_at(w.cells@, off), 0, limit as int, 2) is None,
        },
{
    let ghost p = |off: int| star_count_at(w.cells@, off);
    let mut off: usize = 0;
    while off < limit
        invariant
            off <= limit + 2,
            limit <= usize::MAX - 2,
            p == (|off: int| star_count_at(w.cells@, off)),
            first_hit(p, 0, limit as int, 2) == first_hit(p, off as int, limit as int, 2),
        decreases limit + 2 - off,
    {
        let hit = match win_le(w, off, 2) {
            Some(v) => 100 < v && v < 10000 && match win_le(w, off - off % 4, 4) {
                Some(x) => x < 100000,
                None => true,
            },
            None => false,
        };
        assert(hit == p(off as int));
        if hit {
            return Some(off);
        }
        off = off + 2;
    }
    None
}

pub open spec fn byte_at_or(c: Seq<Option<u8>>, i: int, missing: nat) -> nat {
    match win_value(c, i, 1) {
        Some(v) => v,
        None => missing,
    }
}

/// A looped flag: a 0 followed by a 1, or a 1 followed by a 0 or a 1 (an
/// unreadable follower counting as 2).
pub open spec fn looped_at(c: Seq<Option<u8>>, off: int) -> bool {
    win_value(c, off, 1) matches Some(v) && ((v == 0 && byte_at_or(c, off + 1, 2) == 1) || (v == 1 && byte_at_or(c, off + 1, 2) <= 1))
}

/// The first offset below `limit` holding the looped flag.
pub fn scan_looped(w: &MemWindow, limit: usize) -> (res: Option<usize>)
    requires
        limit < usize::MAX,
    ensures
        match res {
            Some(o) => first_hit(|off: int| looped_at(w.cells@, off), 0, limit as int, 1) == Some(o as int),
            None => first_hit(|off: int| looped_at(w.cells@, off), 0, limit as int, 1) is None,
        },
{
    let ghost p = |off: int| looped_at(w.cells@, off);
    let mut off: usize = 0;
    while off < limit
        invariant
            off <= limit < usize::MAX,
            p == (|off: int| looped_at(w.cells@, off)),
            first_hit(p, 0, limit as int, 1) == first_hit(p, off as int, limit as int, 1),
        decreases limit - off,
    {
        let hit = match win_le(w, off, 1) {
            Some(v) => {
                let next = match win_le(w, off + 1, 1) {
                    Some(x) => x,
                    None => 2,
                };
                (v == 0 && next == 1) || (v == 1 && next <= 1)
            },
            None => false,
        };
        assert(hit == p(off as int));
        if hit {
            return Some(off);
        }
        off = off + 1;
    }
    None
}

/// A second flag: a 0 or 1 more than one byte away from `looped` (compared as
/// signed offsets), followed by a readable 0 or 1.
pub open spec fn second_flag_at(c: Seq<Option<u8>>, off: int, looped: usize) -> bool {
    &&& win_value(c, off, 1) matches Some(v) && v <= 1
    &&& abs_int(off - signed_of(looped)) > 1
    &&& win_value(c, off + 1, 1) matches Some(n) && n <= 1
}

/// The first offset below `limit` holding a second flag (see `second_flag_at`).
pub fn scan_second_flag(w: &MemWindow, limit: usize, looped: usize) -> (res: Option<usize>)
    requires
        limit < usize::MAX,
    ensures
        match res {
            Some(o) => first_hit(|off: int| second_flag_at(w.cells@, off, looped), 0, limit as int, 1) == Some(o as int),
            None => first_hit(|off: int| second_flag_at(w.cells@, off, looped), 0, limit as int, 1) is None,
        },
{
    let ghost p = |off: int| second_flag_at(w.cells@, off, looped);
    let mut off: usize = 0;
    while off < limit
        invariant
            off <= limit < usize::MAX,
            p == (|off: int| second_flag_at(w.cells@, off, looped)),
            first_hit(p, 0, limit as int, 1) == first_hit(p, off as int, limit as int, 1),
        decreases limit - off,
    {
        let far = crate::window::signed_distance(off, looped) > 1;
        let hit = match win_le(w, off, 1) {
            Some(v) => v <= 1 && far && match win_le(w, off + 1, 1) {
                Some(n) => n <= 1,
                None => false,
            },
            None => false,
        };
        assert(hit == p(off as int));
        if hit {
            return Some(off);
        }
        off = off + 1;
    }
    None
}

/// The number of the first `k` windows whose byte at `off` is `value`.
pub open spec fn byte_matches(ws: Seq<MemWindow>, off: int, value: u8, k: int) -> nat
    decreases k,
{
    if k <= 0 {
        0
    } else {
        byte_matches(ws, off, value, k - 1) + if win_value(ws[k - 1].cells@, off, 1) == Some(value as nat) {
            1nat
        } else {
            0nat
        }
    }
}

/// Every one of at least two windows holds `value` at `off`.
pub open spec fn common_byte_at(ws: Seq<MemWindow>, off: int, value: u8) -> bool {
    ws.len() >= 2 && byte_matches(ws, off, value, ws.len() as int) == ws.len()
}

/// The first offset below `limit` at which every window (at least two) holds
/// `value`.
pub fn scan_common_byte(ws: &Vec<MemWindow>, limit: usize, value: u8) -> (res: Option<usize>)
    ensures
        match res {
            Some(o) => first_hit(|off: int| common_byte_at(ws@, off, value), 0, limit as int, 1) == Some(o as int),
            None => first_hit(|off: int| common_byte_at(ws@, off, value), 0, limit as int, 1) is None,
        },
{
    let ghost p = |off: int| common_byte_at(ws@, off, value);
    let mut off: usize = 0;
    while off < limit
        invariant
            off <= limit,
            p == (|off: int| common_byte_at(ws@, off, value)),
            first_hit(p, 0, limit as int, 1) == first_hit(p, off as int, limit as int, 1),
        decreases limit - off,
    {
        let mut count: usize = 0;
        let mut i: usize = 0;
        while i < ws.len()
            invariant
                i <= ws@.len(),
                count == byte_matches(ws@, off as int, value, i as int),
                count <= i,
            decreases ws@.len() - i,
        {
            match win_le(&ws[i], off, 1) {
                Some(v) => {
                    if v == value as u64 {
                        count = count + 1;
                    }
                },
                None => {},
            }
            i = i + 1;
        }
        let hit = ws.len() >= 2 && count == ws.len();
        assert(hit == p(off as int));
        if hit {
            return Some(off);
        }
        off = off + 1;
    }
    None
}

} // verus!
