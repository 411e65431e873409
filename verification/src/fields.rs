use vstd::prelude::*;

use crate::window::{enum_field_at, enum_field_check, first_hit, win_le, win_value, MemWindow};

verus! {

/// At `off` sits a byte from `allowed` whose aligned 32-bit word has it as low
/// byte and is below `bound` (an unreadable word rules the offset out).
pub open spec fn flag_field_at(c: Seq<Option<u8>>, off: int, allowed: Seq<u8>, bound: u32) -> bool {
    match win_value(c, off, 1) {
        None => false,
        Some(v) => {
            &&& allowed.contains(v as u8)
            &&& match win_value(c, off - off % 4, 4) {
                Some(w) => w % 256 == v && w < bound,
                None => false,
            }
        },
    }
}

/// The first offset below `limit` holding a flag byte (see `flag_field_at`).
pub fn scan_flag_field(w: &MemWindow, limit: usize, allowed: &Vec<u8>, bound: u32) -> (r: Option<usize>)
    ensures
        match r {
            Some(o) => first_hit(|off: int| flag_field_at(w.cells@, off, allowed@, bound), 0, limit as int, 1) == Some(o as int),
            None => first_hit(|off: int| flag_field_at(w.cells@, off, allowed@, bound), 0, limit as int, 1) is None,
        },
{
    let ghost p = |off: int| flag_field_at(w.cells@, off, allowed@, bound);
    let mut off: usize = 0;
    while off < limit
        invariant
            off <= limit,
            p == (|off: int| flag_field_at(w.cells@, off, allowed@, bound)),
            first_hit(p, 0, limit as int, 1) == first_hit(p, off as int, limit as int, 1),
        decreases limit - off,
    {
        let hit = match win_le(w, off, 1) {
            None => false,
            Some(v) => {
                proof {
                    crate::window::lemma_win_value_bound(w.cells@, off as int, 1);
                    reveal_with_fuel(crate::memory::pow256, 2);
                }
                let mut listed = false;
                let mut k: usize = 0;
                while k < allowed.len()
                    invariant
                        k <= allowed@.len(),
                        v < 256,
                        listed == exists|j: int| 0 <= j < k && allowed@[j] == v as u8,
                    decreases allowed@.len() - k,
                {
                    if allowed[k] as u64 == v {
                        listed = true;
                    }
                    k = k + 1;
                }
                assert(listed == allowed@.contains(v as u8));
                listed && match win_le(w, off - off % 4, 4) {
                    Some(word) => word % 256 == v && word < bound as u64,
                    None => false,
                }
            },
        };
        proof {
            if win_value(w.cells@, off as int, 1) is Some {
                crate::window::lemma_win_value_bound(w.cells@, off as int, 1);
                reveal_with_fuel(crate::memory::pow256, 2);
            }
        }
        assert(hit == p(off as int));
        if hit {
            return Some(off);
        }
        off = off + 1;
    }
    None
}

/// The number of the first `k` windows in which the byte at `off` is a
/// small-enum field (see `enum_field_at`; an unreadable word counts as zero).
pub open spec fn enum_votes(ws: Seq<MemWindow>, off: int, lo: u8, hi: u8, bound: u32, k: int) -> nat
    decreases k,
{
    if k <= 0 {
        0
    } else {
        enum_votes(ws, off, lo, hi, bound, k - 1) + if enum_field_at(ws[k - 1].cells@, off, lo, hi, bound, None, true) {
            1nat
        } else {
            0nat
        }
    }
}

/// The byte at `off` is a small-enum field in at least two of the windows.
pub open spec fn shared_enum_at(ws: Seq<MemWindow>, off: int, lo: u8, hi: u8, bound: u32) -> bool {
    enum_votes(ws, off, lo, hi, bound, ws.len() as int) >= 2
}

/// The first offset below `limit` that is a small-enum field in at least two
/// of the windows (the same object kind read at several addresses).
pub fn scan_shared_enum_field(ws: &Vec<MemWindow>, limit: usize, lo: u8, hi: u8, bound: u32) -> (r: Option<usize>)
    ensures
        match r {
            Some(o) => first_hit(|off: int| shared_enum_at(ws@, off, lo, hi, bound), 0, limit as int, 1) == Some(o as int),
            None => first_hit(|off: int| shared_enum_at(ws@, off, lo, hi, bound), 0, limit as int, 1) is None,
        },
{
    let ghost p = |off: int| shared_enum_at(ws@, off, lo, hi, bound);
    let mut off: usize = 0;
    while off < limit
        invariant
            off <= limit,
            p == (|off: int| shared_enum_at(ws@, off, lo, hi, bound)),
            first_hit(p, 0, limit as int, 1) == first_hit(p, off as int, limit as int, 1),
        decreases limit - off,
    {
        let mut votes: usize = 0;
        let mut i: usize = 0;
        while i < ws.len()
            invariant
                i <= ws@.len(),
                votes == enum_votes(ws@, off as int, lo, hi, bound, i as int),
                votes <= i,
            decreases ws@.len() - i,
        {
            if enum_field_check(&ws[i], off, lo, hi, bound, None, true) {
                votes = votes + 1;
            }
            i = i + 1;
        }
        let hit = votes >= 2;
        assert(hit == p(off as int));
        if hit {
            return Some(off);
        }
        off = off + 1;
    }
    None
}

/// The number of the first `k` windows in which the byte at `off` can be read.
pub open spec fn readable_count(ws: Seq<MemWindow>, off: int, k: int) -> nat
    decreases k,
{
    if k <= 0 {
        0
    } else {
        readable_count(ws, off, k - 1) + if win_value(ws[k - 1].cells@, off, 1) is Some {
            1nat
        } else {
            0nat
        }
    }
}

/// The byte at `off` is a boolean field: readable in at least two windows, and
/// 0 or 1 wherever it can be read.
pub open spec fn bool_field_at(ws: Seq<MemWindow>, off: int) -> bool {
    &&& readable_count(ws, off, ws.len() as int) >= 2
    &&& forall|i: int| 0 <= i < ws.len() ==> (#[trigger] win_value(ws[i].cells@, off, 1) matches Some(v) ==> v <= 1)
}

/// The number of boolean flags looked for.
pub const FLAG_COUNT: usize = 4;

/// After a flag found at `a - 1`: the next boolean fields before `end` are
/// taken too, until four flags are known.
pub open spec fn adjacent_flags(ws: Seq<MemWindow>, a: int, end: int, found: Seq<usize>) -> Seq<usize>
    decreases end - a,
{
    if found.len() >= 4 || a >= end {
        found
    } else if bool_field_at(ws, a) {
        adjacent_flags(ws, a + 1, end, found.push(a as usize))
    } else {
        adjacent_flags(ws, a + 1, end, found)
    }
}

/// The search for four boolean flags below `0x200`: offsets `skip_a` and
/// `skip_b` are passed over; each boolean field found is taken, and so are the
/// boolean fields in the seven bytes after it; the search ends once four are
/// known. Offsets may be taken more than once.
pub open spec fn flag_scan(ws: Seq<MemWindow>, skip_a: usize, skip_b: usize, off: int, found: Seq<usize>) -> Seq<usize>
    decreases 0x200 - off,
{
    if found.len() >= 4 || off >= 0x200 {
        found
    } else if off == skip_a || off == skip_b || !bool_field_at(ws, off) {
        flag_scan(ws, skip_a, skip_b, off + 1, found)
    } else {
        flag_scan(ws, skip_a, skip_b, off + 1, adjacent_flags(ws, off + 1, off + 8, found.push(off as usize)))
    }
}

proof fn lemma_adjacent_len(ws: Seq<MemWindow>, a: int, end: int, found: Seq<usize>)
    requires
        found.len() <= 4,
    ensures
        adjacent_flags(ws, a, end, found).len() <= 4,
        adjacent_flags(ws, a, end, found).len() >= found.len(),
    decreases end - a,
{
    if found.len() >= 4 || a >= end {
    } else if bool_field_at(ws, a) {
        lemma_adjacent_len(ws, a + 1, end, found.push(a as usize));
    } else {
        lemma_adjacent_len(ws, a + 1, end, found);
    }
}

proof fn lemma_adjacent_fields(ws: Seq<MemWindow>, a: int, end: int, found: Seq<usize>)
    requires
        forall|i: int| 0 <= i < found.len() ==> bool_field_at(ws, #[trigger] found[i] as int),
        a >= 0,
        end <= 0x1000,
    ensures
        forall|i: int| 0 <= i < adjacent_flags(ws, a, end, found).len()
            ==> bool_field_at(ws, #[trigger] adjacent_flags(ws, a, end, found)[i] as int),
    decreases end - a,
{
    if found.len() >= 4 || a >= end {
        assert(adjacent_flags(ws, a, end, found) == found);
    } else if bool_field_at(ws, a) {
        let f1 = found.push(a as usize);
        assert(adjacent_flags(ws, a, end, found) == adjacent_flags(ws, a + 1, end, f1));
        assert(f1[found.len() as int] as int == a);
        assert forall|i: int| 0 <= i < f1.len() implies bool_field_at(ws, #[trigger] f1[i] as int) by {
            if i < found.len() {
                assert(f1[i] == found[i]);
            }
        }
        lemma_adjacent_fields(ws, a + 1, end, f1);
    } else {
        assert(adjacent_flags(ws, a, end, found) == adjacent_flags(ws, a + 1, end, found));
        lemma_adjacent_fields(ws, a + 1, end, found);
    }
}

proof fn lemma_flag_fields(ws: Seq<MemWindow>, skip_a: usize, skip_b: usize, off: int, found: Seq<usize>)
    requires
        forall|i: int| 0 <= i < found.len() ==> bool_field_at(ws, #[trigger] found[i] as int),
        off >= 0,
    ensures
        forall|i: int| 0 <= i < flag_scan(ws, skip_a, skip_b, off, found).len()
            ==> bool_field_at(ws, #[trigger] flag_scan(ws, skip_a, skip_b, off, found)[i] as int),
    decreases 0x200 - off,
{
    if found.len() >= 4 || off >= 0x200 {
        assert(flag_scan(ws, skip_a, skip_b, off, found) == found);
    } else if off == skip_a || off == skip_b || !bool_field_at(ws, off) {
        assert(flag_scan(ws, skip_a, skip_b, off, found) == flag_scan(ws, skip_a, skip_b, off + 1, found));
        lemma_flag_fields(ws, skip_a, skip_b, off + 1, found);
    } else {
        let f1 = found.push(off as usize);
        assert(flag_scan(ws, skip_a, skip_b, off, found) == flag_scan(ws, skip_a, skip_b, off + 1, adjacent_flags(ws, off + 1, off + 8, f1)));
        assert(f1[found.len() as int] as int == off);
        assert forall|i: int| 0 <= i < f1.len() implies bool_field_at(ws, #[trigger] f1[i] as int) by {
            if i < found.len() {
                assert(f1[i] == found[i]);
            }
        }
        lemma_adjacent_fields(ws, off + 1, off + 8, f1);
        lemma_flag_fields(ws, skip_a, skip_b, off + 1, adjacent_flags(ws, off + 1, off + 8, f1));
    }
}

/// Every offset the flag search reports is a boolean field in the windows.
pub proof fn law_flags_are_boolean(ws: Seq<MemWindow>, skip_a: usize, skip_b: usize)
    ensures
        forall|i: int| 0 <= i < flag_scan(ws, skip_a, skip_b, 0, Seq::empty()).len()
            ==> bool_field_at(ws, #[trigger] flag_scan(ws, skip_a, skip_b, 0, Seq::empty())[i] as int),
{
    lemma_flag_fields(ws, skip_a, skip_b, 0, Seq::empty());
}

/// Whether the byte at `off` is a boolean field (see `bool_field_at`).
pub fn bool_field_check(ws: &Vec<MemWindow>, off: usize) -> (r: bool)
    ensures
        r == bool_field_at(ws@, off as int),
{
    let mut readable: usize = 0;
    let mut all_bool = true;
    let mut i: usize = 0;
    while i < ws.len()
        invariant
            i <= ws@.len(),
            readable == readable_count(ws@, off as int, i as int),
            readable <= i,
            all_bool == forall|j: int| 0 <= j < i ==> (#[trigger] win_value(ws@[j].cells@, off as int, 1) matches Some(v) ==> v <= 1),
        decreases ws@.len() - i,
    {
        match win_le(&ws[i], off, 1) {
            Some(v) => {
                readable = readable + 1;
                if v > 1 {
                    all_bool = false;
                }
            },
            None => {},
        }
        i = i + 1;
    }
    readable >= 2 && all_bool
}

/// The offsets of the four boolean flags (see `flag_scan`), in the order they
/// were found; fewer when the search ends first.
pub fn bool_flag_offsets(ws: &Vec<MemWindow>, skip_a: usize, skip_b: usize) -> (r: Vec<usize>)
    ensures
        r@ == flag_scan(ws@, skip_a, skip_b, 0, Seq::empty()),
        r@.len() <= 4,
{
    let mut found: Vec<usize> = Vec::new();
    let mut off: usize = 0;
    while off < 0x200
        invariant
            off <= 0x200,
            found@.len() <= 4,
            flag_scan(ws@, skip_a, skip_b, 0, Seq::empty()) == flag_scan(ws@, skip_a, skip_b, off as int, found@),
        ensures
            found@.len() >= 4 || off >= 0x200,
            found@.len() <= 4,
            flag_scan(ws@, skip_a, skip_b, 0, Seq::empty()) == flag_scan(ws@, skip_a, skip_b, off as int, found@),
        decreases 0x200 - off,
    {
        if found.len() >= FLAG_COUNT {
            break;
        }
        if off == skip_a || off == skip_b || !bool_field_check(ws, off) {
            off = off + 1;
            continue;
        }
        found.push(off);
        let ghost start = found@;
        let mut a: usize = off + 1;
        while a < off + 8
            invariant
                off < 0x200,
                off + 1 <= a <= off + 8,
                start.len() <= found@.len() <= 4,
                adjacent_flags(ws@, off + 1, off + 8, start) == adjacent_flags(ws@, a as int, off + 8, found@),
            ensures
                found@.len() >= 4 || a >= off + 8,
                start.len() <= found@.len() <= 4,
                adjacent_flags(ws@, off + 1, off + 8, start) == adjacent_flags(ws@, a as int, off + 8, found@),
            decreases off + 8 - a,
        {
            if found.len() >= FLAG_COUNT {
                break;
            }
            if bool_field_check(ws, a) {
                found.push(a);
            }
            a = a + 1;
        }
        proof {
            lemma_adjacent_len(ws@, a as int, off + 8, found@);
        }
        off = off + 1;
    }
    found
}

/// The names given to the flags, in the order they are found.
pub open spec fn flag_names() -> Seq<Seq<char>> {
    seq!["Anchored"@, "CanCollide"@, "CanQuery"@, "CanTouch"@]
}

/// The name of the `i`-th flag found.
pub fn flag_name(i: usize) -> (s: &'static str)
    requires
        i < 4,
    ensures
        s@ == flag_names()[i as int],
{
    if i == 0 {
        "Anchored"
    } else if i == 1 {
        "CanCollide"
    } else if i == 2 {
        "CanQuery"
    } else {
        "CanTouch"
    }
}

/// The byte at window index `i`, or `missing` when it cannot be read.
pub open spec fn byte_or(c: Seq<Option<u8>>, i: int, missing: u8) -> nat {
    match win_value(c, i, 1) {
        Some(v) => v,
        None => missing as nat,
    }
}

/// For a window that starts one byte before an object: the object's byte at
/// offset `o` lies in `[lo, hi]`, `o` is none of `avoid`, and the bytes just
/// before and after it are both above `gap` (a byte that cannot be read
/// counting as `missing`).
pub open spec fn isolated_byte_at(c: Seq<Option<u8>>, o: int, lo: u8, hi: u8, gap: u8, missing: u8, avoid: Seq<usize>) -> bool {
    &&& win_value(c, o + 1, 1) matches Some(v) && lo <= v <= hi
    &&& forall|k: int| 0 <= k < avoid.len() ==> avoid[k] != o
    &&& byte_or(c, o, missing) > gap
    &&& byte_or(c, o + 2, missing) > gap
}

/// The first object offset below `limit` holding an isolated byte (see
/// `isolated_byte_at`); the window must start one byte before the object.
pub fn scan_isolated_byte(
    w: &MemWindow,
    limit: usize,
    lo: u8,
    hi: u8,
    gap: u8,
    missing: u8,
    avoid: &Vec<usize>,
) -> (r: Option<usize>)
    requires
        limit <= usize::MAX - 2,
    ensures
        match r {
            Some(o) => first_hit(|off: int| isolated_byte_at(w.cells@, off, lo, hi, gap, missing, avoid@), 0, limit as int, 1) == Some(o as int),
            None => first_hit(|off: int| isolated_byte_at(w.cells@, off, lo, hi, gap, missing, avoid@), 0, limit as int, 1) is None,
        },
{
    let ghost p = |off: int| isolated_byte_at(w.cells@, off, lo, hi, gap, missing, avoid@);
    let mut off: usize = 0;
    while off < limit
        invariant
            off <= limit,
            limit <= usize::MAX - 2,
            p == (|off: int| isolated_byte_at(w.cells@, off, lo, hi, gap, missing, avoid@)),
            first_hit(p, 0, limit as int, 1) == first_hit(p, off as int, limit as int, 1),
        decreases limit - off,
    {
        let in_range = match win_le(w, off + 1, 1) {
            Some(v) => lo as u64 <= v && v <= hi as u64,
            None => false,
        };
        let mut clear = true;
        let mut k: usize = 0;
        while k < avoid.len()
            invariant
                k <= avoid@.len(),
                clear == forall|j: int| 0 <= j < k ==> avoid@[j] != off,
            decreases avoid@.len() - k,
        {
            if avoid[k] == off {
                clear = false;
            }
            k = k + 1;
        }
        let before = match win_le(w, off, 1) {
            Some(v) => v,
            None => missing as u64,
        };
        let after = match win_le(w, off + 2, 1) {
            Some(v) => v,
            None => missing as u64,
        };
        let hit = in_range && clear && before > gap as u64 && after > gap as u64;
        assert(hit == p(off as int));
        if hit {
            return Some(off);
        }
        off = off + 1;
    }
    None
}

/// Some other window holds a readable byte at the same place that differs
/// from the first window's (the windows start one byte before their objects).
pub open spec fn byte_varies(ws: Seq<MemWindow>, o: int) -> bool {
    exists|k: int| 1 <= k < ws.len() && #[trigger] differs_at(ws[0].cells@, ws[k].cells@, o)
}

/// `b` holds a readable byte at `o + 1` that `a` does not hold there.
pub open spec fn differs_at(a: Seq<Option<u8>>, b: Seq<Option<u8>>, o: int) -> bool {
    win_value(b, o + 1, 1) matches Some(x) && win_value(a, o + 1, 1) != Some(x)
}

/// An isolated byte in the first window (with no offsets avoided) that, when
/// there are other windows, is not the same in all of them.
pub open spec fn varying_isolated_byte_at(ws: Seq<MemWindow>, o: int, lo: u8, hi: u8, gap: u8, missing: u8) -> bool {
    isolated_byte_at(ws[0].cells@, o, lo, hi, gap, missing, Seq::empty()) && (ws.len() <= 1 || byte_varies(ws, o))
}

/// The first object offset below `limit` holding such a byte (see
/// `varying_isolated_byte_at`).
pub fn scan_varying_isolated_byte(ws: &Vec<MemWindow>, limit: usize, lo: u8, hi: u8, gap: u8, missing: u8) -> (r: Option<
    usize,
>)
    requires
        ws@.len() >= 1,
        limit <= usize::MAX - 2,
    ensures
        match r {
            Some(o) => first_hit(|off: int| varying_isolated_byte_at(ws@, off, lo, hi, gap, missing), 0, limit as int, 1)
                == Some(o as int),
            None => first_hit(|off: int| varying_isolated_byte_at(ws@, off, lo, hi, gap, missing), 0, limit as int, 1) is None,
        },
{
    let ghost p = |off: int| varying_isolated_byte_at(ws@, off, lo, hi, gap, missing);
    let w = &ws[0];
    let mut off: usize = 0;
    while off < limit
        invariant
            off <= limit,
            limit <= usize::MAX - 2,
            ws@.len() >= 1,
            *w == ws@[0],
            p == (|off: int| varying_isolated_byte_at(ws@, off, lo, hi, gap, missing)),
            first_hit(p, 0, limit as int, 1) == first_hit(p, off as int, limit as int, 1),
        decreases limit - off,
    {
        let own = win_le(w, off + 1, 1);
        let in_range = match own {
            Some(v) => lo as u64 <= v && v <= hi as u64,
            None => false,
        };
        let before = match win_le(w, off, 1) {
            Some(v) => v,
            None => missing as u64,
        };
        let after = match win_le(w, off + 2, 1) {
            Some(v) => v,
            None => missing as u64,
        };
        let isolated = in_range && before > gap as u64 && after > gap as u64;
        assert(isolated == isolated_byte_at(ws@[0].cells@, off as int, lo, hi, gap, missing, Seq::empty()));
        let mut varies = false;
        let mut k: usize = 1;
        while k < ws.len()
            invariant
                1 <= k <= ws@.len(),
                *w == ws@[0],
                off < limit,
                limit <= usize::MAX - 2,
                match own {
                    Some(v) => win_value(w.cells@, off + 1, 1) == Some(v as nat),
                    None => win_value(w.cells@, off + 1, 1) is None,
                },
                varies == exists|j: int| 1 <= j < k && #[trigger] differs_at(ws@[0].cells@, ws@[j].cells@, off as int),
            decreases ws@.len() - k,
        {
            let other = win_le(&ws[k], off + 1, 1);
            assert(differs_at(ws@[0].cells@, ws@[k as int].cells@, off as int) == (match other {
                Some(x) => own != Some(x),
                None => false,
            }));
            match other {
                Some(x) => {
                    let differs = match own {
                        Some(v) => v != x,
                        None => true,
                    };
                    if differs {
                        varies = true;
                    }
                },
                None => {},
            }
            k = k + 1;
        }
        let hit = isolated && (ws.len() <= 1 || varies);
        assert(hit == p(off as int));
        if hit {
            return Some(off);
        }
        off = off + 1;
    }
    None
}

} // verus!
