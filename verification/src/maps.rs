use vstd::prelude::*;
use vstd::utf8::{decode_utf8, encode_utf8, valid_utf8};

use crate::memory::{lossy_string, slice_prefix, utf8_lossy};
use crate::text::{bytes_contain, str_contains, str_eq};

verus! {

/// One mapping of the target's address space.
pub struct MemRegion {
    pub start: usize,
    pub end: usize,
    pub perms: String,
    pub path: String,
}

/// A parsed line of a process's memory map: the mapping and, when it parsed,
/// the file offset field.
pub struct MapsLine {
    pub region: MemRegion,
    pub offset: Option<usize>,
}

pub open spec fn hex_digit(b: u8) -> Option<nat> {
    if 48 <= b <= 57 {
        Some((b - 48) as nat)
    } else if 97 <= b <= 102 {
        Some((b - 87) as nat)
    } else if 65 <= b <= 70 {
        Some((b - 55) as nat)
    } else {
        None
    }
}

pub open spec fn all_hex(s: Seq<u8>) -> bool {
    forall|i: int| 0 <= i < s.len() ==> (#[trigger] hex_digit(s[i])) is Some
}

pub open spec fn hex_run_value(s: Seq<u8>) -> nat
    decreases s.len(),
{
    if s.len() == 0 {
        0
    } else {
        hex_run_value(s.drop_last()) * 16 + match hex_digit(s.last()) {
            Some(d) => d,
            None => 0,
        }
    }
}

/// What `usize::from_str_radix(text, 16)` gives: an optional `+`, then one or
/// more hexadecimal digits of either case, with a value that fits.
pub open spec fn parse_hex(s: Seq<u8>) -> Option<usize> {
    let d = if s.len() > 0 && s[0] == 43 {
        s.drop_first()
    } else {
        s
    };
    if d.len() == 0 || !all_hex(d) || hex_run_value(d) > usize::MAX {
        None
    } else {
        Some(hex_run_value(d) as usize)
    }
}

proof fn lemma_hex_mono(s: Seq<u8>, k: int)
    requires
        0 <= k <= s.len(),
    ensures
        hex_run_value(s.subrange(0, k)) <= hex_run_value(s),
    decreases s.len() - k,
{
    if k < s.len() {
        lemma_hex_mono(s, k + 1);
        assert(s.subrange(0, k + 1).drop_last() =~= s.subrange(0, k));
    } else {
        assert(s.subrange(0, k) =~= s);
    }
}

fn hex_digit_exec(b: u8) -> (r: Option<usize>)
    ensures
        match r {
            Some(v) => hex_digit(b) == Some(v as nat),
            None => hex_digit(b) is None,
        },
{
    if b >= 48 && b <= 57 {
        Some((b - 48) as usize)
    } else if b >= 97 && b <= 102 {
        Some((b - 87) as usize)
    } else if b >= 65 && b <= 70 {
        Some((b - 55) as usize)
    } else {
        None
    }
}

/// Parses `b[from..to]` as `usize::from_str_radix(_, 16)` does.
pub fn parse_hex_range(b: &[u8], from: usize, to: usize) -> (r: Option<usize>)
    requires
        from <= to <= b@.len(),
    ensures
        r == parse_hex(b@.subrange(from as int, to as int)),
{
    let ghost s = b@.subrange(from as int, to as int);
    let mut i = from;
    if from < to && b[from] == 43 {
        i = from + 1;
    }
    let ghost d = b@.subrange(i as int, to as int);
    assert(d =~= (if s.len() > 0 && s[0] == 43 { s.drop_first() } else { s }));
    if i == to {
        return None;
    }
    let start = i;
    let mut acc: usize = 0;
    assert(d.subrange(0, 0) =~= Seq::<u8>::empty());
    while i < to
        invariant
            start <= i <= to <= b@.len(),
            start < to,
            s == b@.subrange(from as int, to as int),
            d == (if s.len() > 0 && s[0] == 43 { s.drop_first() } else { s }),
            d == b@.subrange(start as int, to as int),
            acc == hex_run_value(d.subrange(0, i - start)),
            all_hex(d.subrange(0, i - start)),
        decreases to - i,
    {
        let dv = hex_digit_exec(b[i]);
        match dv {
            None => {
                assert(hex_digit(d[i - start]) is None);
                return None;
            },
            Some(v) => {
                let ghost pre = d.subrange(0, i - start);
                let ghost next = d.subrange(0, i - start + 1);
                assert(next.drop_last() =~= pre);
                assert(next.last() == b@[i as int]);
                if acc > (usize::MAX - v) / 16 {
                    proof {
                        assert(hex_run_value(next) > usize::MAX) by (nonlinear_arith)
                            requires
                                hex_run_value(next) == acc * 16 + v,
                                acc > (usize::MAX - v) / 16,
                                v < 16,
                        ;
                        lemma_hex_mono(d, i - start + 1);
                    }
                    return None;
                }
                acc = acc * 16 + v;
                assert(all_hex(next)) by {
                    assert forall|j: int| 0 <= j < next.len() implies (#[trigger] hex_digit(next[j])) is Some by {
                        if j < pre.len() {
                            assert(next[j] == pre[j]);
                        }
                    }
                }
            },
        }
        i = i + 1;
    }
    assert(d.subrange(0, to - start) =~= d);
    Some(acc)
}

/// The first index at or after `from` holding a space, or the length.
pub open spec fn space_after(b: Seq<u8>, from: int) -> int
    decreases b.len() - from,
{
    if from < 0 || from >= b.len() {
        b.len() as int
    } else if b[from] == 32 {
        from
    } else {
        space_after(b, from + 1)
    }
}

/// The parts `str::splitn(n, ' ')` yields from position `from`.
pub open spec fn split_fields(b: Seq<u8>, from: int, n: nat) -> Seq<Seq<u8>>
    decreases n,
{
    if n <= 1 || space_after(b, from) >= b.len() {
        seq![b.subrange(from, b.len() as int)]
    } else {
        seq![b.subrange(from, space_after(b, from))] + split_fields(b, space_after(b, from) + 1, (n - 1) as nat)
    }
}

proof fn lemma_space_after(b: Seq<u8>, from: int)
    requires
        0 <= from <= b.len(),
    ensures
        from <= space_after(b, from) <= b.len(),
        space_after(b, from) < b.len() ==> b[space_after(b, from)] == 32,
        forall|j: int| from <= j < space_after(b, from) ==> b[j] != 32,
    decreases b.len() - from,
{
    if from < b.len() && b[from] != 32 {
        lemma_space_after(b, from + 1);
    }
}

fn space_after_exec(b: &[u8], from: usize) -> (e: usize)
    requires
        from <= b@.len(),
    ensures
        e == space_after(b@, from as int),
{
    let n = b.len();
    let mut i = from;
    while i < n && b[i] != 32
        invariant
            from <= i <= n,
            n == b@.len(),
            space_after(b@, from as int) == space_after(b@, i as int),
        decreases n - i,
    {
        i = i + 1;
    }
    i
}

pub open spec fn ranges_view(b: Seq<u8>, rs: Seq<(usize, usize)>) -> Seq<Seq<u8>> {
    rs.map_values(|r: (usize, usize)| b.subrange(r.0 as int, r.1 as int))
}

/// Byte ranges of the parts of `splitn(n, ' ')` on `b`.
fn split_ranges(b: &[u8], n: usize) -> (rs: Vec<(usize, usize)>)
    requires
        n >= 1,
    ensures
        ranges_view(b@, rs@) == split_fields(b@, 0, n as nat),
        forall|k: int| 0 <= k < rs@.len() ==> (#[trigger] rs@[k]).0 <= rs@[k].1 <= b@.len(),
{
    let len = b.len();
    let mut rs: Vec<(usize, usize)> = Vec::new();
    let mut from: usize = 0;
    let mut left: usize = n;
    assert(ranges_view(b@, rs@) + split_fields(b@, 0, n as nat) =~= split_fields(b@, 0, n as nat));
    loop
        invariant
            len == b@.len(),
            from <= len,
            1 <= left <= n,
            ranges_view(b@, rs@) + split_fields(b@, from as int, left as nat) == split_fields(b@, 0, n as nat),
            forall|k: int| 0 <= k < rs@.len() ==> (#[trigger] rs@[k]).0 <= rs@[k].1 <= b@.len(),
        decreases left,
    {
        let e = space_after_exec(b, from);
        proof {
            lemma_space_after(b@, from as int);
        }
        if left <= 1 || e >= len {
            let ghost old_rs = rs@;
            rs.push((from, len));
            assert(ranges_view(b@, rs@) =~= ranges_view(b@, old_rs) + split_fields(b@, from as int, left as nat));
            return rs;
        }
        let ghost old_rs = rs@;
        rs.push((from, e));
        assert(ranges_view(b@, rs@) + split_fields(b@, e + 1, (left - 1) as nat) =~= ranges_view(b@, old_rs)
            + split_fields(b@, from as int, left as nat));
        from = e + 1;
        left = left - 1;
    }
}

/// The first index of `c` in `s`, if any.
pub open spec fn first_index_of(s: Seq<u8>, c: u8) -> Option<int> {
    if exists|i: int| 0 <= i < s.len() && s[i] == c {
        Some(choose|i: int| 0 <= i < s.len() && s[i] == c && forall|j: int| 0 <= j < i ==> s[j] != c)
    } else {
        None
    }
}

/// The fields of a memory-map line: start and end of the address range (the
/// first field, split at its first `-`), the permissions (second field), the
/// offset (third field, when it parses) and the path (sixth field, everything
/// after the fifth space, or empty). `None` when the line has fewer than five
/// fields, no `-` in its range, or a range bound that does not parse.
pub open spec fn maps_line_model(b: Seq<u8>) -> Option<(usize, usize, Seq<u8>, Seq<u8>, Option<usize>)> {
    let parts = split_fields(b, 0, 6);
    if parts.len() < 5 {
        None
    } else {
        match first_index_of(parts[0], 45) {
            None => None,
            Some(dash) => match (parse_hex(parts[0].subrange(0, dash)), parse_hex(
                parts[0].subrange(dash + 1, parts[0].len() as int),
            )) {
                (Some(start), Some(end)) => Some(
                    (
                        start,
                        end,
                        parts[1],
                        if parts.len() > 5 {
                            parts[5]
                        } else {
                            Seq::empty()
                        },
                        parse_hex(parts[2]),
                    ),
                ),
                _ => None,
            },
        }
    }
}

fn first_dash(b: &[u8], from: usize, to: usize) -> (r: Option<usize>)
    requires
        from <= to <= b@.len(),
    ensures
        match r {
            Some(i) => from <= i < to && first_index_of(b@.subrange(from as int, to as int), 45) == Some(i - from),
            None => first_index_of(b@.subrange(from as int, to as int), 45) is None,
        },
{
    let ghost s = b@.subrange(from as int, to as int);
    let mut i = from;
    while i < to
        invariant
            from <= i <= to <= b@.len(),
            s == b@.subrange(from as int, to as int),
            forall|j: int| 0 <= j < i - from ==> s[j] != 45,
        decreases to - i,
    {
        if b[i] == 45 {
            proof {
                assert(s[i - from] == 45);
                let c = choose|c: int| 0 <= c < s.len() && s[c] == 45 && forall|j: int| 0 <= j < c ==> s[j] != 45;
                if c < i - from {
                } else if c > i - from {
                }
                assert(c == i - from);
            }
            return Some(i);
        }
        i = i + 1;
    }
    None
}

pub open spec fn line_matches(line: MapsLine, m: (usize, usize, Seq<u8>, Seq<u8>, Option<usize>)) -> bool {
    &&& line.region.start == m.0
    &&& line.region.end == m.1
    &&& line.region.perms@ == utf8_lossy(m.2)
    &&& line.region.path@ == utf8_lossy(m.3)
    &&& valid_utf8(m.2) ==> line.region.perms@ == decode_utf8(m.2)
    &&& valid_utf8(m.3) ==> line.region.path@ == decode_utf8(m.3)
    &&& line.offset == m.4
}

/// Parses one line of `/proc/<pid>/maps`.
#[verifier::rlimit(60)]
pub fn parse_maps_line(line: &str) -> (r: Option<MapsLine>)
    ensures
        match r {
            Some(x) => match maps_line_model(encode_utf8(line@)) {
                Some(m) => line_matches(x, m),
                None => false,
            },
            None => maps_line_model(encode_utf8(line@)) is None,
        },
{
    let b = line.as_bytes();
    let rs = split_ranges(b, 6);
    let ghost parts = split_fields(b@, 0, 6);
    if rs.len() < 5 {
        return None;
    }
    let (r0s, r0e) = rs[0];
    assert(parts[0] == b@.subrange(r0s as int, r0e as int));
    let dash = match first_dash(b, r0s, r0e) {
        Some(d) => d,
        None => return None,
    };
    proof {
        assert(b@.subrange(r0s as int, dash as int) =~= parts[0].subrange(0, dash - r0s));
        assert(b@.subrange(dash + 1, r0e as int) =~= parts[0].subrange(dash - r0s + 1, parts[0].len() as int));
    }
    let start = match parse_hex_range(b, r0s, dash) {
        Some(s) => s,
        None => return None,
    };
    let end = match parse_hex_range(b, dash + 1, r0e) {
        Some(e) => e,
        None => return None,
    };
    let (r1s, r1e) = rs[1];
    let (r2s, r2e) = rs[2];
    assert(parts[1] == b@.subrange(r1s as int, r1e as int));
    assert(parts[2] == b@.subrange(r2s as int, r2e as int));
    let perm_bytes = sub_bytes(b, r1s, r1e);
    let path_bytes = if rs.len() > 5 {
        let (r5s, r5e) = rs[5];
        assert(parts[5] == b@.subrange(r5s as int, r5e as int));
        sub_bytes(b, r5s, r5e)
    } else {
        Vec::new()
    };
    let offset = parse_hex_range(b, r2s, r2e);
    let perms = lossy_string(perm_bytes.as_slice());
    let path = lossy_string(path_bytes.as_slice());
    proof {
        if rs.len() <= 5 {
            assert(path_bytes@ =~= Seq::<u8>::empty());
        }
    }
    Some(MapsLine { region: MemRegion { start, end, perms, path }, offset })
}

/// The bytes `b[from..to]`.
pub fn sub_bytes(b: &[u8], from: usize, to: usize) -> (v: Vec<u8>)
    requires
        from <= to <= b@.len(),
    ensures
        v@ == b@.subrange(from as int, to as int),
{
    let mut v: Vec<u8> = Vec::new();
    let mut i = from;
    while i < to
        invariant
            from <= i <= to <= b@.len(),
            v@ == b@.subrange(from as int, i as int),
        decreases to - i,
    {
        v.push(b[i]);
        i = i + 1;
    }
    v
}

/// `a - b` modulo the word size, as `usize::wrapping_sub` computes it.
pub open spec fn wsub(a: usize, b: usize) -> usize {
    if a >= b {
        (a - b) as usize
    } else {
        (a - b + usize::MAX + 1) as usize
    }
}

/// `a + b` modulo the word size, as `usize::wrapping_add` computes it.
pub open spec fn wadd_usize(a: usize, b: usize) -> usize {
    if a + b > usize::MAX {
        (a + b - usize::MAX - 1) as usize
    } else {
        (a + b) as usize
    }
}

/// Which mappings make up a named section: `.data` is read-write or read-only
/// private memory, `.rdata`/`.rodata` read-only private memory, `.text` any
/// executable mapping; other names match nothing.
pub open spec fn perm_matches(name: Seq<char>, perms: Seq<char>) -> bool {
    if name == ".data"@ {
        perms == "rw-p"@ || perms == "r--p"@
    } else if name == ".rdata"@ || name == ".rodata"@ {
        perms == "r--p"@
    } else if name == ".text"@ {
        bytes_contain(encode_utf8(perms), encode_utf8("x"@))
    } else {
        false
    }
}

/// `.data` takes private read-write and private read-only mappings,
/// `.rdata` and `.rodata` private read-only ones, `.text` any executable
/// one, and no other name takes any mapping.
pub proof fn law_section_permissions(name: Seq<char>, p: Seq<char>)
    ensures
        name == ".data"@ ==> (perm_matches(name, p) <==> (p == "r--p"@ || p == "rw-p"@)),
        name == ".rdata"@ || name == ".rodata"@ ==> (perm_matches(name, p) <==> p == "r--p"@),
        name == ".text"@ ==> (perm_matches(name, p) <==> bytes_contain(encode_utf8(p), encode_utf8("x"@))),
        name != ".data"@ && name != ".rdata"@ && name != ".rodata"@ && name != ".text"@ ==> !perm_matches(name, p),
{
    reveal_strlit(".data");
    reveal_strlit(".rdata");
    reveal_strlit(".rodata");
    reveal_strlit(".text");
    assert(".rdata"@.len() != ".data"@.len());
    assert(".rodata"@.len() != ".data"@.len());
    assert(".text"@[1] != ".data"@[1]);
    assert(".text"@[1] != ".rdata"@[1]);
    assert(".text"@.len() != ".rodata"@.len());
}

pub fn perms_match(name: &str, perms: &str) -> (r: bool)
    ensures
        r == perm_matches(name@, perms@),
{
    if str_eq(name, ".data") {
        str_eq(perms, "rw-p") || str_eq(perms, "r--p")
    } else if str_eq(name, ".rdata") || str_eq(name, ".rodata") {
        str_eq(perms, "r--p")
    } else if str_eq(name, ".text") {
        str_contains(perms, "x")
    } else {
        false
    }
}

/// The mappings of a section that start inside the module's 256 MiB window,
/// as (start, end), in map order.
pub open spec fn section_candidates(rs: Seq<MemRegion>, base: usize, name: Seq<char>) -> Seq<(usize, usize)>
    decreases rs.len(),
{
    if rs.len() == 0 {
        Seq::empty()
    } else {
        let r = rs.last();
        let rest = section_candidates(rs.drop_last(), base, name);
        if !(r.start < base || r.start >= wadd_usize(base, 0x10000000)) && perm_matches(name, r.perms@) {
            rest.push((r.start, r.end))
        } else {
            rest
        }
    }
}

/// Stable insertion of `x` into a list ordered by start address.
pub open spec fn insert_by_start(s: Seq<(usize, usize)>, x: (usize, usize)) -> Seq<(usize, usize)>
    decreases s.len(),
{
    if s.len() == 0 || s.last().0 <= x.0 {
        s.push(x)
    } else {
        insert_by_start(s.drop_last(), x).push(s.last())
    }
}

/// The list ordered by start address, keeping the order of equal starts.
pub open spec fn sort_by_start(s: Seq<(usize, usize)>) -> Seq<(usize, usize)>
    decreases s.len(),
{
    if s.len() == 0 {
        s
    } else {
        insert_by_start(sort_by_start(s.drop_last()), s.last())
    }
}

/// The end of the merged run: from the first mapping on, a mapping that starts
/// within a page of the current end extends it, any other mapping's end
/// replaces it.
pub open spec fn merged_end(ms: Seq<(usize, usize)>, i: int, cur: usize) -> usize
    decreases ms.len() - i,
{
    if i < 0 || i >= ms.len() {
        cur
    } else {
        let next = if ms[i].0 <= wadd_usize(cur, 0x1000) {
            if ms[i].1 > cur {
                ms[i].1
            } else {
                cur
            }
        } else {
            ms[i].1
        };
        merged_end(ms, i + 1, next)
    }
}

/// Start and size of a named section of the module loaded at `base`.
pub open spec fn section_model(rs: Seq<MemRegion>, base: usize, name: Seq<char>) -> Option<(usize, usize)> {
    if base == 0 {
        None
    } else {
        let ms = sort_by_start(section_candidates(rs, base, name));
        if ms.len() == 0 {
            None
        } else {
            Some((ms[0].0, wsub(merged_end(ms, 1, ms[0].1), ms[0].0)))
        }
    }
}

proof fn lemma_insert_at(s: Seq<(usize, usize)>, x: (usize, usize), j: int)
    requires
        0 <= j <= s.len(),
        j > 0 ==> s[j - 1].0 <= x.0,
        forall|k: int| j <= k < s.len() ==> s[k].0 > x.0,
    ensures
        insert_by_start(s, x) == s.subrange(0, j).push(x) + s.subrange(j, s.len() as int),
    decreases s.len(),
{
    if s.len() == 0 || s.last().0 <= x.0 {
        if j < s.len() {
            assert(s[s.len() - 1].0 > x.0);
        }
        assert(s.subrange(0, j).push(x) + s.subrange(j, s.len() as int) =~= s.push(x));
    } else {
        lemma_insert_at(s.drop_last(), x, j);
        assert(s.drop_last().subrange(0, j) =~= s.subrange(0, j));
        assert(s.subrange(0, j).push(x) + s.subrange(j, s.len() as int) =~= (s.subrange(0, j).push(x)
            + s.drop_last().subrange(j, s.len() - 1)).push(s.last()));
    }
}

fn insert_by_start_exec(v: &mut Vec<(usize, usize)>, x: (usize, usize))
    ensures
        final(v)@ == insert_by_start(old(v)@, x),
{
    let mut j = v.len();
    while j > 0 && v[j - 1].0 > x.0
        invariant
            j <= v@.len(),
            v@ == old(v)@,
            forall|k: int| j <= k < v@.len() ==> v@[k].0 > x.0,
        decreases j,
    {
        j = j - 1;
    }
    proof {
        lemma_insert_at(v@, x, j as int);
    }
    let ghost before = v@;
    v.insert(j, x);
    assert(v@ =~= before.subrange(0, j as int).push(x) + before.subrange(j as int, before.len() as int));
}

/// Start and size of the named section (`.data`, `.rdata`, `.rodata`, `.text`)
/// of the module loaded at `module_base`: the mappings of that kind starting in
/// the module's window, ordered by start, merged while they follow within a
/// page of each other.
pub fn section_bounds(regions: &Vec<MemRegion>, module_base: usize, name: &str) -> (r: Option<(usize, usize)>)
    ensures
        r == section_model(regions@, module_base, name@),
{
    if module_base == 0 {
        return None;
    }
    let mod_end = module_base.wrapping_add(0x10000000);
    let mut cands: Vec<(usize, usize)> = Vec::new();
    let n = regions.len();
    let mut i: usize = 0;
    while i < n
        invariant
            i <= n,
            n == regions@.len(),
            mod_end == wadd_usize(module_base, 0x10000000),
            cands@ == section_candidates(regions@.subrange(0, i as int), module_base, name@),
        decreases n - i,
    {
        let r = &regions[i];
        proof {
            assert(regions@.subrange(0, i + 1).drop_last() =~= regions@.subrange(0, i as int));
            assert(regions@.subrange(0, i + 1).last() == regions@[i as int]);
        }
        if !(r.start < module_base || r.start >= mod_end) && perms_match(name, r.perms.as_str()) {
            cands.push((r.start, r.end));
        }
        i = i + 1;
    }
    assert(regions@.subrange(0, n as int) =~= regions@);
    let mut sorted: Vec<(usize, usize)> = Vec::new();
    let m = cands.len();
    let mut k: usize = 0;
    while k < m
        invariant
            k <= m,
            m == cands@.len(),
            sorted@ == sort_by_start(cands@.subrange(0, k as int)),
        decreases m - k,
    {
        proof {
            assert(cands@.subrange(0, k + 1).drop_last() =~= cands@.subrange(0, k as int));
        }
        insert_by_start_exec(&mut sorted, cands[k]);
        k = k + 1;
    }
    assert(cands@.subrange(0, m as int) =~= cands@);
    if sorted.len() == 0 {
        return None;
    }
    let region_start = sorted[0].0;
    let mut region_end = sorted[0].1;
    let len = sorted.len();
    let mut j: usize = 1;
    while j < len
        invariant
            1 <= j <= len,
            len == sorted@.len(),
            merged_end(sorted@, 1, sorted@[0].1) == merged_end(sorted@, j as int, region_end),
        decreases len - j,
    {
        if sorted[j].0 <= region_end.wrapping_add(0x1000) {
            if sorted[j].1 > region_end {
                region_end = sorted[j].1;
            }
        } else {
            region_end = sorted[j].1;
        }
        j = j + 1;
    }
    Some((region_start, region_end.wrapping_sub(region_start)))
}

/// The entries ascend by start address.
pub open spec fn starts_ascend(s: Seq<(usize, usize)>) -> bool {
    forall|j: int, k: int| 0 <= j < k < s.len() ==> #[trigger] s[j].0 <= #[trigger] s[k].0
}

proof fn lemma_insert_by_start(s: Seq<(usize, usize)>, x: (usize, usize))
    requires
        starts_ascend(s),
    ensures
        starts_ascend(insert_by_start(s, x)),
        forall|y: (usize, usize)| #[trigger] insert_by_start(s, x).contains(y) <==> (s.contains(y) || y == x),
    decreases s.len(),
{
    if s.len() == 0 || s.last().0 <= x.0 {
        let r = s.push(x);
        assert forall|j: int, k: int| 0 <= j < k < r.len() implies #[trigger] r[j].0 <= #[trigger] r[k].0 by {
            if k == s.len() && j < s.len() - 1 {
                assert(s[j].0 <= s[s.len() - 1].0);
            }
        }
        assert forall|y: (usize, usize)| #[trigger] r.contains(y) <==> (s.contains(y) || y == x) by {
            if r.contains(y) {
                let t = choose|t: int| 0 <= t < r.len() && r[t] == y;
                if t < s.len() {
                    assert(s[t] == y);
                }
            }
            if s.contains(y) {
                let t = choose|t: int| 0 <= t < s.len() && s[t] == y;
                assert(r[t] == y);
            }
            if y == x {
                assert(r[s.len() as int] == x);
            }
        }
    } else {
        let d = s.drop_last();
        let l = s.last();
        assert forall|j: int, k: int| 0 <= j < k < d.len() implies #[trigger] d[j].0 <= #[trigger] d[k].0 by {
            assert(s[j].0 <= s[k].0);
        }
        lemma_insert_by_start(d, x);
        let q = insert_by_start(d, x);
        let r = q.push(l);
        assert forall|j: int, k: int| 0 <= j < k < r.len() implies #[trigger] r[j].0 <= #[trigger] r[k].0 by {
            if k == q.len() {
                assert(r[j] == q[j]);
                assert(q.contains(q[j]));
                if d.contains(q[j]) {
                    let t = choose|t: int| 0 <= t < d.len() && d[t] == q[j];
                    assert(s[t].0 <= s[s.len() - 1].0);
                }
            } else {
                assert(r[j] == q[j] && r[k] == q[k]);
            }
        }
        assert forall|y: (usize, usize)| #[trigger] r.contains(y) <==> (s.contains(y) || y == x) by {
            if r.contains(y) {
                let t = choose|t: int| 0 <= t < r.len() && r[t] == y;
                if t < q.len() {
                    assert(q[t] == y);
                    assert(q.contains(y));
                    if d.contains(y) {
                        let u = choose|u: int| 0 <= u < d.len() && d[u] == y;
                        assert(s[u] == y);
                    }
                } else {
                    assert(s[s.len() - 1] == y);
                }
            }
            if s.contains(y) {
                let t = choose|t: int| 0 <= t < s.len() && s[t] == y;
                if t < s.len() - 1 {
                    assert(d[t] == y);
                    assert(q.contains(y));
                    let u = choose|u: int| 0 <= u < q.len() && q[u] == y;
                    assert(r[u] == y);
                } else {
                    assert(r[q.len() as int] == y);
                }
            }
            if y == x {
                assert(q.contains(y));
                let u = choose|u: int| 0 <= u < q.len() && q[u] == y;
                assert(r[u] == y);
            }
        }
    }
}

proof fn lemma_sort_by_start(s: Seq<(usize, usize)>)
    ensures
        starts_ascend(sort_by_start(s)),
        forall|y: (usize, usize)| #[trigger] sort_by_start(s).contains(y) <==> s.contains(y),
    decreases s.len(),
{
    if s.len() > 0 {
        let d = s.drop_last();
        lemma_sort_by_start(d);
        lemma_insert_by_start(sort_by_start(d), s.last());
        assert forall|y: (usize, usize)| #[trigger] sort_by_start(s).contains(y) <==> s.contains(y) by {
            assert(sort_by_start(s) == insert_by_start(sort_by_start(d), s.last()));
            if s.contains(y) {
                let t = choose|t: int| 0 <= t < s.len() && s[t] == y;
                if t < s.len() - 1 {
                    assert(d[t] == y);
                    assert(d.contains(y));
                }
            }
            if d.contains(y) {
                let t = choose|t: int| 0 <= t < d.len() && d[t] == y;
                assert(s[t] == y);
            }
            if y == s.last() {
                assert(s[s.len() - 1] == y);
            }
        }
    }
}

/// The section's mappings in map order: each came from a mapping in the
/// window whose permissions match, and each such mapping is among them.
proof fn lemma_section_candidates(rs: Seq<MemRegion>, base: usize, name: Seq<char>, y: (usize, usize))
    ensures
        section_candidates(rs, base, name).contains(y) <==> exists|j: int|
            0 <= j < rs.len() && !(rs[j].start < base || rs[j].start >= wadd_usize(base, 0x10000000)) && perm_matches(
                name,
                rs[j].perms@,
            ) && (#[trigger] rs[j]).start == y.0 && rs[j].end == y.1,
    decreases rs.len(),
{
    if rs.len() > 0 {
        let d = rs.drop_last();
        let last = rs.last();
        lemma_section_candidates(d, base, name, y);
        let rest = section_candidates(d, base, name);
        let c = section_candidates(rs, base, name);
        let inw = !(last.start < base || last.start >= wadd_usize(base, 0x10000000)) && perm_matches(name, last.perms@);
        if c.contains(y) {
            let t = choose|t: int| 0 <= t < c.len() && c[t] == y;
            if t < rest.len() {
                assert(rest[t] == y);
                assert(rest.contains(y));
                let j = choose|j: int|
                    0 <= j < d.len() && !(d[j].start < base || d[j].start >= wadd_usize(base, 0x10000000))
                        && perm_matches(name, d[j].perms@) && (#[trigger] d[j]).start == y.0 && d[j].end == y.1;
                assert(rs[j] == d[j]);
            } else {
                assert(inw && y == (last.start, last.end));
                assert(rs[rs.len() - 1] == last);
            }
        }
        if exists|j: int|
            0 <= j < rs.len() && !(rs[j].start < base || rs[j].start >= wadd_usize(base, 0x10000000)) && perm_matches(
                name,
                rs[j].perms@,
            ) && (#[trigger] rs[j]).start == y.0 && rs[j].end == y.1 {
            let j = choose|j: int|
                0 <= j < rs.len() && !(rs[j].start < base || rs[j].start >= wadd_usize(base, 0x10000000))
                    && perm_matches(name, rs[j].perms@) && (#[trigger] rs[j]).start == y.0 && rs[j].end == y.1;
            if j < rs.len() - 1 {
                assert(d[j] == rs[j]);
                assert(rest.contains(y));
                let t = choose|t: int| 0 <= t < rest.len() && rest[t] == y;
                assert(c[t] == y);
            } else {
                assert(inw);
                assert(c[rest.len() as int] == y);
            }
        }
    }
}

proof fn lemma_merged_end(ms: Seq<(usize, usize)>, i: int, cur: usize)
    requires
        0 <= i,
        cur + 0x1000 <= usize::MAX,
        forall|k: int| 0 <= k < ms.len() ==> (#[trigger] ms[k]).0 <= ms[k].1 && ms[k].1 + 0x1000 <= usize::MAX,
    ensures
        merged_end(ms, i, cur) >= cur,
        forall|k: int| i <= k < ms.len() ==> merged_end(ms, i, cur) >= (#[trigger] ms[k]).1,
    decreases ms.len() - i,
{
    if i < ms.len() {
        assert(wadd_usize(cur, 0x1000) == cur + 0x1000);
        let m = ms[i];
        let next = if m.0 <= wadd_usize(cur, 0x1000) {
            if m.1 > cur {
                m.1
            } else {
                cur
            }
        } else {
            m.1
        };
        lemma_merged_end(ms, i + 1, next);
    }
}

proof fn lemma_merged_end_is_an_end(ms: Seq<(usize, usize)>, i: int, cur: usize)
    requires
        0 <= i,
    ensures
        merged_end(ms, i, cur) == cur || exists|k: int| i <= k < ms.len() && merged_end(ms, i, cur) == (#[trigger] ms[k]).1,
    decreases ms.len() - i,
{
    if i < ms.len() {
        let m = ms[i];
        let next = if m.0 <= wadd_usize(cur, 0x1000) {
            if m.1 > cur {
                m.1
            } else {
                cur
            }
        } else {
            m.1
        };
        lemma_merged_end_is_an_end(ms, i + 1, next);
        if merged_end(ms, i + 1, next) == next && next != cur {
            assert(merged_end(ms, i, cur) == ms[i].1);
        }
    }
}

/// Every mapping whose start lies in the 256 MiB window after the module base
/// and whose permissions suit the section is part of it: the section starts
/// no later than the mapping and reaches at least its end, and it starts at
/// the start of such a mapping and ends at the end of one. (Mappings are taken as well formed: start before end,
/// ends a page short of the top of the address space.)
pub proof fn law_section_covers_mapping(rs: Seq<MemRegion>, base: usize, name: Seq<char>, i: int)
    requires
        0 <= i < rs.len(),
        base != 0,
        base + 0x10000000 <= usize::MAX,
        base <= rs[i].start < base + 0x10000000,
        perm_matches(name, rs[i].perms@),
        forall|k: int| 0 <= k < rs.len() ==> (#[trigger] rs[k]).start <= rs[k].end && rs[k].end + 0x1000 <= usize::MAX,
    ensures
        section_model(rs, base, name) is Some,
        section_model(rs, base, name).unwrap().0 <= rs[i].start,
        rs[i].end <= section_model(rs, base, name).unwrap().0 + section_model(rs, base, name).unwrap().1,
        exists|j: int|
            0 <= j < rs.len() && (#[trigger] rs[j]).start == section_model(rs, base, name).unwrap().0 && base
                <= rs[j].start < base + 0x10000000 && perm_matches(name, rs[j].perms@),
        exists|j: int|
            0 <= j < rs.len() && (#[trigger] rs[j]).end == section_model(rs, base, name).unwrap().0
                + section_model(rs, base, name).unwrap().1 && base <= rs[j].start < base + 0x10000000
                && perm_matches(name, rs[j].perms@),
{
    assert(wadd_usize(base, 0x10000000) == base + 0x10000000);
    let c = section_candidates(rs, base, name);
    let ms = sort_by_start(c);
    let y = (rs[i].start, rs[i].end);
    lemma_section_candidates(rs, base, name, y);
    assert(rs[i].start == y.0 && rs[i].end == y.1);
    assert(c.contains(y));
    lemma_sort_by_start(c);
    assert(ms.contains(y));
    let t = choose|t: int| 0 <= t < ms.len() && ms[t] == y;
    assert forall|k: int| 0 <= k < ms.len() implies (#[trigger] ms[k]).0 <= ms[k].1 && ms[k].1 + 0x1000 <= usize::MAX by {
        assert(ms.contains(ms[k]));
        assert(c.contains(ms[k]));
        lemma_section_candidates(rs, base, name, ms[k]);
        let j = choose|j: int|
            0 <= j < rs.len() && !(rs[j].start < base || rs[j].start >= wadd_usize(base, 0x10000000)) && perm_matches(
                name,
                rs[j].perms@,
            ) && (#[trigger] rs[j]).start == ms[k].0 && rs[j].end == ms[k].1;
        assert(rs[j].start <= rs[j].end);
    }
    assert(ms[0].0 <= ms[0].1);
    lemma_merged_end(ms, 1, ms[0].1);
    let e = merged_end(ms, 1, ms[0].1);
    if t > 0 {
        assert(ms[0].0 <= ms[t].0);
        assert(e >= ms[t].1);
    }
    assert(e >= ms[0].1);
    assert(wsub(e, ms[0].0) == e - ms[0].0);
    assert(ms.contains(ms[0]));
    assert(c.contains(ms[0]));
    lemma_section_candidates(rs, base, name, ms[0]);
    lemma_merged_end_is_an_end(ms, 1, ms[0].1);
    let k = if e == ms[0].1 {
        0
    } else {
        choose|k: int| 1 <= k < ms.len() && e == (#[trigger] ms[k]).1
    };
    assert(e == ms[k].1);
    assert(ms.contains(ms[k]));
    assert(c.contains(ms[k]));
    lemma_section_candidates(rs, base, name, ms[k]);
}

/// A section is only ever found at a mapping whose start lies in the 256 MiB
/// window after a nonzero module base and whose permissions suit it: its
/// start is that mapping's start.
pub proof fn law_section_starts_at_mapping(rs: Seq<MemRegion>, base: usize, name: Seq<char>)
    requires
        base + 0x10000000 <= usize::MAX,
        section_model(rs, base, name) is Some,
    ensures
        base != 0,
        exists|j: int|
            0 <= j < rs.len() && (#[trigger] rs[j]).start == section_model(rs, base, name).unwrap().0 && base
                <= rs[j].start < base + 0x10000000 && perm_matches(name, rs[j].perms@),
{
    assert(wadd_usize(base, 0x10000000) == base + 0x10000000);
    let c = section_candidates(rs, base, name);
    let ms = sort_by_start(c);
    lemma_sort_by_start(c);
    assert(ms.contains(ms[0]));
    assert(c.contains(ms[0]));
    lemma_section_candidates(rs, base, name, ms[0]);
}

/// Whether a mapping can hold the engine's code: a memfd or deleted-file
/// mapping that is executable and larger than 50 MiB.
pub open spec fn module_candidate(start: usize, end: usize, perms: Seq<char>, path: Seq<char>) -> bool {
    &&& (bytes_contain(encode_utf8(path), encode_utf8("memfd"@)) || bytes_contain(
        encode_utf8(path),
        encode_utf8("(deleted)"@),
    ))
    &&& bytes_contain(encode_utf8(perms), encode_utf8("x"@))
    &&& wsub(end, start) > 50 * 1024 * 1024
}

pub fn is_module_candidate(r: &MemRegion) -> (b: bool)
    ensures
        b == module_candidate(r.start, r.end, r.perms@, r.path@),
{
    let p = r.path.as_str();
    (str_contains(p, "memfd") || str_contains(p, "(deleted)")) && str_contains(r.perms.as_str(), "x")
        && r.end.wrapping_sub(r.start) > 50 * 1024 * 1024
}

/// A mapping (with `start <= end`) is taken as the module's code exactly when
/// it is executable, spans more than 50 MiB, and its path names a deleted
/// file or a memfd: either mark alone is enough.
pub proof fn law_module_candidate(start: usize, end: usize, perms: Seq<char>, path: Seq<char>)
    requires
        start <= end,
    ensures
        module_candidate(start, end, perms, path) <==> ({
            let exec = bytes_contain(encode_utf8(perms), encode_utf8("x"@));
            let deleted = bytes_contain(encode_utf8(path), encode_utf8("(deleted)"@));
            let memfd = bytes_contain(encode_utf8(path), encode_utf8("memfd"@));
            &&& exec
            &&& end - start > 52428800
            &&& (deleted || memfd)
        }),
{
}

/// Some candidate starts at `a`, and no candidate starts lower.
pub open spec fn lowest_candidate(rs: Seq<MemRegion>, a: usize) -> bool {
    &&& exists|i: int| 0 <= i < rs.len() && module_candidate(rs[i].start, rs[i].end, rs[i].perms@, rs[i].path@) && rs[i].start == a
    &&& forall|i: int| 0 <= i < rs.len() && module_candidate(rs[i].start, rs[i].end, rs[i].perms@, rs[i].path@) ==> a <= #[trigger] rs[i].start
}

pub open spec fn has_candidate(rs: Seq<MemRegion>) -> bool {
    exists|i: int| 0 <= i < rs.len() && module_candidate(rs[i].start, rs[i].end, rs[i].perms@, rs[i].path@)
}

/// The first line of the re-read map that is a candidate mapping at file offset zero.
pub open spec fn first_offset_zero(ls: Seq<MapsLine>) -> Option<usize> {
    if exists|i: int| 0 <= i < ls.len() && #[trigger] offset_zero_candidate(ls[i]) {
        Some(ls[choose|i: int| 0 <= i < ls.len() && offset_zero_candidate(ls[i]) && forall|j: int| 0 <= j < i ==> !#[trigger] offset_zero_candidate(ls[j])].region.start)
    } else {
        None
    }
}

pub open spec fn offset_zero_candidate(l: MapsLine) -> bool {
    module_candidate(l.region.start, l.region.end, l.region.perms@, l.region.path@) && l.offset == Some(0usize)
}

/// Where the engine's module is loaded: with no candidate mapping there is
/// none; otherwise the first candidate of the re-read map that maps file
/// offset zero, and failing that (or when the map could not be read again)
/// the lowest candidate start.
pub fn select_module_base(first: &Vec<MemRegion>, second: Option<&Vec<MapsLine>>) -> (r: Option<usize>)
    ensures
        !has_candidate(first@) ==> r is None,
        has_candidate(first@) ==> match r {
            None => false,
            Some(a) => match second {
                Some(ls) => match first_offset_zero(ls@) {
                    Some(z) => a == z,
                    None => lowest_candidate(first@, a),
                },
                None => lowest_candidate(first@, a),
            },
        },
{
    let n = first.len();
    let mut lowest: Option<usize> = None;
    let mut i: usize = 0;
    while i < n
        invariant
            i <= n,
            n == first@.len(),
            match lowest {
                None => forall|j: int| 0 <= j < i ==> !module_candidate(first@[j].start, first@[j].end, first@[j].perms@, first@[j].path@),
                Some(a) => lowest_candidate(first@.subrange(0, i as int), a),
            },
        decreases n - i,
    {
        let ghost sub = first@.subrange(0, i + 1);
        assert(forall|j: int| 0 <= j < i ==> sub[j] == first@[j]);
        assert(sub[i as int] == first@[i as int]);
        if is_module_candidate(&first[i]) {
            let s = first[i].start;
            match lowest {
                None => {
                    lowest = Some(s);
                },
                Some(a) => {
                    if s < a {
                        lowest = Some(s);
                    }
                },
            }
        }
        proof {
            match lowest {
                Some(a) => {
                    assert(lowest_candidate(sub, a)) by {
                        assert forall|j: int| 0 <= j < sub.len() && module_candidate(sub[j].start, sub[j].end, sub[j].perms@, sub[j].path@) implies a <= #[trigger] sub[j].start by {
                            if j < i {
                                assert(first@.subrange(0, i as int)[j] == sub[j]);
                            }
                        }
                        if exists|j: int| 0 <= j < i && module_candidate(first@[j].start, first@[j].end, first@[j].perms@, first@[j].path@) && first@[j].start == a {
                            let w = choose|j: int| 0 <= j < i && module_candidate(first@[j].start, first@[j].end, first@[j].perms@, first@[j].path@) && first@[j].start == a;
                            assert(sub[w] == first@[w]);
                        } else {
                            if !(module_candidate(first@[i as int].start, first@[i as int].end, first@[i as int].perms@, first@[i as int].path@) && first@[i as int].start == a) {
                                let pre = first@.subrange(0, i as int);
                                let w = choose|j: int| 0 <= j < pre.len() && module_candidate(pre[j].start, pre[j].end, pre[j].perms@, pre[j].path@) && pre[j].start == a;
                                assert(pre[w] == first@[w]);
                            }
                        }
                    }
                },
                None => {},
            }
        }
        i = i + 1;
    }
    assert(first@.subrange(0, n as int) =~= first@);
    let low = match lowest {
        None => {
            return None;
        },
        Some(a) => a,
    };
    assert(has_candidate(first@));
    match second {
        None => Some(low),
        Some(ls) => {
            let m = ls.len();
            let mut k: usize = 0;
            while k < m
                invariant
                    k <= m,
                    m == ls@.len(),
                    has_candidate(first@),
                    second == Some(ls),
                    forall|j: int| 0 <= j < k ==> !#[trigger] offset_zero_candidate(ls@[j]),
                decreases m - k,
            {
                let l = &ls[k];
                if is_module_candidate(&l.region) && l.offset == Some(0usize) {
                    proof {
                        assert(offset_zero_candidate(ls@[k as int]));
                        let c = choose|c: int| 0 <= c < ls@.len() && offset_zero_candidate(ls@[c]) && forall|j: int| 0 <= j < c ==> !#[trigger] offset_zero_candidate(ls@[j]);
                        if c < k {
                        } else if c > k {
                            assert(!offset_zero_candidate(ls@[k as int]));
                        }
                        assert(c == k);
                    }
                    return Some(l.region.start);
                }
                k = k + 1;
            }
            Some(low)
        },
    }
}

} // verus!
