use vstd::prelude::*;
use vstd::utf8::{decode_utf8, encode_utf8, encode_utf8_decode_utf8, encode_utf8_valid_utf8, valid_utf8};

use crate::memory::{
    agrees, answer_of, lemma_agrees_last, lemma_agrees_push, lossy_string, mem_read, mem_word, string_from_buffer,
    string_of_buffer, utf8_lossy, word_of, Answer, Memory, Progress, ReadRequest,
};

verus! {

/// The RTTI class name found behind an object.
pub struct RttiInfo {
    pub name: String,
}

/// An address that can point into user space.
pub open spec fn valid_ptr(p: u64) -> bool {
    0x10000 <= p <= 0x7fffffffffff
}

pub fn is_valid_ptr(ptr: u64) -> (r: bool)
    ensures
        r == valid_ptr(ptr),
{
    ptr >= 0x10000 && ptr <= 0x7fffffffffff
}

pub open spec fn is_digit(b: u8) -> bool {
    48 <= b <= 57
}

/// First index at or after `pos` that does not hold a decimal digit.
pub open spec fn digits_end(b: Seq<u8>, pos: int) -> int
    decreases b.len() - pos,
{
    if pos < 0 || pos >= b.len() || !is_digit(b[pos]) {
        pos
    } else {
        digits_end(b, pos + 1)
    }
}

/// The number written by a run of decimal digits.
pub open spec fn digits_value(s: Seq<u8>) -> nat
    decreases s.len(),
{
    if s.len() == 0 {
        0
    } else {
        digits_value(s.drop_last()) * 10 + (s.last() - 48) as nat
    }
}

pub proof fn lemma_digits_end(b: Seq<u8>, pos: int)
    requires
        0 <= pos <= b.len(),
    ensures
        pos <= digits_end(b, pos) <= b.len(),
        pos < b.len() && is_digit(b[pos]) ==> digits_end(b, pos) > pos,
        forall|j: int| pos <= j < digits_end(b, pos) ==> is_digit(#[trigger] b[j]),
        digits_end(b, pos) < b.len() ==> !is_digit(b[digits_end(b, pos)]),
    decreases b.len() - pos,
{
    if pos < b.len() && is_digit(b[pos]) {
        lemma_digits_end(b, pos + 1);
    }
}

/// The length-prefixed components of a nested Itanium name, read from `pos`
/// up to the closing `E` or the end; `None` when the encoding is not one this
/// decoder accepts (a non-digit where a length belongs, a length of zero or
/// above 256, or a component running past the end).
pub open spec fn name_components(b: Seq<u8>, pos: int) -> Option<Seq<Seq<u8>>>
    decreases b.len() - pos,
{
    if pos < 0 || pos >= b.len() || b[pos] == 69 {
        Some(Seq::empty())
    } else if !is_digit(b[pos]) {
        None
    } else {
        let end = digits_end(b, pos);
        let len = digits_value(b.subrange(pos, end));
        if len == 0 || len > 256 || end + len > b.len() {
            None
        } else {
            proof {
                lemma_digits_end(b, pos);
            }
            match name_components(b, end + len) {
                Some(rest) => Some(seq![b.subrange(end, end + len)] + rest),
                None => None,
            }
        }
    }
}

/// Components joined with `@`, last component first.
pub open spec fn join_reversed(cs: Seq<Seq<u8>>) -> Seq<u8>
    decreases cs.len(),
{
    if cs.len() == 0 {
        Seq::empty()
    } else if cs.len() == 1 {
        cs[0]
    } else {
        cs.last() + seq![64u8] + join_reversed(cs.drop_last())
    }
}

/// `N<len><text>...E` becomes the components in reverse order joined by `@`
/// (`N3RBX8HumanoidE` gives `Humanoid@RBX`); anything else stays as it is.
pub open spec fn demangle_bytes(b: Seq<u8>) -> Seq<u8> {
    if b.len() == 0 || b[0] != 78 {
        b
    } else {
        match name_components(b, 1) {
            Some(cs) => if cs.len() == 0 {
                b
            } else {
                join_reversed(cs)
            },
            None => b,
        }
    }
}

spec fn prepend_opt(c: Seq<Seq<u8>>, r: Option<Seq<Seq<u8>>>) -> Option<Seq<Seq<u8>>> {
    match r {
        Some(x) => Some(c + x),
        None => None,
    }
}

spec fn ranges_view(b: Seq<u8>, rs: Seq<(usize, usize)>) -> Seq<Seq<u8>> {
    rs.map_values(|r: (usize, usize)| b.subrange(r.0 as int, r.0 + r.1))
}

/// Decodes a nested Itanium class name given as bytes.
pub fn demangle_raw(b: &[u8]) -> (out: Vec<u8>)
    ensures
        out@ == demangle_bytes(b@),
{
    let n = b.len();
    if n == 0 || b[0] != 78 {
        return slice_to_vec(b);
    }
    let mut comps: Vec<(usize, usize)> = Vec::new();
    let mut pos: usize = 1;
    assert(prepend_opt(ranges_view(b@, comps@), name_components(b@, 1)) =~= name_components(b@, 1)) by {
        match name_components(b@, 1) {
            Some(x) => {
                assert(ranges_view(b@, comps@) + x =~= x);
            },
            None => {},
        }
    }
    while pos < n && b[pos] != 69
        invariant
            n == b@.len(),
            1 <= pos <= n,
            b@[0] == 78,
            name_components(b@, 1) == prepend_opt(ranges_view(b@, comps@), name_components(b@, pos as int)),
            forall|k: int| 0 <= k < comps@.len() ==> (#[trigger] comps@[k]).1 >= 1 && comps@[k].0 + comps@[k].1 <= n,
        decreases n - pos,
    {
        if !(b[pos] >= 48 && b[pos] <= 57) {
            return slice_to_vec(b);
        }
        let start = pos;
        let mut value: usize = 0;
        proof {
            lemma_digits_end(b@, start as int);
            assert(b@.subrange(start as int, start as int) =~= Seq::<u8>::empty());
        }
        while pos < n && b[pos] >= 48 && b[pos] <= 57
            invariant
                n == b@.len(),
                start <= pos <= n,
                start < n,
                forall|j: int| start <= j < pos ==> is_digit(#[trigger] b@[j]),
                digits_end(b@, start as int) == digits_end(b@, pos as int),
                value == (if digits_value(b@.subrange(start as int, pos as int)) < 257 {
                    digits_value(b@.subrange(start as int, pos as int))
                } else {
                    257
                }),
            decreases n - pos,
        {
            let d = (b[pos] - 48) as usize;
            proof {
                let s = b@.subrange(start as int, pos + 1);
                assert(s.drop_last() =~= b@.subrange(start as int, pos as int));
                assert(s.last() == b@[pos as int]);
            }
            value = if value * 10 + d < 257 {
                value * 10 + d
            } else {
                257
            };
            pos = pos + 1;
        }
        proof {
            lemma_digits_end(b@, pos as int);
            assert(digits_end(b@, start as int) == pos as int);
        }
        if value == 0 || value > 256 {
            return slice_to_vec(b);
        }
        if value > n - pos {
            return slice_to_vec(b);
        }
        let ghost old_rs = comps@;
        comps.push((pos, value));
        proof {
            assert(ranges_view(b@, comps@) =~= ranges_view(b@, old_rs) + seq![b@.subrange(pos as int, pos + value)]);
            match name_components(b@, pos + value) {
                Some(x) => {
                    assert(ranges_view(b@, comps@) + x =~= ranges_view(b@, old_rs) + (seq![b@.subrange(pos as int, pos + value)] + x));
                },
                None => {},
            }
        }
        pos = pos + value;
    }
    proof {
        assert(name_components(b@, pos as int) == Some(Seq::<Seq<u8>>::empty()));
        assert(ranges_view(b@, comps@) + Seq::<Seq<u8>>::empty() =~= ranges_view(b@, comps@));
    }
    let m = comps.len();
    if m == 0 {
        return slice_to_vec(b);
    }
    let ghost cs = ranges_view(b@, comps@);
    let mut out: Vec<u8> = Vec::new();
    let mut i: usize = m;
    assert(cs.subrange(m as int, m as int) =~= Seq::<Seq<u8>>::empty());
    while i > 0
        invariant
            i <= m,
            m == comps@.len(),
            m >= 1,
            n == b@.len(),
            cs == ranges_view(b@, comps@),
            forall|k: int| 0 <= k < comps@.len() ==> (#[trigger] comps@[k]).1 >= 1 && comps@[k].0 + comps@[k].1 <= n,
            i == m ==> out@.len() == 0,
            i < m ==> out@ == join_reversed(cs.subrange(i as int, m as int)).add(Seq::empty()),
        decreases i,
    {
        i = i - 1;
        let (st, ln) = comps[i];
        let ghost before = out@;
        if i + 1 < m {
            out.push(64);
        }
        let mut k: usize = 0;
        while k < ln
            invariant
                k <= ln,
                st + ln <= n,
                n == b@.len(),
                out@ == (if i + 1 < m { before.push(64u8) } else { before }) + b@.subrange(st as int, st + k),
            decreases ln - k,
        {
            out.push(b[st + k]);
            proof {
                assert(b@.subrange(st as int, st + k + 1) =~= b@.subrange(st as int, st + k).push(b@[st + k]));
            }
            k = k + 1;
        }
        proof {
            assert(cs[i as int] == b@.subrange(st as int, st + ln));
            lemma_join_step(cs, i as int, m as int);
            if i + 1 < m {
                assert(out@ =~= join_reversed(cs.subrange(i as int, m as int)).add(Seq::empty()));
            } else {
                assert(cs.subrange(i as int, m as int) =~= seq![cs[i as int]]);
                assert(out@ =~= join_reversed(cs.subrange(i as int, m as int)).add(Seq::empty()));
            }
        }
    }
    assert(cs.subrange(0, m as int) =~= cs);
    assert(out@ =~= join_reversed(cs));
    out
}

/// Joining a window of components one further to the left puts that component
/// and an `@` after the rest.
proof fn lemma_join_step(cs: Seq<Seq<u8>>, i: int, m: int)
    requires
        0 <= i < m <= cs.len(),
    ensures
        i + 1 < m ==> join_reversed(cs.subrange(i, m)) == join_reversed(cs.subrange(i + 1, m)) + seq![64u8]
            + cs[i],
    decreases m - i,
{
    if i + 1 < m {
        let w = cs.subrange(i, m);
        let w2 = cs.subrange(i + 1, m);
        if m - i == 2 {
            assert(w.drop_last() =~= seq![cs[i]]);
            assert(join_reversed(seq![cs[i]]) == cs[i]);
            assert(w2 =~= seq![cs[i + 1]]);
            assert(join_reversed(seq![cs[i + 1]]) == cs[i + 1]);
            assert(w.last() == cs[i + 1]);
            assert(join_reversed(w) =~= join_reversed(w2) + seq![64u8] + cs[i]);
        } else {
            lemma_join_step(cs, i, m - 1);
            assert(w.drop_last() =~= cs.subrange(i, m - 1));
            assert(w2.drop_last() =~= cs.subrange(i + 1, m - 1));
            assert(w.last() == w2.last());
            let a = join_reversed(cs.subrange(i + 1, m - 1));
            assert(join_reversed(cs.subrange(i, m - 1)) == a + seq![64u8] + cs[i]);
            assert(join_reversed(w) == w.last() + seq![64u8] + join_reversed(cs.subrange(i, m - 1)));
            assert(join_reversed(w2) == w2.last() + seq![64u8] + a);
            assert(join_reversed(w) =~= join_reversed(w2) + seq![64u8] + cs[i]);
        }
    }
}

fn slice_to_vec(b: &[u8]) -> (v: Vec<u8>)
    ensures
        v@ == b@,
{
    let mut v: Vec<u8> = Vec::new();
    let n = b.len();
    let mut i: usize = 0;
    while i < n
        invariant
            i <= n,
            n == b@.len(),
            v@ == b@.subrange(0, i as int),
        decreases n - i,
    {
        v.push(b[i]);
        i = i + 1;
    }
    assert(b@.subrange(0, n as int) =~= b@);
    v
}

/// Decodes a nested Itanium class name (`N...E`) to `Inner@Outer` form; text
/// in any other form comes back unchanged.
pub fn demangle_itanium(mangled: &str) -> (s: String)
    ensures
        s@ == utf8_lossy(demangle_bytes(encode_utf8(mangled@))),
        valid_utf8(demangle_bytes(encode_utf8(mangled@))) ==> s@ == decode_utf8(demangle_bytes(encode_utf8(mangled@))),
        demangle_bytes(encode_utf8(mangled@)) == encode_utf8(mangled@) ==> s@ == mangled@,
{
    let bytes = mangled.as_bytes();
    let out = demangle_raw(bytes);
    proof {
        encode_utf8_valid_utf8(mangled@);
        encode_utf8_decode_utf8(mangled@);
    }
    lossy_string(out.as_slice())
}

pub open spec fn is_alnum(b: u8) -> bool {
    (48 <= b <= 57) || (65 <= b <= 90) || (97 <= b <= 122)
}

/// A class name found behind a type-info record: the NUL-terminated text,
/// which must be non-empty and start with a letter, digit, `N` or `Z`,
/// decoded with `demangle_bytes`.
pub open spec fn rtti_from_buffer(buf: Seq<u8>) -> Option<Seq<char>> {
    match string_of_buffer(buf) {
        Some(s) => {
            let e = encode_utf8(s);
            if e.len() > 0 && (is_alnum(e[0]) || e[0] == 78 || e[0] == 90) {
                Some(utf8_lossy(demangle_bytes(e)))
            } else {
                None
            }
        },
        None => None,
    }
}

pub open spec fn rtti_after_nameptr(m: Memory, np: u64) -> Option<Seq<char>> {
    if !valid_ptr(np) {
        None
    } else {
        match mem_read(m, np as int, 256) {
            Some(buf) => rtti_from_buffer(buf),
            None => None,
        }
    }
}

pub open spec fn rtti_after_typeinfo(m: Memory, ti: u64) -> Option<Seq<char>> {
    if !valid_ptr(ti) {
        None
    } else {
        match mem_word(m, ti + 8) {
            Some(np) => rtti_after_nameptr(m, np),
            None => None,
        }
    }
}

pub open spec fn rtti_after_vtable(m: Memory, vt: u64) -> Option<Seq<char>> {
    if !valid_ptr(vt) {
        None
    } else {
        match mem_word(m, vt - 8) {
            Some(ti) => rtti_after_typeinfo(m, ti),
            None => None,
        }
    }
}

/// The class name of the object at `address`: its first word must point to a
/// vtable, the word before the vtable to a type-info record, and the word after
/// that record's start to the mangled name; every pointer must be a user-space
/// address and every read must succeed.
pub open spec fn rtti_model(m: Memory, address: u64) -> Option<Seq<char>> {
    match mem_word(m, address as int) {
        Some(vt) => rtti_after_vtable(m, vt),
        None => None,
    }
}

pub open spec fn info_view(r: Option<RttiInfo>) -> Option<Seq<char>> {
    match r {
        Some(i) => Some(i.name@),
        None => None,
    }
}

/// Builds the class name from the buffer read at the name pointer.
pub fn rtti_from_name_buffer(buf: &[u8]) -> (r: Option<RttiInfo>)
    ensures
        info_view(r) == rtti_from_buffer(buf@),
{
    match string_from_buffer(buf) {
        Some(s) => {
            let e = s.as_str().as_bytes();
            if e.len() > 0 {
                let first = e[0];
                let lead_ok = (first >= 48 && first <= 57) || (first >= 65 && first <= 90) || (first >= 97
                    && first <= 122) || first == 78 || first == 90;
                if lead_ok {
                    let name = demangle_itanium(s.as_str());
                    return Some(RttiInfo { name });
                }
            }
            None
        },
        None => None,
    }
}

pub enum ProbeStage {
    Vtable,
    Typeinfo,
    NamePtr,
    Name,
    Finished,
}

/// Reads RTTI at an address one memory read at a time: the caller performs each
/// requested read and hands back what it got (`None` when the read failed).
pub struct RttiProbe {
    address: Ghost<u64>,
    stage: ProbeStage,
    pending: ReadRequest,
    hist: Ghost<Seq<Answer>>,
}

pub open spec fn probe_resume_model(m: Memory, stage: ProbeStage, q: ReadRequest) -> Option<Seq<char>> {
    match stage {
        ProbeStage::Vtable => match mem_word(m, q.addr as int) {
            Some(vt) => rtti_after_vtable(m, vt),
            None => None,
        },
        ProbeStage::Typeinfo => match mem_word(m, q.addr as int) {
            Some(ti) => rtti_after_typeinfo(m, ti),
            None => None,
        },
        ProbeStage::NamePtr => match mem_word(m, q.addr as int) {
            Some(np) => rtti_after_nameptr(m, np),
            None => None,
        },
        ProbeStage::Name => match mem_read(m, q.addr as int, 256) {
            Some(buf) => rtti_from_buffer(buf),
            None => None,
        },
        ProbeStage::Finished => None,
    }
}

pub open spec fn probe_step_count(stage: ProbeStage) -> nat {
    match stage {
        ProbeStage::Vtable => 0,
        ProbeStage::Typeinfo => 1,
        ProbeStage::NamePtr => 2,
        ProbeStage::Name => 3,
        ProbeStage::Finished => 4,
    }
}

impl RttiProbe {
    pub closed spec fn address(&self) -> u64 {
        self.address@
    }

    pub closed spec fn history(&self) -> Seq<Answer> {
        self.hist@
    }

    pub closed spec fn pending(&self) -> ReadRequest {
        self.pending
    }

    pub closed spec fn awaiting(&self) -> bool {
        !(self.stage is Finished)
    }

    pub closed spec fn inv(&self) -> bool {
        &&& self.stage is Finished || self.hist@.len() == probe_step_count(self.stage)
        &&& self.hist@.len() <= 4
        &&& !(self.stage is Finished) ==> self.pending.len == (if self.stage is Name { 256usize } else { 8usize })
        &&& !(self.stage is Finished) ==> forall|m: Memory|
            agrees(m, self.hist@) ==> rtti_model(m, self.address@) == probe_resume_model(m, self.stage, self.pending)
    }

    /// Starts reading RTTI at `address`; the first read is the word there.
    pub fn start(address: u64) -> (r: (RttiProbe, ReadRequest))
        ensures
            r.0.inv(),
            r.0.awaiting(),
            r.0.address() == address,
            r.0.history() == Seq::<Answer>::empty(),
            r.1 == r.0.pending(),
            r.1.addr == address && r.1.len == 8,
    {
        let q = ReadRequest { addr: address, len: 8 };
        (RttiProbe { address: Ghost(address), stage: ProbeStage::Vtable, pending: q, hist: Ghost(Seq::empty()) }, q)
    }

    /// Takes the answer to the pending read. When the scan is over the result is
    /// the class name every memory that agrees with the answers has at the address.
    pub fn resume(&mut self, data: Option<Vec<u8>>) -> (p: Progress<Option<RttiInfo>>)
        requires
            old(self).inv(),
            old(self).awaiting(),
        ensures
            final(self).inv(),
            final(self).address() == old(self).address(),
            final(self).history() == old(self).history().push(answer_of(old(self).pending(), data)),
            match p {
                Progress::Read(q) => q == final(self).pending() && final(self).awaiting()
                    && final(self).history().len() < 4,
                Progress::Done(r) => !final(self).awaiting() && forall|m: Memory|
                    agrees(m, final(self).history()) ==> info_view(r) == rtti_model(m, final(self).address()),
            },
    {
        let ghost h0 = self.hist@;
        let ghost q0 = self.pending;
        let ghost st0 = self.stage;
        let ghost ans = answer_of(self.pending, data);
        proof {
            self.hist@ = self.hist@.push(ans);
        }
        let ghost h1 = self.hist@;
        assert forall|m: Memory| agrees(m, h1) implies agrees(m, h0) && mem_read(m, q0.addr as int, q0.len as nat) == ans.2 by {
            lemma_agrees_last(m, h1);
            assert(h1.drop_last() =~= h0);
        }
        match self.stage {
            ProbeStage::Vtable | ProbeStage::Typeinfo | ProbeStage::NamePtr => {
                let w = word_of(&data);
                assert forall|m: Memory| agrees(m, h1) implies w == mem_word(m, q0.addr as int) by {}
                match w {
                    None => {
                        self.stage = ProbeStage::Finished;
                        return Progress::Done(None);
                    },
                    Some(v) => {
                        if !is_valid_ptr(v) {
                            self.stage = ProbeStage::Finished;
                            return Progress::Done(None);
                        }
                        let q = match self.stage {
                            ProbeStage::Vtable => {
                                self.stage = ProbeStage::Typeinfo;
                                ReadRequest { addr: v - 8, len: 8 }
                            },
                            ProbeStage::Typeinfo => {
                                self.stage = ProbeStage::NamePtr;
                                ReadRequest { addr: v + 8, len: 8 }
                            },
                            _ => {
                                self.stage = ProbeStage::Name;
                                ReadRequest { addr: v, len: 256 }
                            },
                        };
                        self.pending = q;
                        return Progress::Read(q);
                    },
                }
            },
            ProbeStage::Name => {
                self.stage = ProbeStage::Finished;
                match data {
                    Some(buf) => {
                        if buf.len() == 256 {
                            let r = rtti_from_name_buffer(buf.as_slice());
                            return Progress::Done(r);
                        }
                        assert forall|m: Memory| agrees(m, h1) implies false by {}
                        return Progress::Done(None);
                    },
                    None => {
                        return Progress::Done(None);
                    },
                }
            },
            ProbeStage::Finished => {
                return Progress::Done(None);
            },
        }
    }
}

/// `a + b` modulo 2^64, as `u64::wrapping_add` computes it.
pub open spec fn wadd(a: u64, b: u64) -> u64 {
    if a + b > u64::MAX {
        (a + b - 0x1_0000_0000_0000_0000) as u64
    } else {
        (a + b) as u64
    }
}

/// The first offset `off` below `max`, stepping by `align` from zero, at which
/// the object at `base` holds a pointer to an object whose class name is
/// `target`. Slots that cannot be read, or whose word is not a user-space
/// pointer, are passed over.
pub open spec fn find_from(m: Memory, base: u64, target: Seq<char>, max: usize, align: usize, off: usize) -> Option<
    usize,
>
    decreases max + align - off,
{
    if align == 0 || off >= max {
        None
    } else if slot_hit(m, base, target, off) {
        Some(off)
    } else if off + align > usize::MAX {
        None
    } else {
        find_from(m, base, target, max, align, (off + align) as usize)
    }
}

/// The slot at `off` of the object at `base` points to an object of class
/// `target`.
pub open spec fn slot_hit(m: Memory, base: u64, target: Seq<char>, off: usize) -> bool {
    mem_word(m, wadd(base, off as u64) as int) matches Some(p) && valid_ptr(p) && rtti_model(m, p) == Some(target)
}

/// A slot found by the search lies in the searched range on the alignment
/// grid, and its word points to an object of the target class.
pub proof fn law_find_hit(m: Memory, base: u64, target: Seq<char>, max: usize, align: usize, off: usize)
    ensures
        find_from(m, base, target, max, align, off) matches Some(o) ==> {
            &&& off <= o < max
            &&& align > 0
            &&& (o - off) % (align as int) == 0
            &&& mem_word(m, wadd(base, o as u64) as int) matches Some(p) && valid_ptr(p) && rtti_model(m, p) == Some(target)
        },
    decreases max + align - off,
{
    if align == 0 || off >= max {
    } else if slot_hit(m, base, target, off) {
        assert((off - off) % (align as int) == 0) by (nonlinear_arith)
            requires
                align > 0,
        ;
    } else if off + align <= usize::MAX {
        law_find_hit(m, base, target, max, align, (off + align) as usize);
        if let Some(o) = find_from(m, base, target, max, align, (off + align) as usize) {
            assert((o - off) % (align as int) == 0) by (nonlinear_arith)
                requires
                    (o - (off + align)) % (align as int) == 0,
                    align > 0,
            ;
        }
    }
}

/// The search gives the first match: no slot on the grid before the result
/// (or anywhere in the range, when there is none) points to the target class.
pub proof fn law_find_first(m: Memory, base: u64, target: Seq<char>, max: usize, align: usize, off: usize, j: usize)
    requires
        align > 0,
        max + align <= usize::MAX,
        off <= j < max,
        (j - off) % (align as int) == 0,
        find_from(m, base, target, max, align, off) matches Some(o) ==> j < o,
    ensures
        !slot_hit(m, base, target, j),
    decreases j - off,
{
    if j > off {
        let d = j - off;
        let a = align as int;
        vstd::arithmetic::div_mod::lemma_mod_sub_multiples_vanish(d, a);
        vstd::arithmetic::div_mod::lemma_fundamental_div_mod(d, a);
        let q = d / a;
        assert(d >= a) by (nonlinear_arith)
            requires
                d == a * q,
                d > 0,
                a > 0,
        ;
        assert(-a + d == j - (off + align));
        if !slot_hit(m, base, target, off) {
            law_find_first(m, base, target, max, align, (off + align) as usize, j);
        }
    }
}

/// Searches an object for a pointer to an object of a given class (see
/// `find_from`), one memory read at a time.
pub struct RttiFind {
    base: u64,
    target: String,
    max: usize,
    align: usize,
    off: usize,
    probing: bool,
    probe: RttiProbe,
    finished: bool,
    pending: ReadRequest,
    prefix: Ghost<Seq<Answer>>,
    hist: Ghost<Seq<Answer>>,
}

impl RttiFind {
    pub closed spec fn history(&self) -> Seq<Answer> {
        self.hist@
    }

    pub closed spec fn pending(&self) -> ReadRequest {
        self.pending
    }

    pub closed spec fn awaiting(&self) -> bool {
        !self.finished
    }

    pub closed spec fn result_model(&self, m: Memory) -> Option<usize> {
        find_from(m, self.base, self.target@, self.max, self.align, 0)
    }

    /// An upper bound on the reads the search still asks for: six for each
    /// slot left, fewer within the current slot.
    pub closed spec fn reads_left(&self) -> nat {
        if self.finished {
            0
        } else {
            ((self.max - self.off) * 6 + if self.probing {
                4 - self.probe.history().len()
            } else {
                5
            }) as nat
        }
    }

    pub closed spec fn inv(&self) -> bool {
        &&& self.align > 0
        &&& self.max + self.align <= usize::MAX
        &&& !self.finished ==> {
            &&& self.off < self.max
            &&& forall|m: Memory| agrees(m, self.hist@) ==> #[trigger] self.result_model(m) == find_from(m, self.base, self.target@, self.max, self.align, self.off)
            &&& !self.probing ==> self.pending == ReadRequest { addr: wadd(self.base, self.off as u64), len: 8 }
            &&& self.probing ==> {
                &&& self.probe.inv()
                &&& self.probe.awaiting()
                &&& self.probe.history().len() < 4
                &&& self.hist@ == self.prefix@ + self.probe.history()
                &&& self.pending == self.probe.pending()
                &&& valid_ptr(self.probe.address())
                &&& forall|m: Memory| agrees(m, self.prefix@) ==> mem_word(m, wadd(self.base, self.off as u64) as int) == Some(self.probe.address())
            }
        }
    }

    /// Starts searching the object at `base` for a pointer to a `target` object
    /// in the slots `0, align, 2*align, ...` below `max`.
    pub fn start(base: u64, target: &str, max: usize, align: usize) -> (r: (RttiFind, Progress<Option<usize>>))
        requires
            align > 0,
            max + align <= usize::MAX,
        ensures
            r.0.inv(),
            r.0.history() == Seq::<Answer>::empty(),
            forall|m: Memory| #[trigger] r.0.result_model(m) == find_from(m, base, target@, max, align, 0),
            r.0.reads_left() <= max * 6 + 5,
            match r.1 {
                Progress::Read(q) => q == r.0.pending() && r.0.awaiting(),
                Progress::Done(x) => (x is None) && max == 0,
            },
    {
        let (probe, _q) = RttiProbe::start(0);
        let q = ReadRequest { addr: base.wrapping_add(0), len: 8 };
        let f = RttiFind {
            base,
            target: String::from_str(target),
            max,
            align,
            off: 0,
            probing: false,
            probe,
            finished: max == 0,
            pending: q,
            prefix: Ghost(Seq::empty()),
            hist: Ghost(Seq::empty()),
        };
        if max == 0 {
            (f, Progress::Done(None))
        } else {
            (f, Progress::Read(q))
        }
    }

    /// Moves past the slot at the current offset.
    fn advance(&mut self) -> (p: Progress<Option<usize>>)
        requires
            !old(self).finished,
            old(self).align > 0,
            old(self).max + old(self).align <= usize::MAX,
            old(self).off < old(self).max,
        ensures
            final(self).base == old(self).base,
            final(self).target == old(self).target,
            final(self).max == old(self).max,
            final(self).align == old(self).align,
            final(self).hist == old(self).hist,
            final(self).probe == old(self).probe,
            final(self).prefix == old(self).prefix,
            final(self).off == old(self).off + old(self).align,
            !final(self).probing,
            final(self).finished == (final(self).off >= final(self).max),
            !final(self).finished ==> final(self).pending == (ReadRequest { addr: wadd(final(self).base, final(self).off as u64), len: 8 }),
            match p {
                Progress::Read(q) => q == final(self).pending && !final(self).finished,
                Progress::Done(x) => (x is None) && final(self).finished,
            },
    {
        self.off = self.off + self.align;
        self.probing = false;
        if self.off < self.max {
            let q = ReadRequest { addr: self.base.wrapping_add(self.off as u64), len: 8 };
            self.pending = q;
            Progress::Read(q)
        } else {
            self.finished = true;
            Progress::Done(None)
        }
    }

    /// Takes the answer to the pending read. When the search is over the result
    /// is the offset that every memory agreeing with the answers gives.
    pub fn resume(&mut self, data: Option<Vec<u8>>) -> (p: Progress<Option<usize>>)
        requires
            old(self).inv(),
            old(self).awaiting(),
        ensures
            final(self).inv(),
            forall|m: Memory| #[trigger] final(self).result_model(m) == old(self).result_model(m),
            final(self).history() == old(self).history().push(answer_of(old(self).pending(), data)),
            match p {
                Progress::Read(q) => q == final(self).pending() && final(self).awaiting() && final(self).reads_left()
                    < old(self).reads_left(),
                Progress::Done(r) => !final(self).awaiting() && forall|m: Memory|
                    agrees(m, final(self).history()) ==> r == #[trigger] final(self).result_model(m),
            },
    {
        let ghost h0 = self.hist@;
        let ghost q0 = self.pending;
        let ghost ans = answer_of(self.pending, data);
        let off0 = self.off;
        proof {
            self.hist@ = self.hist@.push(ans);
        }
        let ghost h1 = self.hist@;
        assert forall|m: Memory| agrees(m, h1) implies agrees(m, h0) && mem_read(m, q0.addr as int, q0.len as nat) == ans.2 by {
            lemma_agrees_last(m, h1);
            assert(h1.drop_last() =~= h0);
        }
        assert forall|m: Memory| agrees(m, h1) implies #[trigger] self.result_model(m) == find_from(m, self.base, self.target@, self.max, self.align, off0) by {
            lemma_agrees_push(m, h0, ans);
            assert(old(self).result_model(m) == find_from(m, self.base, self.target@, self.max, self.align, off0));
        }
        if !self.probing {
            let w = word_of(&data);
            assert forall|m: Memory| agrees(m, h1) implies w == mem_word(m, wadd(self.base, off0 as u64) as int) by {}
            match w {
                None => {
                    let p = self.advance();
                    assert forall|m: Memory| agrees(m, self.hist@) implies #[trigger] self.result_model(m) == find_from(m, self.base, self.target@, self.max, self.align, self.off) by {
                        lemma_agrees_push(m, h0, ans);
                        assert(old(self).result_model(m) == find_from(m, self.base, self.target@, self.max, self.align, off0));
                    }
                    return p;
                },
                Some(v) => {
                    if !is_valid_ptr(v) {
                        let p = self.advance();
                        assert forall|m: Memory| agrees(m, self.hist@) implies #[trigger] self.result_model(m) == find_from(m, self.base, self.target@, self.max, self.align, self.off) by {
                            lemma_agrees_push(m, h0, ans);
                            assert(old(self).result_model(m) == find_from(m, self.base, self.target@, self.max, self.align, off0));
                            assert(find_from(m, self.base, self.target@, self.max, self.align, off0) == find_from(m, self.base, self.target@, self.max, self.align, self.off));
                        }
                        return p;
                    }
                    let (probe, q) = RttiProbe::start(v);
                    self.probe = probe;
                    self.probing = true;
                    self.pending = q;
                    proof {
                        self.prefix@ = h1;
                        assert(self.hist@ =~= self.prefix@ + self.probe.history());
                        assert forall|m: Memory| agrees(m, self.prefix@) implies mem_word(m, wadd(self.base, self.off as u64) as int) == Some(self.probe.address()) by {
                            lemma_agrees_push(m, h0, ans);
                        }
                        assert forall|m: Memory| agrees(m, self.hist@) implies #[trigger] self.result_model(m) == find_from(m, self.base, self.target@, self.max, self.align, self.off) by {
                            lemma_agrees_push(m, h0, ans);
                            assert(old(self).result_model(m) == find_from(m, self.base, self.target@, self.max, self.align, off0));
                        }
                    }
                    return Progress::Read(q);
                },
            }
        } else {
            let ghost pre = self.prefix@;
            let r = self.probe.resume(data);
            proof {
                assert(self.hist@ =~= self.prefix@ + self.probe.history());
            }
            match r {
                Progress::Read(q) => {
                    self.pending = q;
                    assert forall|m: Memory| agrees(m, self.hist@) implies #[trigger] self.result_model(m) == find_from(m, self.base, self.target@, self.max, self.align, self.off) by {
                        lemma_agrees_push(m, h0, ans);
                        assert(old(self).result_model(m) == find_from(m, self.base, self.target@, self.max, self.align, off0));
                    }
                    return Progress::Read(q);
                },
                Progress::Done(info) => {
                    let ghost ptr = self.probe.address();
                    let hit = match &info {
                        Some(i) => i.name == self.target,
                        None => false,
                    };
                    assert forall|m: Memory| agrees(m, self.hist@) implies hit == (rtti_model(m, ptr) == Some(self.target@)) by {
                        crate::memory::lemma_agrees_suffix(m, self.prefix@, self.probe.history());
                    }
                    if hit {
                        self.finished = true;
                        assert forall|m: Memory| agrees(m, self.hist@) implies Some(off0) == #[trigger] self.result_model(m) by {
                            crate::memory::lemma_agrees_suffix(m, self.prefix@, self.probe.history());
                            lemma_agrees_push(m, h0, ans);
                            assert(old(self).result_model(m) == find_from(m, self.base, self.target@, self.max, self.align, off0));
                        }
                        return Progress::Done(Some(off0));
                    }
                    let p = self.advance();
                    assert forall|m: Memory| agrees(m, self.hist@) implies #[trigger] self.result_model(m) == find_from(m, self.base, self.target@, self.max, self.align, self.off) by {
                        crate::memory::lemma_agrees_suffix(m, self.prefix@, self.probe.history());
                        lemma_agrees_push(m, h0, ans);
                        assert(old(self).result_model(m) == find_from(m, self.base, self.target@, self.max, self.align, off0));
                        assert(find_from(m, self.base, self.target@, self.max, self.align, off0) == find_from(m, self.base, self.target@, self.max, self.align, self.off));
                    }
                    if self.finished {
                        assert forall|m: Memory| agrees(m, self.hist@) implies None::<usize> == #[trigger] self.result_model(m) by {}
                    }
                    return p;
                },
            }
        }
    }
}

} // verus!
