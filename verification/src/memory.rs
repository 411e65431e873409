use vstd::prelude::*;
use vstd::utf8::{decode_utf8, valid_utf8};

verus! {

/// The target process's memory as the contracts see it: the bytes that can be
/// read, by address.
pub type Memory = Map<int, u8>;

/// Reading `len` bytes at `addr` succeeds exactly when every one of them is
/// readable, and gives them in order.
pub open spec fn mem_read(m: Memory, addr: int, len: nat) -> Option<Seq<u8>> {
    if forall|i: int| 0 <= i < len ==> #[trigger] m.contains_key(addr + i) {
        Some(Seq::new(len, |i: int| m[addr + i]))
    } else {
        None
    }
}

/// The little-endian value of a byte string.
pub open spec fn le_value(b: Seq<u8>) -> nat
    decreases b.len(),
{
    if b.len() == 0 {
        0
    } else {
        b[0] as nat + 256 * le_value(b.drop_first())
    }
}

/// The machine word stored at `addr`, if its 8 bytes can be read.
pub open spec fn mem_word(m: Memory, addr: int) -> Option<u64> {
    match mem_read(m, addr, 8) {
        Some(b) => Some(le_value(b) as u64),
        None => None,
    }
}

/// One read that was asked for and what came back.
pub type Answer = (int, nat, Option<Seq<u8>>);

/// A memory agrees with the answers handed in so far.
pub open spec fn agrees(m: Memory, h: Seq<Answer>) -> bool {
    forall|k: int| 0 <= k < h.len() ==> mem_read(m, (#[trigger] h[k]).0, h[k].1) == h[k].2
}

pub proof fn lemma_agrees_suffix(m: Memory, a: Seq<Answer>, b: Seq<Answer>)
    requires
        agrees(m, a + b),
    ensures
        agrees(m, a),
        agrees(m, b),
{
    assert forall|k: int| 0 <= k < b.len() implies mem_read(m, (#[trigger] b[k]).0, b[k].1) == b[k].2 by {
        assert((a + b)[a.len() + k] == b[k]);
    }
    assert forall|k: int| 0 <= k < a.len() implies mem_read(m, (#[trigger] a[k]).0, a[k].1) == a[k].2 by {
        assert((a + b)[k] == a[k]);
    }
}

pub proof fn lemma_agrees_last(m: Memory, h: Seq<Answer>)
    requires
        agrees(m, h),
        h.len() > 0,
    ensures
        agrees(m, h.drop_last()),
        mem_read(m, h.last().0, h.last().1) == h.last().2,
{
    assert(h[h.len() - 1] == h.last());
    assert forall|k: int| 0 <= k < h.drop_last().len() implies mem_read(m, (#[trigger] h.drop_last()[k]).0, h.drop_last()[k].1) == h.drop_last()[k].2 by {
        assert(h.drop_last()[k] == h[k]);
    }
}

pub proof fn lemma_agrees_push(m: Memory, h: Seq<Answer>, a: Answer)
    requires
        agrees(m, h.push(a)),
    ensures
        agrees(m, h),
        mem_read(m, a.0, a.1) == a.2,
{
    lemma_agrees_last(m, h.push(a));
    assert(h.push(a).drop_last() =~= h);
}

/// A read the caller is asked to make in the target process.
#[derive(Clone, Copy)]
pub struct ReadRequest {
    pub addr: u64,
    pub len: usize,
}

/// What a scan asks for next: a read, or nothing more because it has its result.
pub enum Progress<T> {
    Read(ReadRequest),
    Done(T),
}

pub open spec fn answer_of(q: ReadRequest, data: Option<Vec<u8>>) -> Answer {
    (q.addr as int, q.len as nat, match data {
        Some(v) => Some(v@),
        None => None,
    })
}

/// 256 to the power `n`.
pub open spec fn pow256(n: nat) -> nat
    decreases n,
{
    if n == 0 {
        1
    } else {
        256 * pow256((n - 1) as nat)
    }
}

pub proof fn lemma_pow256_mono(a: nat, b: nat)
    requires
        a <= b,
    ensures
        pow256(a) <= pow256(b),
    decreases b,
{
    if a < b {
        lemma_pow256_mono(a, (b - 1) as nat);
    }
}

pub proof fn lemma_le_bound(b: Seq<u8>)
    ensures
        le_value(b) < pow256(b.len()),
    decreases b.len(),
{
    if b.len() > 0 {
        lemma_le_bound(b.drop_first());
    }
}

/// The little-endian value of `n <= 8` bytes of `data` starting at `start`.
pub fn le_at(data: &[u8], start: usize, n: usize) -> (v: u64)
    requires
        n <= 8,
        start + n <= data@.len(),
    ensures
        v == le_value(data@.subrange(start as int, start + n)),
{
    let mut v: u64 = 0;
    let mut i: usize = n;
    let dl = data.len();
    while i > 0
        invariant
            dl == data@.len(),
            i <= n <= 8,
            start + n <= data@.len(),
            v == le_value(data@.subrange(start + i, start + n)),
        decreases i,
    {
        let ghost tail = data@.subrange(start + i, start + n);
        let ghost longer = data@.subrange(start + i - 1, start + n);
        proof {
            assert(longer.drop_first() =~= tail);
            lemma_le_bound(tail);
            lemma_pow256_mono(tail.len(), 7);
            reveal_with_fuel(pow256, 8);
            assert(pow256(7) == 0x100000000000000);
        }
        i = i - 1;
        v = v * 256 + data[start + i] as u64;
    }
    v
}

/// The word value of an 8-byte answer; any other answer counts as a failed read.
pub fn word_of(data: &Option<Vec<u8>>) -> (w: Option<u64>)
    ensures
        w == (match data {
            Some(v) => if v@.len() == 8 { Some(le_value(v@) as u64) } else { None },
            None => None,
        }),
{
    match data {
        Some(v) => {
            if v.len() == 8 {
                let x = le_at(v.as_slice(), 0, 8);
                assert(v@.subrange(0, 8) =~= v@);
                Some(x)
            } else {
                None
            }
        },
        None => None,
    }
}

/// The bytes of `buf` before its first zero byte (all of it when there is none).
pub open spec fn c_prefix(buf: Seq<u8>) -> Seq<u8>
    decreases buf.len(),
{
    if buf.len() == 0 || buf[0] == 0 {
        Seq::empty()
    } else {
        seq![buf[0]] + c_prefix(buf.drop_first())
    }
}

/// Index of the first zero byte of `buf`, or its length.
pub fn zero_position(buf: &[u8]) -> (p: usize)
    ensures
        p <= buf@.len(),
        c_prefix(buf@) == buf@.subrange(0, p as int),
        p < buf@.len() ==> buf@[p as int] == 0,
        forall|i: int| 0 <= i < p ==> buf@[i] != 0,
{
    let n = buf.len();
    let mut i: usize = 0;
    while i < n && buf[i] != 0
        invariant
            i <= n,
            n == buf@.len(),
            forall|j: int| 0 <= j < i ==> buf@[j] != 0,
        decreases n - i,
    {
        i = i + 1;
    }
    proof {
        lemma_c_prefix(buf@, i as int);
    }
    i
}

proof fn lemma_c_prefix(b: Seq<u8>, p: int)
    requires
        0 <= p <= b.len(),
        forall|j: int| 0 <= j < p ==> b[j] != 0,
        p < b.len() ==> b[p] == 0,
    ensures
        c_prefix(b) == b.subrange(0, p),
    decreases b.len(),
{
    if b.len() == 0 || b[0] == 0 {
        assert(b.subrange(0, p) =~= Seq::<u8>::empty());
    } else {
        lemma_c_prefix(b.drop_first(), p - 1);
        assert(b.subrange(0, p) =~= seq![b[0]] + b.drop_first().subrange(0, p - 1));
    }
}

/// The text that `String::from_utf8_lossy` makes of a byte string.
pub uninterp spec fn utf8_lossy(bytes: Seq<u8>) -> Seq<char>;

/// Calls `String::from_utf8_lossy` and takes ownership of the text. The
/// contract names the result and states what the documentation promises:
/// for valid UTF-8 the text is that encoding's decoding, and the text is
/// empty exactly when the bytes are (each invalid sequence becomes a
/// replacement character); how invalid sequences are replaced is not stated.
#[verifier::external_body]
pub fn lossy_string(bytes: &[u8]) -> (s: String)
    ensures
        s@ == utf8_lossy(bytes@),
        valid_utf8(bytes@) ==> s@ == decode_utf8(bytes@),
        (s@.len() == 0) == (bytes@.len() == 0),
{
    String::from_utf8_lossy(bytes).into_owned()
}

/// The text of a NUL-terminated string read into `buf`, when it is not empty.
pub open spec fn string_of_buffer(buf: Seq<u8>) -> Option<Seq<char>> {
    if utf8_lossy(c_prefix(buf)).len() == 0 {
        None
    } else {
        Some(utf8_lossy(c_prefix(buf)))
    }
}

/// Takes the text up to the first NUL of a buffer read from the target.
pub fn string_from_buffer(buf: &[u8]) -> (r: Option<String>)
    ensures
        match r {
            Some(s) => string_of_buffer(buf@) == Some(s@),
            None => string_of_buffer(buf@).is_none(),
        },
        r.is_none() == (c_prefix(buf@).len() == 0),
{
    let end = zero_position(buf);
    let head = slice_prefix(buf, end);
    let s = lossy_string(head.as_slice());
    if s.as_str().is_empty() {
        None
    } else {
        Some(s)
    }
}

/// The first `n` bytes of `buf`.
pub fn slice_prefix(buf: &[u8], n: usize) -> (v: Vec<u8>)
    requires
        n <= buf@.len(),
    ensures
        v@ == buf@.subrange(0, n as int),
{
    let mut v: Vec<u8> = Vec::new();
    let mut i: usize = 0;
    while i < n
        invariant
            i <= n <= buf@.len(),
            v@ == buf@.subrange(0, i as int),
        decreases n - i,
    {
        v.push(buf[i]);
        i = i + 1;
    }
    v
}

/// Accepts a signed 64-bit value as an offset field only when its magnitude is
/// at most ten million.
pub fn i64_is_sane(v: i64) -> (ok: bool)
    ensures
        ok == (-10_000_000 <= v <= 10_000_000),
{
    !(v < -10_000_000 || v > 10_000_000)
}

} // verus!
