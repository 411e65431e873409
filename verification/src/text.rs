use vstd::prelude::*;
use vstd::string::*;
use vstd::utf8::encode_utf8;

verus! {

/// Strict lexicographic order on character sequences, comparing code points.
/// This is the order in which `String` keys of an ordered map are visited.
pub open spec fn chars_lt(a: Seq<char>, b: Seq<char>) -> bool
    decreases a.len(),
{
    if a.len() == 0 {
        b.len() > 0
    } else if b.len() == 0 {
        false
    } else if a[0] != b[0] {
        (a[0] as u32) < (b[0] as u32)
    } else {
        chars_lt(a.drop_first(), b.drop_first())
    }
}

pub proof fn lemma_chars_lt_irreflexive(a: Seq<char>)
    ensures
        !chars_lt(a, a),
    decreases a.len(),
{
    if a.len() > 0 {
        lemma_chars_lt_irreflexive(a.drop_first());
    }
}

pub proof fn lemma_chars_lt_total(a: Seq<char>, b: Seq<char>)
    requires
        a != b,
    ensures
        chars_lt(a, b) || chars_lt(b, a),
    decreases a.len(),
{
    if a.len() > 0 && b.len() > 0 {
        if a[0] == b[0] {
            if a.drop_first() == b.drop_first() {
                assert(a =~= seq![a[0]] + a.drop_first());
                assert(b =~= seq![b[0]] + b.drop_first());
            }
            lemma_chars_lt_total(a.drop_first(), b.drop_first());
        } else {
            vstd::utf8::char_u32_cast(a[0], a[0] as u32);
            vstd::utf8::char_u32_cast(b[0], b[0] as u32);
        }
    } else if a.len() == 0 && b.len() == 0 {
        assert(a =~= b);
    }
}

pub proof fn lemma_chars_lt_transitive(a: Seq<char>, b: Seq<char>, c: Seq<char>)
    requires
        chars_lt(a, b),
        chars_lt(b, c),
    ensures
        chars_lt(a, c),
    decreases a.len(),
{
    if a.len() > 0 && b.len() > 0 && c.len() > 0 {
        if a[0] == b[0] && b[0] == c[0] {
            lemma_chars_lt_transitive(a.drop_first(), b.drop_first(), c.drop_first());
        } else {
            vstd::utf8::char_u32_cast(a[0], a[0] as u32);
            vstd::utf8::char_u32_cast(b[0], b[0] as u32);
            vstd::utf8::char_u32_cast(c[0], c[0] as u32);
        }
    }
}

/// `a` comes before `b` when they agree on their first `i` characters and
/// then `a` ends first or has the smaller character at `i`.
pub proof fn lemma_chars_lt_at(a: Seq<char>, b: Seq<char>, i: int)
    requires
        0 <= i <= a.len(),
        i <= b.len(),
        forall|k: int| 0 <= k < i ==> a[k] == b[k],
        (i == a.len() && i < b.len()) || (i < a.len() && i < b.len() && (a[i] as u32) < (b[i] as u32)),
    ensures
        chars_lt(a, b),
    decreases i,
{
    if i > 0 {
        assert forall|k: int| 0 <= k < i - 1 implies a.drop_first()[k] == b.drop_first()[k] by {
            assert(a[k + 1] == b[k + 1]);
        }
        lemma_chars_lt_at(a.drop_first(), b.drop_first(), i - 1);
        assert(a[0] == b[0]);
    }
}

/// Compares two strings in code-point lexicographic order.
pub fn str_lt(a: &str, b: &str) -> (r: bool)
    ensures
        r == chars_lt(a@, b@),
{
    let la = a.unicode_len();
    let lb = b.unicode_len();
    let mut i: usize = 0;
    assert(a@.subrange(0, la as int) =~= a@);
    assert(b@.subrange(0, lb as int) =~= b@);
    while i < la && i < lb
        invariant
            i <= la,
            i <= lb,
            la == a@.len(),
            lb == b@.len(),
            chars_lt(a@, b@) == chars_lt(a@.subrange(i as int, la as int), b@.subrange(i as int, lb as int)),
        decreases la - i,
    {
        let ca = a.get_char(i);
        let cb = b.get_char(i);
        if ca != cb {
            return (ca as u32) < (cb as u32);
        }
        assert(a@.subrange(i as int, la as int).drop_first() =~= a@.subrange(i + 1, la as int));
        assert(b@.subrange(i as int, lb as int).drop_first() =~= b@.subrange(i + 1, lb as int));
        i = i + 1;
    }
    i < lb
}

/// Equality of two strings.
pub fn str_eq(a: &str, b: &str) -> (r: bool)
    ensures
        r == (a@ == b@),
{
    let x = String::from_str(a);
    let y = String::from_str(b);
    x == y
}

/// `needle` occurs in `hay` as a run of bytes starting at `i`.
pub open spec fn occurs_at(hay: Seq<u8>, needle: Seq<u8>, i: int) -> bool {
    0 <= i && i + needle.len() <= hay.len() && hay.subrange(i, i + needle.len()) == needle
}

/// `needle` occurs in `hay` as a run of bytes.
pub open spec fn bytes_contain(hay: Seq<u8>, needle: Seq<u8>) -> bool {
    exists|i: int| occurs_at(hay, needle, i)
}

/// Whether `needle` occurs in `hay` (as `str::contains` with a string pattern,
/// which matches the UTF-8 encodings).
pub fn str_contains(hay: &str, needle: &str) -> (r: bool)
    ensures
        r == bytes_contain(encode_utf8(hay@), encode_utf8(needle@)),
{
    let h = hay.as_bytes();
    let n = needle.as_bytes();
    let hl = h.len();
    let nl = n.len();
    if nl > hl {
        assert forall|i: int| !occurs_at(h@, n@, i) by {}
        return false;
    }
    let mut i: usize = 0;
    while i <= hl - nl
        invariant
            hl == h@.len(),
            nl == n@.len(),
            h@ == encode_utf8(hay@),
            n@ == encode_utf8(needle@),
            nl <= hl,
            i <= hl - nl + 1,
            forall|j: int| 0 <= j < i ==> !occurs_at(h@, n@, j),
        decreases hl - nl + 1 - i,
    {
        let mut k: usize = 0;
        while k < nl && h[i + k] == n[k]
            invariant
                hl == h@.len(),
                nl == n@.len(),
                i + nl <= hl,
                k <= nl,
                forall|t: int| 0 <= t < k ==> h@[i + t] == n@[t],
            decreases nl - k,
        {
            k = k + 1;
        }
        if k == nl {
            assert(h@.subrange(i as int, i + nl) =~= n@);
            assert(occurs_at(h@, n@, i as int));
            return true;
        }
        assert(!occurs_at(h@, n@, i as int)) by {
            if occurs_at(h@, n@, i as int) {
                assert(h@.subrange(i as int, i + nl)[k as int] == h@[i + k]);
            }
        }
        i = i + 1;
    }
    assert forall|j: int| !occurs_at(h@, n@, j) by {
        if 0 <= j && j + nl <= hl {
            assert(j < i);
        }
    }
    false
}

/// Whether `s` starts with `prefix` (as `str::starts_with` with a string pattern).
pub fn str_starts_with(s: &str, prefix: &str) -> (r: bool)
    ensures
        r == occurs_at(encode_utf8(s@), encode_utf8(prefix@), 0),
{
    let h = s.as_bytes();
    let n = prefix.as_bytes();
    if n.len() > h.len() {
        return false;
    }
    let nl = n.len();
    let mut k: usize = 0;
    while k < nl
        invariant
            nl == n@.len(),
            nl <= h@.len(),
            h@ == encode_utf8(s@),
            n@ == encode_utf8(prefix@),
            k <= nl,
            forall|t: int| 0 <= t < k ==> h@[t] == n@[t],
        decreases nl - k,
    {
        if h[k] != n[k] {
            assert(!occurs_at(h@, n@, 0)) by {
                if occurs_at(h@, n@, 0) {
                    assert(h@.subrange(0, nl as int)[k as int] == h@[k as int]);
                }
            }
            return false;
        }
        k = k + 1;
    }
    assert(h@.subrange(0, nl as int) =~= n@);
    true
}

/// The number of bytes in the UTF-8 encoding of a string (what `str::len` gives).
pub fn byte_len(s: &str) -> (n: usize)
    ensures
        n == encode_utf8(s@).len(),
{
    s.as_bytes().len()
}

} // verus!
