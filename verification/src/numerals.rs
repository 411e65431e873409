//! The digits the output files write for offsets and counts read back as the
//! numbers they stand for.

use vstd::prelude::*;

use crate::writer::{digit_char, digits};

verus! {

/// The value of a decimal or upper-case hexadecimal digit; 16 for any other
/// character.
pub open spec fn digit_value(c: char) -> int {
    if '0' <= c && c <= '9' {
        c as int - '0' as int
    } else if 'A' <= c && c <= 'F' {
        c as int - 'A' as int + 10
    } else {
        16
    }
}

/// The number a run of digits in `base` reads as, most significant first.
pub open spec fn digits_value(s: Seq<char>, base: nat) -> int
    decreases s.len(),
{
    if s.len() == 0 {
        0
    } else {
        digits_value(s.drop_last(), base) * base + digit_value(s.last())
    }
}

/// The digits written for a number read back as that number: each is a digit
/// of the base (`0`-`9`, then `A`-`F`), and there is no leading zero except
/// for zero itself.
pub proof fn law_digits_read_back(n: nat, base: nat)
    requires
        2 <= base <= 16,
    ensures
        digits_value(digits(n, base), base) == n,
        forall|i: int| 0 <= i < digits(n, base).len() ==> 0 <= #[trigger] digit_value(digits(n, base)[i]) < base,
        digits(n, base).len() >= 1,
        n > 0 ==> digits(n, base)[0] != '0',
    decreases n,
{
    if n < base {
        let c = digit_char(n);
        assert(digits(n, base) =~= seq![c]);
        assert(seq![c].drop_last() =~= Seq::<char>::empty());
        assert('0' as int == 48 && '9' as int == 57 && 'A' as int == 65 && 'F' as int == 70);
        if n < 10 {
            assert(c as int == n + 48);
        } else {
            assert(c as int == n + 55);
        }
        assert(digit_value(c) == n);
        assert(digits_value(Seq::<char>::empty(), base) == 0);
        assert(0 * base == 0);
        assert(digits_value(seq![c], base) == digits_value(seq![c].drop_last(), base) * base + digit_value(c));
    } else {
        assert(n / base < n && n / base >= 1 && n % base < base && (n / base) * base + n % base == n)
            by (nonlinear_arith)
            requires
                base >= 2,
                n >= base,
        ;
        law_digits_read_back(n / base, base);
        let hd = digits(n / base, base);
        let c = digit_char(n % base);
        let d = digits(n, base);
        assert(d == hd + seq![c]);
        assert(d.drop_last() =~= hd);
        assert(d.last() == c);
        assert('0' as int == 48 && '9' as int == 57 && 'A' as int == 65 && 'F' as int == 70);
        if n % base < 10 {
            assert(c as int == n % base + 48);
        } else {
            assert(c as int == n % base + 55);
        }
        assert(digits_value(d, base) == digits_value(hd, base) * base + (n % base));
        assert forall|i: int| 0 <= i < d.len() implies 0 <= #[trigger] digit_value(d[i]) < base by {
            if i < hd.len() {
                assert(d[i] == hd[i]);
            }
        }
        assert(d[0] == hd[0]);
    }
}

} // verus!
