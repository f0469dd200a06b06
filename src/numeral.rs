//! The mathematical model of a numeral: the ASCII text that denotes an integer
//! in a base from 2 to 36, and the value that such a text denotes.
use vstd::arithmetic::div_mod::{
    lemma_div_is_ordered, lemma_div_is_ordered_by_denominator, lemma_div_is_strictly_smaller,
};
use vstd::arithmetic::power2::{lemma_pow2_unfold, pow2};
use vstd::prelude::*;

verus! {

/// The ASCII minus sign.
pub const MINUS: u8 = 45;

/// The character that stands for the digit `d`: `0`-`9`, then `A`-`Z`.
pub open spec fn digit_char(d: nat) -> u8 {
    if d < 10 {
        (48 + d) as u8
    } else {
        (55 + d) as u8
    }
}

/// The digit that the character `c` stands for, or -1 when it is no digit.
pub open spec fn digit_value(c: u8) -> int {
    if 48 <= c <= 57 {
        c - 48
    } else if 65 <= c <= 90 {
        c - 55
    } else {
        -1
    }
}

/// The digits of `n` in base `base`, most significant first, without leading
/// zeros; zero has the single digit `0`.
pub open spec fn digits(n: nat, base: nat) -> Seq<u8>
    decreases n,
    via digits_decreases
{
    if base < 2 || n < base {
        seq![digit_char(n)]
    } else {
        digits(n / base, base).push(digit_char(n % base))
    }
}

#[via_fn]
proof fn digits_decreases(n: nat, base: nat) {
    if !(base < 2 || n < base) {
        lemma_div_is_strictly_smaller(n as int, base as int);
    }
}

/// The numeral of `v` in base `base`: its digits, after a minus sign when `v`
/// is negative.
pub open spec fn numeral(v: int, base: nat) -> Seq<u8> {
    if v < 0 {
        seq![MINUS] + digits((-v) as nat, base)
    } else {
        digits(v as nat, base)
    }
}

/// The digits of the magnitude `mag`, after a minus sign when `negative`.
pub open spec fn signed_digits(negative: bool, mag: nat, base: nat) -> Seq<u8> {
    if negative {
        seq![MINUS] + digits(mag, base)
    } else {
        digits(mag, base)
    }
}

/// The number of bytes that the digits of `n` take, plus one for a sign when
/// `negative`.
pub open spec fn space(base: nat, n: nat, negative: bool) -> nat {
    digits(n, base).len() + if negative {
        1nat
    } else {
        0nat
    }
}

/// The value of a sequence of digits in base `base`, read most significant
/// first.
pub open spec fn digits_value(s: Seq<u8>, base: nat) -> int
    decreases s.len(),
{
    if s.len() == 0 {
        0
    } else {
        digits_value(s.drop_last(), base) * base + digit_value(s.last())
    }
}

/// The value of a numeral: an optional minus sign, then digits.
pub open spec fn numeral_value(s: Seq<u8>, base: nat) -> int {
    if s.len() > 0 && s[0] == MINUS {
        -digits_value(s.drop_first(), base)
    } else {
        digits_value(s, base)
    }
}

/// Whether `s` is a well-formed numeral in base `base`: an optional minus sign,
/// then one or more characters that each stand for a digit below `base`.
pub open spec fn is_numeral(s: Seq<u8>, base: nat) -> bool {
    let body = if s.len() > 0 && s[0] == MINUS {
        s.drop_first()
    } else {
        s
    };
    &&& body.len() >= 1
    &&& forall|i: int| 0 <= i < body.len() ==> 0 <= #[trigger] digit_value(body[i]) < base
}

/// What a buffer holds after a numeral `text` was written into it: its length
/// is kept, `text` fills its tail, and every byte before it is untouched.
pub open spec fn written(before: Seq<u8>, after: Seq<u8>, text: Seq<u8>) -> bool {
    &&& after.len() == before.len()
    &&& text.len() <= before.len()
    &&& after == before.subrange(0, before.len() - text.len()) + text
}

/// Every character of a numeral is ASCII.
pub proof fn lemma_numeral_ascii(v: int, base: nat)
    requires
        2 <= base <= 36,
    ensures
        forall|i: int|
            0 <= i < numeral(v, base).len() ==> #[trigger] numeral(v, base)[i] < 128,
{
    let s = numeral(v, base);
    let d = digits(if v < 0 {
        -v
    } else {
        v
    } as nat, base);
    lemma_digits_value(if v < 0 {
        -v
    } else {
        v
    } as nat, base);
    assert forall|i: int| 0 <= i < s.len() implies #[trigger] s[i] < 128 by {
        if v < 0 && i > 0 {
            assert(s[i] == d[i - 1]);
            assert(0 <= digit_value(d[i - 1]));
        } else if v >= 0 {
            assert(0 <= digit_value(d[i]));
        }
    }
}

pub proof fn lemma_digit_char_value(d: nat)
    requires
        d < 36,
    ensures
        digit_value(digit_char(d)) == d,
{
}

pub proof fn lemma_digits_len_pos(n: nat, base: nat)
    ensures
        digits(n, base).len() >= 1,
    decreases n,
{
    if base >= 2 && n >= base {
        lemma_div_is_strictly_smaller(n as int, base as int);
        lemma_digits_len_pos(n / base, base);
    }
}

/// The digits of `n` read back give `n`, and each stands for a digit below
/// `base`.
pub proof fn lemma_digits_value(n: nat, base: nat)
    requires
        2 <= base <= 36,
    ensures
        digits_value(digits(n, base), base) == n,
        forall|i: int|
            0 <= i < digits(n, base).len() ==> 0 <= #[trigger] digit_value(digits(n, base)[i])
                < base,
    decreases n,
{
    let s = digits(n, base);
    if n < base {
        lemma_digit_char_value(n);
        assert(s.drop_last() =~= Seq::<u8>::empty());
        assert(digits_value(s.drop_last(), base) == 0);
    } else {
        let q = n / base;
        let r = n % base;
        lemma_div_is_strictly_smaller(n as int, base as int);
        lemma_digits_value(q, base);
        lemma_digit_char_value(r);
        assert(s.drop_last() =~= digits(q, base));
        assert(q * base + r == n) by (nonlinear_arith)
            requires
                q == n / base,
                r == n % base,
                base > 0,
        ;
        assert forall|i: int| 0 <= i < s.len() implies 0 <= #[trigger] digit_value(s[i])
            < base by {
            if i < s.len() - 1 {
                assert(s[i] == digits(q, base)[i]);
            }
        }
    }
}

/// More digits never come from a smaller number.
pub proof fn lemma_digits_len_mono(n: nat, m: nat, base: nat)
    requires
        n <= m,
        base >= 2,
    ensures
        digits(n, base).len() <= digits(m, base).len(),
    decreases m,
{
    lemma_digits_len_pos(n, base);
    lemma_digits_len_pos(m, base);
    if n >= base {
        lemma_div_is_ordered(n as int, m as int, base as int);
        lemma_digits_len_mono(n / base, m / base, base);
    }
}

/// A number below `2^k` has at most `k` digits in any base.
pub proof fn lemma_digits_len_pow2(n: nat, base: nat, k: nat)
    requires
        base >= 2,
        k >= 1,
        n < pow2(k),
    ensures
        digits(n, base).len() <= k,
    decreases n,
{
    if n >= base {
        lemma_pow2_unfold(k);
        if k == 1 {
            assert(pow2(0) == 1) by {
                vstd::arithmetic::power2::lemma_pow2(0);
                vstd::arithmetic::power::lemma_pow0(2);
            }
        } else {
            lemma_div_is_ordered_by_denominator(n as int, 2, base as int);
            lemma_digits_len_pow2(n / base, base, (k - 1) as nat);
        }
    }
}

/// The tens and the units of `k`, as characters.
pub open spec fn pair_chars(k: nat) -> Seq<u8> {
    seq![digit_char(k / 10), digit_char(k % 10)]
}

/// How four low decimal digits split into two pairs.
pub proof fn lemma_split_four(n: nat)
    ensures
        (n % 10000) % 100 == n % 100,
        (n / 100) % 100 == (n % 10000) / 100,
        (n / 100) / 100 == n / 10000,
{
}

/// The digits of a number of two decimal digits.
pub proof fn lemma_decimal_pair(n: nat)
    requires
        10 <= n < 100,
    ensures
        digits(n, 10) =~= pair_chars(n),
{
    assert(digits(n / 10, 10) == seq![digit_char(n / 10)]);
}

/// The decimal digits of `n >= 100` are those of `n / 100`, then the two of
/// `n % 100`.
pub proof fn lemma_decimal_pair_step(n: nat)
    requires
        n >= 100,
    ensures
        digits(n, 10) =~= digits(n / 100, 10) + pair_chars(n % 100),
{
    let t = n / 10;
    assert(t >= 10);
    assert(t / 10 == n / 100);
    assert(t % 10 == (n % 100) / 10);
    assert(n % 10 == (n % 100) % 10);
    assert(digits(t, 10) == digits(t / 10, 10).push(digit_char(t % 10)));
}

} // verus!
