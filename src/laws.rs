//! What holds of every numeral that the conversions write, stated over the
//! model in [crate::numeral].
use crate::numeral::{
    digit_value, digits, is_numeral, lemma_digits_len_mono, lemma_digits_value, numeral,
    numeral_value, space, MINUS,
};
use vstd::prelude::*;

verus! {

/// Reading the numeral of any integer back, in the same base, gives that
/// integer; and the numeral is well formed: an optional minus sign, then one
/// or more digits that are each below the base.
pub proof fn lemma_round_trip(v: int, base: nat)
    requires
        2 <= base <= 36,
    ensures
        numeral_value(numeral(v, base), base) == v,
        is_numeral(numeral(v, base), base),
{
    let mag = if v < 0 {
        -v
    } else {
        v
    } as nat;
    let d = digits(mag, base);
    let s = numeral(v, base);
    lemma_digits_value(mag, base);
    assert(0 <= digit_value(d[0]));
    if v < 0 {
        assert(s.drop_first() =~= d);
    } else {
        assert(s[0] != MINUS);
    }
}

/// Zero is written as the single digit `0` in every base.
pub proof fn lemma_zero(base: nat)
    requires
        2 <= base <= 36,
    ensures
        numeral(0, base) == seq![48u8],
{
}

/// The numeral of a negative value is a minus sign followed by the numeral of
/// its magnitude.
pub proof fn lemma_sign_placement(v: int, base: nat)
    requires
        v < 0,
        2 <= base <= 36,
    ensures
        numeral(v, base)[0] == MINUS,
        numeral(v, base).drop_first() == numeral(-v, base),
{
    assert(numeral(v, base).drop_first() =~= numeral(-v, base));
}

/// The required space of a type is enough for every value of it: for a type
/// whose largest magnitude is `max_mag` (for a signed type, that of its most
/// negative value), the numeral of any value takes at most
/// `space(base, max_mag, signed)` bytes.
pub proof fn lemma_required_space_suffices(v: int, max_mag: nat, signed: bool, base: nat)
    requires
        2 <= base <= 36,
        -max_mag <= v <= max_mag,
        v < 0 ==> signed,
    ensures
        numeral(v, base).len() <= space(base, max_mag, signed),
{
    let mag = if v < 0 {
        -v
    } else {
        v
    } as nat;
    lemma_digits_len_mono(mag, max_mag, base);
}

/// The required space of a type is no more than it needs: the value of the
/// largest magnitude (the most negative one for a signed type) takes exactly
/// that many bytes, so a buffer one byte smaller cannot take it.
pub proof fn lemma_required_space_tight(max_mag: nat, signed: bool, base: nat)
    requires
        2 <= base <= 36,
        max_mag > 0,
    ensures
        numeral(
            if signed {
                -max_mag
            } else {
                max_mag as int
            },
            base,
        ).len() == space(base, max_mag, signed),
{
}

} // verus!
