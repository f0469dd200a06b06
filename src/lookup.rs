//! The lookup tables that turn digit values into ASCII characters.
use crate::numeral::digit_char;
use vstd::prelude::*;

verus! {

/// The character of each digit value below 36.
pub const ALPHABET: [u8; 36] = [
    48, 49, 50, 51, 52, 53, 54, 55, 56, 57, 65, 66,  // 0 1 2 3 4 5 6 7 8 9 A B
    67, 68, 69, 70, 71, 72, 73, 74, 75, 76, 77, 78,  // C D E F G H I J K L M N
    79, 80, 81, 82, 83, 84, 85, 86, 87, 88, 89, 90,  // O P Q R S T U V W X Y Z
];

/// The two characters of each number below 100: entries `2 * k` and `2 * k + 1`
/// hold the tens and the units of `k`.
pub const DEC_PAIRS: [u8; 200] = [
    48, 48, 48, 49, 48, 50, 48, 51, 48, 52, 48, 53, 48, 54, 48, 55, 48, 56, 48, 57,  // 00 to 09
    49, 48, 49, 49, 49, 50, 49, 51, 49, 52, 49, 53, 49, 54, 49, 55, 49, 56, 49, 57,  // 10 to 19
    50, 48, 50, 49, 50, 50, 50, 51, 50, 52, 50, 53, 50, 54, 50, 55, 50, 56, 50, 57,  // 20 to 29
    51, 48, 51, 49, 51, 50, 51, 51, 51, 52, 51, 53, 51, 54, 51, 55, 51, 56, 51, 57,  // 30 to 39
    52, 48, 52, 49, 52, 50, 52, 51, 52, 52, 52, 53, 52, 54, 52, 55, 52, 56, 52, 57,  // 40 to 49
    53, 48, 53, 49, 53, 50, 53, 51, 53, 52, 53, 53, 53, 54, 53, 55, 53, 56, 53, 57,  // 50 to 59
    54, 48, 54, 49, 54, 50, 54, 51, 54, 52, 54, 53, 54, 54, 54, 55, 54, 56, 54, 57,  // 60 to 69
    55, 48, 55, 49, 55, 50, 55, 51, 55, 52, 55, 53, 55, 54, 55, 55, 55, 56, 55, 57,  // 70 to 79
    56, 48, 56, 49, 56, 50, 56, 51, 56, 52, 56, 53, 56, 54, 56, 55, 56, 56, 56, 57,  // 80 to 89
    57, 48, 57, 49, 57, 50, 57, 51, 57, 52, 57, 53, 57, 54, 57, 55, 57, 56, 57, 57,  // 90 to 99
];

spec fn alphabet_from(d: int) -> bool
    decreases 36 - d,
{
    if d < 0 || d >= 36 {
        true
    } else {
        ALPHABET@[d] == digit_char(d as nat) && alphabet_from(d + 1)
    }
}

spec fn pairs_from(k: int) -> bool
    decreases 100 - k,
{
    if k < 0 || k >= 100 {
        true
    } else {
        &&& DEC_PAIRS@[2 * k] == digit_char((k / 10) as nat)
        &&& DEC_PAIRS@[2 * k + 1] == digit_char((k % 10) as nat)
        &&& pairs_from(k + 1)
    }
}

proof fn lemma_alphabet_from(k: int, d: int)
    requires
        0 <= k <= d < 36,
        alphabet_from(k),
    ensures
        ALPHABET@[d] == digit_char(d as nat),
    decreases d - k,
{
    if k < d {
        lemma_alphabet_from(k + 1, d);
    }
}

proof fn lemma_pairs_from(k: int, j: int)
    requires
        0 <= k <= j < 100,
        pairs_from(k),
    ensures
        DEC_PAIRS@[2 * j] == digit_char((j / 10) as nat),
        DEC_PAIRS@[2 * j + 1] == digit_char((j % 10) as nat),
    decreases j - k,
{
    if k < j {
        lemma_pairs_from(k + 1, j);
    }
}

/// The alphabet holds the character of each digit value.
pub proof fn lemma_alphabet(d: int)
    requires
        0 <= d < 36,
    ensures
        ALPHABET@[d] == digit_char(d as nat),
{
    reveal_with_fuel(alphabet_from, 13);
    assert(alphabet_from(24));
    assert(alphabet_from(12));
    assert(alphabet_from(0));
    lemma_alphabet_from(0, d);
}

/// The pair table holds the tens and the units of each number below 100.
pub proof fn lemma_dec_pair(k: int)
    requires
        0 <= k < 100,
    ensures
        DEC_PAIRS@[2 * k] == digit_char((k / 10) as nat),
        DEC_PAIRS@[2 * k + 1] == digit_char((k % 10) as nat),
{
    reveal_with_fuel(pairs_from, 11);
    assert(pairs_from(90));
    assert(pairs_from(80));
    assert(pairs_from(70));
    assert(pairs_from(60));
    assert(pairs_from(50));
    assert(pairs_from(40));
    assert(pairs_from(30));
    assert(pairs_from(20));
    assert(pairs_from(10));
    assert(pairs_from(0));
    lemma_pairs_from(0, k);
}

} // verus!
