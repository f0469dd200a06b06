//! Encoding integers of every width: the numeral of a value, written into the
//! tail of a buffer that the caller supplies, and handed back as a view of it.
use crate::laws::lemma_required_space_suffices;
use crate::numeral::{
    digit_char, digits, lemma_digits_len_pos, lemma_digits_len_pow2, lemma_numeral_ascii,
    numeral, signed_digits, space, written, MINUS,
};
use crate::writer::{write_decimal_u128, write_decimal_u64, write_digits_u128, write_digits_u64};
use vstd::arithmetic::div_mod::{
    lemma_basic_div, lemma_div_is_strictly_smaller, lemma_div_non_zero,
};
use vstd::arithmetic::power2::{lemma2_to64, lemma_pow2_adds};
use vstd::prelude::*;
use vstd::string::StringSliceAdditionalSpecFns;

verus! {

/// Returns the number of bytes that a conversion of `number` in base `base`
/// takes: one for each digit, and one more for a sign when `negative`.
pub fn required_space(base: u128, number: u128, negative: bool) -> (r: usize)
    requires
        base >= 2,
    ensures
        r == space(base as nat, number as nat, negative),
{
    let ghost total = digits(number as nat, base as nat).len();
    proof {
        lemma2_to64();
        lemma_pow2_adds(64, 64);
        lemma_digits_len_pow2(number as nat, base as nat, 128);
    }
    let sign: usize = if negative {
        1
    } else {
        0
    };
    if number == 0 {
        return 1 + sign;
    }
    let mut count: usize = 0;
    let mut n = number;
    while n > 0
        invariant
            base >= 2,
            total == digits(number as nat, base as nat).len(),
            total <= 128,
            n > 0 ==> count + digits(n as nat, base as nat).len() == total,
            n == 0 ==> count == total,
        decreases n,
    {
        proof {
            lemma_div_is_strictly_smaller(n as int, base as int);
            if n < base {
                lemma_basic_div(n as int, base as int);
            } else {
                lemma_div_non_zero(n as int, base as int);
                assert(digits(n as nat, base as nat) == digits((n / base) as nat, base as nat).push(
                    digit_char((n % base) as nat),
                ));
                lemma_digits_len_pos((n / base) as nat, base as nat);
            }
        }
        n = n / base;
        count = count + 1;
    }
    count + sign
}

/// Writes the digits of `mag`, after a minus sign when `negative`, into the
/// tail of `buf`, and returns that tail.
fn write_numeral_u64(mag: u64, negative: bool, base: u64, buf: &mut [u8]) -> (r: &[u8])
    requires
        2 <= base <= 36,
        space(base as nat, mag as nat, negative) <= old(buf)@.len(),
    ensures
        r@ == signed_digits(negative, mag as nat, base as nat),
        written(old(buf)@, final(buf)@, r@),
{
    let len = buf.len();
    let mut start = if base == 10 {
        write_decimal_u64(mag, buf, len)
    } else {
        write_digits_u64(mag, base, buf, len)
    };
    if negative {
        start = start - 1;
        buf[start] = MINUS;
    }
    assert(buf@.subrange(start as int, len as int) =~= signed_digits(
        negative,
        mag as nat,
        base as nat,
    ));
    assert(buf@ =~= old(buf)@.subrange(0, start as int) + buf@.subrange(start as int, len as int));
    buf.split_at(start).1
}

/// Writes the digits of `mag`, after a minus sign when `negative`, into the
/// tail of `buf`, and returns that tail.
fn write_numeral_u128(mag: u128, negative: bool, base: u128, buf: &mut [u8]) -> (r: &[u8])
    requires
        2 <= base <= 36,
        space(base as nat, mag as nat, negative) <= old(buf)@.len(),
    ensures
        r@ == signed_digits(negative, mag as nat, base as nat),
        written(old(buf)@, final(buf)@, r@),
{
    let len = buf.len();
    let mut start = if base == 10 {
        write_decimal_u128(mag, buf, len)
    } else {
        write_digits_u128(mag, base, buf, len)
    };
    if negative {
        start = start - 1;
        buf[start] = MINUS;
    }
    assert(buf@.subrange(start as int, len as int) =~= signed_digits(
        negative,
        mag as nat,
        base as nat,
    ));
    assert(buf@ =~= old(buf)@.subrange(0, start as int) + buf@.subrange(start as int, len as int));
    buf.split_at(start).1
}

/// The magnitude of `v` as an unsigned value. The most negative value has no
/// positive counterpart in its own type, so the magnitude is taken one below
/// it, which always exists, and raised by one in the unsigned type.
fn magnitude_i64(v: i64) -> (m: u64)
    ensures
        m == if v < 0 {
            -v
        } else {
            v as int
        },
{
    if v < 0 {
        (-(v + 1)) as u64 + 1
    } else {
        v as u64
    }
}

/// The magnitude of `v` as an unsigned value, as for `magnitude_i64`.
fn magnitude_i128(v: i128) -> (m: u128)
    ensures
        m == if v < 0 {
            -v
        } else {
            v as int
        },
{
    if v < 0 {
        (-(v + 1)) as u128 + 1
    } else {
        v as u128
    }
}

/// Relies on `core::str::from_utf8`, which views bytes that are valid UTF-8,
/// as ASCII bytes are, as a `str` of the same bytes.
#[verifier::external_body]
pub(crate) fn ascii_str(bytes: &[u8]) -> (s: &str)
    requires
        forall|i: int| 0 <= i < bytes@.len() ==> bytes@[i] < 128,
    ensures
        s.spec_bytes() == bytes@,
{
    core::str::from_utf8(bytes).unwrap()
}

/// Writes the numeral of `num` in base `base` into the tail of `string` and
/// returns that tail; the bytes before it are left as they were. `string`
/// must have room for any value of the type in that base, as
/// [required_space] counts it.
pub fn numtoa_i8(num: i8, base: i8, string: &mut [u8]) -> (r: &[u8])
    requires
        2 <= base <= 36,
        space(base as nat, 128, true) <= old(string)@.len(),
    ensures
        r@ == numeral(num as int, base as nat),
        written(old(string)@, final(string)@, r@),
{
    proof {
        lemma_required_space_suffices(num as int, 128, true, base as nat);
    }
    write_numeral_u64(magnitude_i64(num as i64), num < 0, base as u64, string)
}

/// As `numtoa_i8`, with the numeral viewed as a `str`.
pub fn numtoa_i8_str(num: i8, base: i8, string: &mut [u8]) -> (r: &str)
    requires
        2 <= base <= 36,
        space(base as nat, 128, true) <= old(string)@.len(),
    ensures
        r.spec_bytes() == numeral(num as int, base as nat),
        written(old(string)@, final(string)@, r.spec_bytes()),
{
    let bytes = numtoa_i8(num, base, string);
    proof {
        lemma_numeral_ascii(num as int, base as nat);
    }
    ascii_str(bytes)
}

/// Writes the numeral of `num` in base `base` into the tail of `string` and
/// returns that tail; the bytes before it are left as they were. `string`
/// must have room for any value of the type in that base, as
/// [required_space] counts it.
pub fn numtoa_i16(num: i16, base: i16, string: &mut [u8]) -> (r: &[u8])
    requires
        2 <= base <= 36,
        space(base as nat, 32768, true) <= old(string)@.len(),
    ensures
        r@ == numeral(num as int, base as nat),
        written(old(string)@, final(string)@, r@),
{
    proof {
        lemma_required_space_suffices(num as int, 32768, true, base as nat);
    }
    write_numeral_u64(magnitude_i64(num as i64), num < 0, base as u64, string)
}

/// As `numtoa_i16`, with the numeral viewed as a `str`.
pub fn numtoa_i16_str(num: i16, base: i16, string: &mut [u8]) -> (r: &str)
    requires
        2 <= base <= 36,
        space(base as nat, 32768, true) <= old(string)@.len(),
    ensures
        r.spec_bytes() == numeral(num as int, base as nat),
        written(old(string)@, final(string)@, r.spec_bytes()),
{
    let bytes = numtoa_i16(num, base, string);
    proof {
        lemma_numeral_ascii(num as int, base as nat);
    }
    ascii_str(bytes)
}

/// Writes the numeral of `num` in base `base` into the tail of `string` and
/// returns that tail; the bytes before it are left as they were. `string`
/// must have room for any value of the type in that base, as
/// [required_space] counts it.
pub fn numtoa_i32(num: i32, base: i32, string: &mut [u8]) -> (r: &[u8])
    requires
        2 <= base <= 36,
        space(base as nat, 2147483648, true) <= old(string)@.len(),
    ensures
        r@ == numeral(num as int, base as nat),
        written(old(string)@, final(string)@, r@),
{
    proof {
        lemma_required_space_suffices(num as int, 2147483648, true, base as nat);
    }
    write_numeral_u64(magnitude_i64(num as i64), num < 0, base as u64, string)
}

/// As `numtoa_i32`, with the numeral viewed as a `str`.
pub fn numtoa_i32_str(num: i32, base: i32, string: &mut [u8]) -> (r: &str)
    requires
        2 <= base <= 36,
        space(base as nat, 2147483648, true) <= old(string)@.len(),
    ensures
        r.spec_bytes() == numeral(num as int, base as nat),
        written(old(string)@, final(string)@, r.spec_bytes()),
{
    let bytes = numtoa_i32(num, base, string);
    proof {
        lemma_numeral_ascii(num as int, base as nat);
    }
    ascii_str(bytes)
}

/// Writes the numeral of `num` in base `base` into the tail of `string` and
/// returns that tail; the bytes before it are left as they were. `string`
/// must have room for any value of the type in that base, as
/// [required_space] counts it.
pub fn numtoa_i64(num: i64, base: i64, string: &mut [u8]) -> (r: &[u8])
    requires
        2 <= base <= 36,
        space(base as nat, 9223372036854775808, true) <= old(string)@.len(),
    ensures
        r@ == numeral(num as int, base as nat),
        written(old(string)@, final(string)@, r@),
{
    proof {
        lemma_required_space_suffices(num as int, 9223372036854775808, true, base as nat);
    }
    write_numeral_u64(magnitude_i64(num as i64), num < 0, base as u64, string)
}

/// As `numtoa_i64`, with the numeral viewed as a `str`.
pub fn numtoa_i64_str(num: i64, base: i64, string: &mut [u8]) -> (r: &str)
    requires
        2 <= base <= 36,
        space(base as nat, 9223372036854775808, true) <= old(string)@.len(),
    ensures
        r.spec_bytes() == numeral(num as int, base as nat),
        written(old(string)@, final(string)@, r.spec_bytes()),
{
    let bytes = numtoa_i64(num, base, string);
    proof {
        lemma_numeral_ascii(num as int, base as nat);
    }
    ascii_str(bytes)
}

/// Writes the numeral of `num` in base `base` into the tail of `string` and
/// returns that tail; the bytes before it are left as they were. `string`
/// must have room for any value of the type in that base, as
/// [required_space] counts it.
pub fn numtoa_i128(num: i128, base: i128, string: &mut [u8]) -> (r: &[u8])
    requires
        2 <= base <= 36,
        space(base as nat, 170141183460469231731687303715884105728, true) <= old(string)@.len(),
    ensures
        r@ == numeral(num as int, base as nat),
        written(old(string)@, final(string)@, r@),
{
    proof {
        lemma_required_space_suffices(num as int, 170141183460469231731687303715884105728, true, base as nat);
    }
    write_numeral_u128(magnitude_i128(num as i128), num < 0, base as u128, string)
}

/// As `numtoa_i128`, with the numeral viewed as a `str`.
pub fn numtoa_i128_str(num: i128, base: i128, string: &mut [u8]) -> (r: &str)
    requires
        2 <= base <= 36,
        space(base as nat, 170141183460469231731687303715884105728, true) <= old(string)@.len(),
    ensures
        r.spec_bytes() == numeral(num as int, base as nat),
        written(old(string)@, final(string)@, r.spec_bytes()),
{
    let bytes = numtoa_i128(num, base, string);
    proof {
        lemma_numeral_ascii(num as int, base as nat);
    }
    ascii_str(bytes)
}

/// Writes the numeral of `num` in base `base` into the tail of `string` and
/// returns that tail; the bytes before it are left as they were. `string`
/// must have room for any value of the type in that base, as
/// [required_space] counts it.
pub fn numtoa_isize(num: isize, base: isize, string: &mut [u8]) -> (r: &[u8])
    requires
        2 <= base <= 36,
        space(base as nat, (-(isize::MIN as int)) as nat, true) <= old(string)@.len(),
    ensures
        r@ == numeral(num as int, base as nat),
        written(old(string)@, final(string)@, r@),
{
    proof {
        lemma_required_space_suffices(num as int, (-(isize::MIN as int)) as nat, true, base as nat);
    }
    write_numeral_u64(magnitude_i64(num as i64), num < 0, base as u64, string)
}

/// As `numtoa_isize`, with the numeral viewed as a `str`.
pub fn numtoa_isize_str(num: isize, base: isize, string: &mut [u8]) -> (r: &str)
    requires
        2 <= base <= 36,
        space(base as nat, (-(isize::MIN as int)) as nat, true) <= old(string)@.len(),
    ensures
        r.spec_bytes() == numeral(num as int, base as nat),
        written(old(string)@, final(string)@, r.spec_bytes()),
{
    let bytes = numtoa_isize(num, base, string);
    proof {
        lemma_numeral_ascii(num as int, base as nat);
    }
    ascii_str(bytes)
}

/// Writes the numeral of `num` in base `base` into the tail of `string` and
/// returns that tail; the bytes before it are left as they were. `string`
/// must have room for any value of the type in that base, as
/// [required_space] counts it.
pub fn numtoa_u8(num: u8, base: u8, string: &mut [u8]) -> (r: &[u8])
    requires
        2 <= base <= 36,
        space(base as nat, 255, false) <= old(string)@.len(),
    ensures
        r@ == numeral(num as int, base as nat),
        written(old(string)@, final(string)@, r@),
{
    proof {
        lemma_required_space_suffices(num as int, 255, false, base as nat);
    }
    write_numeral_u64(num as u64, false, base as u64, string)
}

/// As `numtoa_u8`, with the numeral viewed as a `str`.
pub fn numtoa_u8_str(num: u8, base: u8, string: &mut [u8]) -> (r: &str)
    requires
        2 <= base <= 36,
        space(base as nat, 255, false) <= old(string)@.len(),
    ensures
        r.spec_bytes() == numeral(num as int, base as nat),
        written(old(string)@, final(string)@, r.spec_bytes()),
{
    let bytes = numtoa_u8(num, base, string);
    proof {
        lemma_numeral_ascii(num as int, base as nat);
    }
    ascii_str(bytes)
}

/// Writes the numeral of `num` in base `base` into the tail of `string` and
/// returns that tail; the bytes before it are left as they were. `string`
/// must have room for any value of the type in that base, as
/// [required_space] counts it.
pub fn numtoa_u16(num: u16, base: u16, string: &mut [u8]) -> (r: &[u8])
    requires
        2 <= base <= 36,
        space(base as nat, 65535, false) <= old(string)@.len(),
    ensures
        r@ == numeral(num as int, base as nat),
        written(old(string)@, final(string)@, r@),
{
    proof {
        lemma_required_space_suffices(num as int, 65535, false, base as nat);
    }
    write_numeral_u64(num as u64, false, base as u64, string)
}

/// As `numtoa_u16`, with the numeral viewed as a `str`.
pub fn numtoa_u16_str(num: u16, base: u16, string: &mut [u8]) -> (r: &str)
    requires
        2 <= base <= 36,
        space(base as nat, 65535, false) <= old(string)@.len(),
    ensures
        r.spec_bytes() == numeral(num as int, base as nat),
        written(old(string)@, final(string)@, r.spec_bytes()),
{
    let bytes = numtoa_u16(num, base, string);
    proof {
        lemma_numeral_ascii(num as int, base as nat);
    }
    ascii_str(bytes)
}

/// Writes the numeral of `num` in base `base` into the tail of `string` and
/// returns that tail; the bytes before it are left as they were. `string`
/// must have room for any value of the type in that base, as
/// [required_space] counts it.
pub fn numtoa_u32(num: u32, base: u32, string: &mut [u8]) -> (r: &[u8])
    requires
        2 <= base <= 36,
        space(base as nat, 4294967295, false) <= old(string)@.len(),
    ensures
        r@ == numeral(num as int, base as nat),
        written(old(string)@, final(string)@, r@),
{
    proof {
        lemma_required_space_suffices(num as int, 4294967295, false, base as nat);
    }
    write_numeral_u64(num as u64, false, base as u64, string)
}

/// As `numtoa_u32`, with the numeral viewed as a `str`.
pub fn numtoa_u32_str(num: u32, base: u32, string: &mut [u8]) -> (r: &str)
    requires
        2 <= base <= 36,
        space(base as nat, 4294967295, false) <= old(string)@.len(),
    ensures
        r.spec_bytes() == numeral(num as int, base as nat),
        written(old(string)@, final(string)@, r.spec_bytes()),
{
    let bytes = numtoa_u32(num, base, string);
    proof {
        lemma_numeral_ascii(num as int, base as nat);
    }
    ascii_str(bytes)
}

/// Writes the numeral of `num` in base `base` into the tail of `string` and
/// returns that tail; the bytes before it are left as they were. `string`
/// must have room for any value of the type in that base, as
/// [required_space] counts it.
pub fn numtoa_u64(num: u64, base: u64, string: &mut [u8]) -> (r: &[u8])
    requires
        2 <= base <= 36,
        space(base as nat, 18446744073709551615, false) <= old(string)@.len(),
    ensures
        r@ == numeral(num as int, base as nat),
        written(old(string)@, final(string)@, r@),
{
    proof {
        lemma_required_space_suffices(num as int, 18446744073709551615, false, base as nat);
    }
    write_numeral_u64(num as u64, false, base as u64, string)
}

/// As `numtoa_u64`, with the numeral viewed as a `str`.
pub fn numtoa_u64_str(num: u64, base: u64, string: &mut [u8]) -> (r: &str)
    requires
        2 <= base <= 36,
        space(base as nat, 18446744073709551615, false) <= old(string)@.len(),
    ensures
        r.spec_bytes() == numeral(num as int, base as nat),
        written(old(string)@, final(string)@, r.spec_bytes()),
{
    let bytes = numtoa_u64(num, base, string);
    proof {
        lemma_numeral_ascii(num as int, base as nat);
    }
    ascii_str(bytes)
}

/// Writes the numeral of `num` in base `base` into the tail of `string` and
/// returns that tail; the bytes before it are left as they were. `string`
/// must have room for any value of the type in that base, as
/// [required_space] counts it.
pub fn numtoa_u128(num: u128, base: u128, string: &mut [u8]) -> (r: &[u8])
    requires
        2 <= base <= 36,
        space(base as nat, 340282366920938463463374607431768211455, false) <= old(string)@.len(),
    ensures
        r@ == numeral(num as int, base as nat),
        written(old(string)@, final(string)@, r@),
{
    proof {
        lemma_required_space_suffices(num as int, 340282366920938463463374607431768211455, false, base as nat);
    }
    write_numeral_u128(num as u128, false, base as u128, string)
}

/// As `numtoa_u128`, with the numeral viewed as a `str`.
pub fn numtoa_u128_str(num: u128, base: u128, string: &mut [u8]) -> (r: &str)
    requires
        2 <= base <= 36,
        space(base as nat, 340282366920938463463374607431768211455, false) <= old(string)@.len(),
    ensures
        r.spec_bytes() == numeral(num as int, base as nat),
        written(old(string)@, final(string)@, r.spec_bytes()),
{
    let bytes = numtoa_u128(num, base, string);
    proof {
        lemma_numeral_ascii(num as int, base as nat);
    }
    ascii_str(bytes)
}

/// Writes the numeral of `num` in base `base` into the tail of `string` and
/// returns that tail; the bytes before it are left as they were. `string`
/// must have room for any value of the type in that base, as
/// [required_space] counts it.
pub fn numtoa_usize(num: usize, base: usize, string: &mut [u8]) -> (r: &[u8])
    requires
        2 <= base <= 36,
        space(base as nat, usize::MAX as nat, false) <= old(string)@.len(),
    ensures
        r@ == numeral(num as int, base as nat),
        written(old(string)@, final(string)@, r@),
{
    proof {
        lemma_required_space_suffices(num as int, usize::MAX as nat, false, base as nat);
    }
    write_numeral_u64(num as u64, false, base as u64, string)
}

/// As `numtoa_usize`, with the numeral viewed as a `str`.
pub fn numtoa_usize_str(num: usize, base: usize, string: &mut [u8]) -> (r: &str)
    requires
        2 <= base <= 36,
        space(base as nat, usize::MAX as nat, false) <= old(string)@.len(),
    ensures
        r.spec_bytes() == numeral(num as int, base as nat),
        written(old(string)@, final(string)@, r.spec_bytes()),
{
    let bytes = numtoa_usize(num, base, string);
    proof {
        lemma_numeral_ascii(num as int, base as nat);
    }
    ascii_str(bytes)
}

} // verus!
