//! The conversions as a method of each integer type.
use crate::encode::{
    numtoa_i8, numtoa_i8_str, numtoa_i16, numtoa_i16_str, numtoa_i32, numtoa_i32_str, numtoa_i64,
    numtoa_i64_str, numtoa_i128, numtoa_i128_str, numtoa_isize, numtoa_isize_str, numtoa_u8,
    numtoa_u8_str, numtoa_u16, numtoa_u16_str, numtoa_u32, numtoa_u32_str, numtoa_u64,
    numtoa_u64_str, numtoa_u128, numtoa_u128_str, numtoa_usize, numtoa_usize_str, required_space,
};
use crate::laws::lemma_required_space_suffices;
use crate::numeral::{numeral, space, written};
use vstd::prelude::*;
use vstd::string::StringSliceAdditionalSpecFns;

verus! {

/// Converts a number into its numeral in a base from 2 to 36, written into the
/// tail of a byte buffer that the caller supplies.
pub trait NumToA: Sized {
    /// The integer that the value stands for.
    spec fn int_value(&self) -> int;

    /// Writes the numeral of `self` in base `base` into the tail of `string`
    /// and returns that tail; the bytes before it are left as they were.
    /// `string` must have room for any value of the type in that base.
    fn numtoa(self, base: Self, string: &mut [u8]) -> (r: &[u8])
        requires
            2 <= base.int_value() <= 36,
            space(base.int_value() as nat, Self::max_magnitude(), Self::is_signed()) <= old(
                string,
            )@.len(),
        ensures
            r@ == numeral(self.int_value(), base.int_value() as nat),
            written(old(string)@, final(string)@, r@),
    ;

    /// The largest magnitude of a value of the type: for a signed type, that of
    /// its most negative value.
    spec fn max_magnitude() -> nat;

    /// Whether the type has negative values.
    spec fn is_signed() -> bool;

    /// As `numtoa`, but checks its inputs first: it returns `None`, and leaves
    /// `string` as it was, when `base` is outside 2 to 36 or `string` is shorter
    /// than [crate::encode::required_space] asks for any value of the type in
    /// that base.
    fn numtoa_checked(self, base: Self, string: &mut [u8]) -> (r: Option<&[u8]>)
        ensures
            r is None <==> !(2 <= base.int_value() <= 36) || old(string)@.len() < space(
                base.int_value() as nat,
                Self::max_magnitude(),
                Self::is_signed(),
            ),
            r is None ==> final(string)@ == old(string)@,
            r matches Some(t) ==> t@ == numeral(self.int_value(), base.int_value() as nat)
                && written(old(string)@, final(string)@, t@),
    ;

    /// As `numtoa`, with the numeral viewed as a `str`.
    fn numtoa_str(self, base: Self, buf: &mut [u8]) -> (r: &str)
        requires
            2 <= base.int_value() <= 36,
            space(base.int_value() as nat, Self::max_magnitude(), Self::is_signed()) <= old(
                buf,
            )@.len(),
        ensures
            r.spec_bytes() == numeral(self.int_value(), base.int_value() as nat),
            written(old(buf)@, final(buf)@, r.spec_bytes()),
    ;
}

impl NumToA for i8 {
    open spec fn int_value(&self) -> int {
        *self as int
    }

    fn numtoa(self, base: i8, string: &mut [u8]) -> (r: &[u8]) {
        numtoa_i8(self, base, string)
    }

    open spec fn max_magnitude() -> nat {
        128
    }

    open spec fn is_signed() -> bool {
        true
    }

    fn numtoa_checked(self, base: i8, string: &mut [u8]) -> (r: Option<&[u8]>) {
        if base < 2 || base > 36 {
            return None;
        }
        if string.len() < required_space(base as u128, 128, true) {
            return None;
        }
        proof {
            lemma_required_space_suffices(self as int, Self::max_magnitude(), true, base as nat);
        }
        Some(numtoa_i8(self, base, string))
    }

    fn numtoa_str(self, base: i8, buf: &mut [u8]) -> (r: &str) {
        numtoa_i8_str(self, base, buf)
    }
}

impl NumToA for i16 {
    open spec fn int_value(&self) -> int {
        *self as int
    }

    fn numtoa(self, base: i16, string: &mut [u8]) -> (r: &[u8]) {
        numtoa_i16(self, base, string)
    }

    open spec fn max_magnitude() -> nat {
        32768
    }

    open spec fn is_signed() -> bool {
        true
    }

    fn numtoa_checked(self, base: i16, string: &mut [u8]) -> (r: Option<&[u8]>) {
        if base < 2 || base > 36 {
            return None;
        }
        if string.len() < required_space(base as u128, 32768, true) {
            return None;
        }
        proof {
            lemma_required_space_suffices(self as int, Self::max_magnitude(), true, base as nat);
        }
        Some(numtoa_i16(self, base, string))
    }

    fn numtoa_str(self, base: i16, buf: &mut [u8]) -> (r: &str) {
        numtoa_i16_str(self, base, buf)
    }
}

impl NumToA for i32 {
    open spec fn int_value(&self) -> int {
        *self as int
    }

    fn numtoa(self, base: i32, string: &mut [u8]) -> (r: &[u8]) {
        numtoa_i32(self, base, string)
    }

    open spec fn max_magnitude() -> nat {
        2147483648
    }

    open spec fn is_signed() -> bool {
        true
    }

    fn numtoa_checked(self, base: i32, string: &mut [u8]) -> (r: Option<&[u8]>) {
        if base < 2 || base > 36 {
            return None;
        }
        if string.len() < required_space(base as u128, 2147483648, true) {
            return None;
        }
        proof {
            lemma_required_space_suffices(self as int, Self::max_magnitude(), true, base as nat);
        }
        Some(numtoa_i32(self, base, string))
    }

    fn numtoa_str(self, base: i32, buf: &mut [u8]) -> (r: &str) {
        numtoa_i32_str(self, base, buf)
    }
}

impl NumToA for i64 {
    open spec fn int_value(&self) -> int {
        *self as int
    }

    fn numtoa(self, base: i64, string: &mut [u8]) -> (r: &[u8]) {
        numtoa_i64(self, base, string)
    }

    open spec fn max_magnitude() -> nat {
        9223372036854775808
    }

    open spec fn is_signed() -> bool {
        true
    }

    fn numtoa_checked(self, base: i64, string: &mut [u8]) -> (r: Option<&[u8]>) {
        if base < 2 || base > 36 {
            return None;
        }
        if string.len() < required_space(base as u128, 9223372036854775808, true) {
            return None;
        }
        proof {
            lemma_required_space_suffices(self as int, Self::max_magnitude(), true, base as nat);
        }
        Some(numtoa_i64(self, base, string))
    }

    fn numtoa_str(self, base: i64, buf: &mut [u8]) -> (r: &str) {
        numtoa_i64_str(self, base, buf)
    }
}

impl NumToA for i128 {
    open spec fn int_value(&self) -> int {
        *self as int
    }

    fn numtoa(self, base: i128, string: &mut [u8]) -> (r: &[u8]) {
        numtoa_i128(self, base, string)
    }

    open spec fn max_magnitude() -> nat {
        170141183460469231731687303715884105728
    }

    open spec fn is_signed() -> bool {
        true
    }

    fn numtoa_checked(self, base: i128, string: &mut [u8]) -> (r: Option<&[u8]>) {
        if base < 2 || base > 36 {
            return None;
        }
        if string.len() < required_space(base as u128, 170141183460469231731687303715884105728, true) {
            return None;
        }
        proof {
            lemma_required_space_suffices(self as int, Self::max_magnitude(), true, base as nat);
        }
        Some(numtoa_i128(self, base, string))
    }

    fn numtoa_str(self, base: i128, buf: &mut [u8]) -> (r: &str) {
        numtoa_i128_str(self, base, buf)
    }
}

impl NumToA for isize {
    open spec fn int_value(&self) -> int {
        *self as int
    }

    fn numtoa(self, base: isize, string: &mut [u8]) -> (r: &[u8]) {
        numtoa_isize(self, base, string)
    }

    open spec fn max_magnitude() -> nat {
        (-(isize::MIN as int)) as nat
    }

    open spec fn is_signed() -> bool {
        true
    }

    fn numtoa_checked(self, base: isize, string: &mut [u8]) -> (r: Option<&[u8]>) {
        if base < 2 || base > 36 {
            return None;
        }
        if string.len() < required_space(base as u128, (-(isize::MIN + 1)) as u128 + 1, true) {
            return None;
        }
        proof {
            lemma_required_space_suffices(self as int, Self::max_magnitude(), true, base as nat);
        }
        Some(numtoa_isize(self, base, string))
    }

    fn numtoa_str(self, base: isize, buf: &mut [u8]) -> (r: &str) {
        numtoa_isize_str(self, base, buf)
    }
}

impl NumToA for u8 {
    open spec fn int_value(&self) -> int {
        *self as int
    }

    fn numtoa(self, base: u8, string: &mut [u8]) -> (r: &[u8]) {
        numtoa_u8(self, base, string)
    }

    open spec fn max_magnitude() -> nat {
        255
    }

    open spec fn is_signed() -> bool {
        false
    }

    fn numtoa_checked(self, base: u8, string: &mut [u8]) -> (r: Option<&[u8]>) {
        if base < 2 || base > 36 {
            return None;
        }
        if string.len() < required_space(base as u128, 255, false) {
            return None;
        }
        proof {
            lemma_required_space_suffices(self as int, Self::max_magnitude(), false, base as nat);
        }
        Some(numtoa_u8(self, base, string))
    }

    fn numtoa_str(self, base: u8, buf: &mut [u8]) -> (r: &str) {
        numtoa_u8_str(self, base, buf)
    }
}

impl NumToA for u16 {
    open spec fn int_value(&self) -> int {
        *self as int
    }

    fn numtoa(self, base: u16, string: &mut [u8]) -> (r: &[u8]) {
        numtoa_u16(self, base, string)
    }

    open spec fn max_magnitude() -> nat {
        65535
    }

    open spec fn is_signed() -> bool {
        false
    }

    fn numtoa_checked(self, base: u16, string: &mut [u8]) -> (r: Option<&[u8]>) {
        if base < 2 || base > 36 {
            return None;
        }
        if string.len() < required_space(base as u128, 65535, false) {
            return None;
        }
        proof {
            lemma_required_space_suffices(self as int, Self::max_magnitude(), false, base as nat);
        }
        Some(numtoa_u16(self, base, string))
    }

    fn numtoa_str(self, base: u16, buf: &mut [u8]) -> (r: &str) {
        numtoa_u16_str(self, base, buf)
    }
}

impl NumToA for u32 {
    open spec fn int_value(&self) -> int {
        *self as int
    }

    fn numtoa(self, base: u32, string: &mut [u8]) -> (r: &[u8]) {
        numtoa_u32(self, base, string)
    }

    open spec fn max_magnitude() -> nat {
        4294967295
    }

    open spec fn is_signed() -> bool {
        false
    }

    fn numtoa_checked(self, base: u32, string: &mut [u8]) -> (r: Option<&[u8]>) {
        if base < 2 || base > 36 {
            return None;
        }
        if string.len() < required_space(base as u128, 4294967295, false) {
            return None;
        }
        proof {
            lemma_required_space_suffices(self as int, Self::max_magnitude(), false, base as nat);
        }
        Some(numtoa_u32(self, base, string))
    }

    fn numtoa_str(self, base: u32, buf: &mut [u8]) -> (r: &str) {
        numtoa_u32_str(self, base, buf)
    }
}

impl NumToA for u64 {
    open spec fn int_value(&self) -> int {
        *self as int
    }

    fn numtoa(self, base: u64, string: &mut [u8]) -> (r: &[u8]) {
        numtoa_u64(self, base, string)
    }

    open spec fn max_magnitude() -> nat {
        18446744073709551615
    }

    open spec fn is_signed() -> bool {
        false
    }

    fn numtoa_checked(self, base: u64, string: &mut [u8]) -> (r: Option<&[u8]>) {
        if base < 2 || base > 36 {
            return None;
        }
        if string.len() < required_space(base as u128, 18446744073709551615, false) {
            return None;
        }
        proof {
            lemma_required_space_suffices(self as int, Self::max_magnitude(), false, base as nat);
        }
        Some(numtoa_u64(self, base, string))
    }

    fn numtoa_str(self, base: u64, buf: &mut [u8]) -> (r: &str) {
        numtoa_u64_str(self, base, buf)
    }
}

impl NumToA for u128 {
    open spec fn int_value(&self) -> int {
        *self as int
    }

    fn numtoa(self, base: u128, string: &mut [u8]) -> (r: &[u8]) {
        numtoa_u128(self, base, string)
    }

    open spec fn max_magnitude() -> nat {
        340282366920938463463374607431768211455
    }

    open spec fn is_signed() -> bool {
        false
    }

    fn numtoa_checked(self, base: u128, string: &mut [u8]) -> (r: Option<&[u8]>) {
        if base < 2 || base > 36 {
            return None;
        }
        if string.len() < required_space(base as u128, 340282366920938463463374607431768211455, false) {
            return None;
        }
        proof {
            lemma_required_space_suffices(self as int, Self::max_magnitude(), false, base as nat);
        }
        Some(numtoa_u128(self, base, string))
    }

    fn numtoa_str(self, base: u128, buf: &mut [u8]) -> (r: &str) {
        numtoa_u128_str(self, base, buf)
    }
}

impl NumToA for usize {
    open spec fn int_value(&self) -> int {
        *self as int
    }

    fn numtoa(self, base: usize, string: &mut [u8]) -> (r: &[u8]) {
        numtoa_usize(self, base, string)
    }

    open spec fn max_magnitude() -> nat {
        usize::MAX as nat
    }

    open spec fn is_signed() -> bool {
        false
    }

    fn numtoa_checked(self, base: usize, string: &mut [u8]) -> (r: Option<&[u8]>) {
        if base < 2 || base > 36 {
            return None;
        }
        if string.len() < required_space(base as u128, usize::MAX as u128, false) {
            return None;
        }
        proof {
            lemma_required_space_suffices(self as int, Self::max_magnitude(), false, base as nat);
        }
        Some(numtoa_usize(self, base, string))
    }

    fn numtoa_str(self, base: usize, buf: &mut [u8]) -> (r: &str) {
        numtoa_usize_str(self, base, buf)
    }
}

} // verus!
