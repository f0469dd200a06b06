//! Conversions into a value that owns its buffer, for a base fixed by the type.
use crate::encode::{
    ascii_str, numtoa_i128, numtoa_i16, numtoa_i32, numtoa_i64, numtoa_i8, numtoa_isize,
    numtoa_u128, numtoa_u16, numtoa_u32, numtoa_u64, numtoa_u8, numtoa_usize,
};
use crate::laws::lemma_required_space_suffices;
use crate::numeral::{lemma_digits_len_pow2, numeral, space};
use vstd::arithmetic::power2::{lemma2_to64, lemma_pow2_adds, pow2};
use vstd::prelude::*;
use vstd::string::StringSliceAdditionalSpecFns;

verus! {

/// Converts numbers into their numerals in base `N`, from 2 to 36, each held in
/// an [AsciiNumber] with room for any value of its type in any base.
pub struct BaseN<const N: usize> {}

/// The numeral of a number, held in a buffer of `N` bytes that it owns: the
/// numeral fills the buffer from `start` to its end.
#[derive(Clone, Copy)]
pub struct AsciiNumber<const N: usize> {
    string: [u8; N],
    start: usize,
}

impl<const N: usize> AsciiNumber<N> {
    #[verifier::type_invariant]
    spec fn inv(&self) -> bool {
        self.start <= N
    }

    /// The whole buffer.
    pub closed spec fn buffer(&self) -> Seq<u8> {
        self.string@
    }

    /// Where the numeral starts in the buffer.
    pub closed spec fn start_index(&self) -> nat {
        self.start as nat
    }

    /// The numeral, as the bytes of the buffer that it fills.
    pub fn as_slice(&self) -> (r: &[u8])
        ensures
            r@ == self@,
    {
        proof {
            use_type_invariant(self);
        }
        self.string.as_slice().split_at(self.start).1
    }

    /// The numeral as a `str`; every byte of it must be ASCII, as the bytes of
    /// a numeral are.
    pub fn as_str(&self) -> (r: &str)
        requires
            forall|i: int| 0 <= i < self@.len() ==> self@[i] < 128,
        ensures
            r.spec_bytes() == self@,
    {
        ascii_str(self.as_slice())
    }

    /// Gives up the buffer, with the position where the numeral starts in it.
    pub fn into_inner(self) -> (r: ([u8; N], usize))
        ensures
            r.0@ == self.buffer(),
            r.1 == self.start_index(),
            r.1 <= N,
            self@ == r.0@.subrange(r.1 as int, N as int),
    {
        proof {
            use_type_invariant(&self);
        }
        (self.string, self.start)
    }
}

impl<const N: usize> View for AsciiNumber<N> {
    type V = Seq<u8>;

    /// The bytes of the numeral.
    closed spec fn view(&self) -> Seq<u8> {
        self.string@.subrange(self.start as int, N as int)
    }
}

impl<const N: usize> PartialEq for AsciiNumber<N> {
    fn eq(&self, other: &AsciiNumber<N>) -> (r: bool) {
        let a = self.as_slice();
        let b = other.as_slice();
        if a.len() != b.len() {
            return false;
        }
        let mut i: usize = 0;
        while i < a.len()
            invariant
                a@ == self@,
                b@ == other@,
                a@.len() == b@.len(),
                i <= a@.len(),
                a@.subrange(0, i as int) == b@.subrange(0, i as int),
            decreases a@.len() - i,
        {
            if a[i] != b[i] {
                return false;
            }
            assert(a@.subrange(0, i + 1) =~= a@.subrange(0, i as int).push(a@[i as int]));
            assert(b@.subrange(0, i + 1) =~= b@.subrange(0, i as int).push(b@[i as int]));
            i = i + 1;
        }
        assert(a@ =~= a@.subrange(0, i as int));
        assert(b@ =~= b@.subrange(0, i as int));
        true
    }
}

impl<const N: usize> vstd::std_specs::cmp::PartialEqSpecImpl for AsciiNumber<N> {
    open spec fn obeys_eq_spec() -> bool {
        true
    }

    open spec fn eq_spec(&self, other: &AsciiNumber<N>) -> bool {
        self@ == other@
    }
}

impl<const N: usize> Default for AsciiNumber<N> {
    /// The numeral of zero, `0`, at the end of a buffer whose other bytes are
    /// zero; a buffer with no room at all holds an empty numeral.
    fn default() -> (r: Self)
        ensures
            N > 0 ==> r@ == seq![48u8] && r.start_index() == N - 1 && r.buffer() == Seq::new(
                (N - 1) as nat,
                |i: int| 0u8,
            ).push(48u8),
            N == 0 ==> r@ == Seq::<u8>::empty(),
    {
        let mut string = [0u8; N];
        if N > 0 {
            string[N - 1] = 48;
            assert(string@ =~= Seq::new((N - 1) as nat, |i: int| 0u8).push(48u8));
            assert(string@.subrange(N - 1, N as int) =~= seq![48u8]);
            AsciiNumber { string, start: N - 1 }
        } else {
            assert(string@.subrange(0, 0) =~= Seq::<u8>::empty());
            AsciiNumber { string, start: 0 }
        }
    }
}

impl<const N: usize> Eq for AsciiNumber<N> {

}

/// A magnitude below `2^w` takes at most `w` digits in any base, and one more
/// byte for a sign.
proof fn lemma_space_fits(base: nat, max_mag: nat, signed: bool, w: nat)
    requires
        2 <= base,
        1 <= w,
        max_mag < pow2(w),
    ensures
        space(base, max_mag, signed) <= w + if signed {
            1int
        } else {
            0int
        },
{
    lemma_digits_len_pow2(max_mag, base, w);
}

impl<const N: usize> BaseN<N> {

    /// The numeral of `num` in base `N`, at the end of a buffer whose other
    /// bytes are zero.
    pub fn i8(num: i8) -> (r: AsciiNumber<9>)
        requires
            2 <= N <= 36,
        ensures
            r@ == numeral(num as int, N as nat),
            r.start_index() == 9 - numeral(num as int, N as nat).len(),
            r.buffer() == Seq::new((9 - numeral(num as int, N as nat).len()) as nat, |i: int| 0u8)
                + numeral(num as int, N as nat),
    {
        proof {
            lemma2_to64();
            lemma_space_fits(N as nat, 128, true, 8);
            lemma_required_space_suffices(num as int, 128, true, N as nat);
        }
        let mut string = [0u8; 9];
        let len = numtoa_i8(num, N as i8, &mut string).len();
        let start = 9 - len;
        assert(string@ =~= Seq::new((9 - len) as nat, |i: int| 0u8) + numeral(
            num as int,
            N as nat,
        ));
        assert(string@.subrange(start as int, 9) =~= numeral(num as int, N as nat));
        AsciiNumber { string, start }
    }

    /// The numeral of `num` in base `N`, at the end of a buffer of `LENGTH`
    /// bytes whose other bytes hold `padding`; the result spans the whole
    /// buffer, which must have room for any value of the type in base `N`.
    pub fn i8_padded<const LENGTH: usize>(num: i8, padding: u8) -> (r: AsciiNumber<LENGTH>)
        requires
            2 <= N <= 36,
            space(N as nat, 128, true) <= LENGTH,
        ensures
            r.start_index() == 0,
            r@ == Seq::new((LENGTH - numeral(num as int, N as nat).len()) as nat, |i: int| padding)
                + numeral(num as int, N as nat),
    {
        proof {
            lemma_required_space_suffices(num as int, 128, true, N as nat);
        }
        let mut string = [padding; LENGTH];
        let _ = numtoa_i8(num, N as i8, &mut string);
        assert(string@.subrange(0, LENGTH as int) =~= Seq::new(
            (LENGTH - numeral(num as int, N as nat).len()) as nat,
            |i: int| padding,
        ) + numeral(num as int, N as nat));
        AsciiNumber { string, start: 0 }
    }

    /// The numeral of `num` in base `N`, at the end of a buffer whose other
    /// bytes are zero.
    pub fn i16(num: i16) -> (r: AsciiNumber<17>)
        requires
            2 <= N <= 36,
        ensures
            r@ == numeral(num as int, N as nat),
            r.start_index() == 17 - numeral(num as int, N as nat).len(),
            r.buffer() == Seq::new((17 - numeral(num as int, N as nat).len()) as nat, |i: int| 0u8)
                + numeral(num as int, N as nat),
    {
        proof {
            lemma2_to64();
            lemma_space_fits(N as nat, 32768, true, 16);
            lemma_required_space_suffices(num as int, 32768, true, N as nat);
        }
        let mut string = [0u8; 17];
        let len = numtoa_i16(num, N as i16, &mut string).len();
        let start = 17 - len;
        assert(string@ =~= Seq::new((17 - len) as nat, |i: int| 0u8) + numeral(
            num as int,
            N as nat,
        ));
        assert(string@.subrange(start as int, 17) =~= numeral(num as int, N as nat));
        AsciiNumber { string, start }
    }

    /// The numeral of `num` in base `N`, at the end of a buffer of `LENGTH`
    /// bytes whose other bytes hold `padding`; the result spans the whole
    /// buffer, which must have room for any value of the type in base `N`.
    pub fn i16_padded<const LENGTH: usize>(num: i16, padding: u8) -> (r: AsciiNumber<LENGTH>)
        requires
            2 <= N <= 36,
            space(N as nat, 32768, true) <= LENGTH,
        ensures
            r.start_index() == 0,
            r@ == Seq::new((LENGTH - numeral(num as int, N as nat).len()) as nat, |i: int| padding)
                + numeral(num as int, N as nat),
    {
        proof {
            lemma_required_space_suffices(num as int, 32768, true, N as nat);
        }
        let mut string = [padding; LENGTH];
        let _ = numtoa_i16(num, N as i16, &mut string);
        assert(string@.subrange(0, LENGTH as int) =~= Seq::new(
            (LENGTH - numeral(num as int, N as nat).len()) as nat,
            |i: int| padding,
        ) + numeral(num as int, N as nat));
        AsciiNumber { string, start: 0 }
    }

    /// The numeral of `num` in base `N`, at the end of a buffer whose other
    /// bytes are zero.
    pub fn i32(num: i32) -> (r: AsciiNumber<33>)
        requires
            2 <= N <= 36,
        ensures
            r@ == numeral(num as int, N as nat),
            r.start_index() == 33 - numeral(num as int, N as nat).len(),
            r.buffer() == Seq::new((33 - numeral(num as int, N as nat).len()) as nat, |i: int| 0u8)
                + numeral(num as int, N as nat),
    {
        proof {
            lemma2_to64();
            lemma_space_fits(N as nat, 2147483648, true, 32);
            lemma_required_space_suffices(num as int, 2147483648, true, N as nat);
        }
        let mut string = [0u8; 33];
        let len = numtoa_i32(num, N as i32, &mut string).len();
        let start = 33 - len;
        assert(string@ =~= Seq::new((33 - len) as nat, |i: int| 0u8) + numeral(
            num as int,
            N as nat,
        ));
        assert(string@.subrange(start as int, 33) =~= numeral(num as int, N as nat));
        AsciiNumber { string, start }
    }

    /// The numeral of `num` in base `N`, at the end of a buffer of `LENGTH`
    /// bytes whose other bytes hold `padding`; the result spans the whole
    /// buffer, which must have room for any value of the type in base `N`.
    pub fn i32_padded<const LENGTH: usize>(num: i32, padding: u8) -> (r: AsciiNumber<LENGTH>)
        requires
            2 <= N <= 36,
            space(N as nat, 2147483648, true) <= LENGTH,
        ensures
            r.start_index() == 0,
            r@ == Seq::new((LENGTH - numeral(num as int, N as nat).len()) as nat, |i: int| padding)
                + numeral(num as int, N as nat),
    {
        proof {
            lemma_required_space_suffices(num as int, 2147483648, true, N as nat);
        }
        let mut string = [padding; LENGTH];
        let _ = numtoa_i32(num, N as i32, &mut string);
        assert(string@.subrange(0, LENGTH as int) =~= Seq::new(
            (LENGTH - numeral(num as int, N as nat).len()) as nat,
            |i: int| padding,
        ) + numeral(num as int, N as nat));
        AsciiNumber { string, start: 0 }
    }

    /// The numeral of `num` in base `N`, at the end of a buffer whose other
    /// bytes are zero.
    pub fn i64(num: i64) -> (r: AsciiNumber<65>)
        requires
            2 <= N <= 36,
        ensures
            r@ == numeral(num as int, N as nat),
            r.start_index() == 65 - numeral(num as int, N as nat).len(),
            r.buffer() == Seq::new((65 - numeral(num as int, N as nat).len()) as nat, |i: int| 0u8)
                + numeral(num as int, N as nat),
    {
        proof {
            lemma2_to64();
            lemma_space_fits(N as nat, 9223372036854775808, true, 64);
            lemma_required_space_suffices(num as int, 9223372036854775808, true, N as nat);
        }
        let mut string = [0u8; 65];
        let len = numtoa_i64(num, N as i64, &mut string).len();
        let start = 65 - len;
        assert(string@ =~= Seq::new((65 - len) as nat, |i: int| 0u8) + numeral(
            num as int,
            N as nat,
        ));
        assert(string@.subrange(start as int, 65) =~= numeral(num as int, N as nat));
        AsciiNumber { string, start }
    }

    /// The numeral of `num` in base `N`, at the end of a buffer of `LENGTH`
    /// bytes whose other bytes hold `padding`; the result spans the whole
    /// buffer, which must have room for any value of the type in base `N`.
    pub fn i64_padded<const LENGTH: usize>(num: i64, padding: u8) -> (r: AsciiNumber<LENGTH>)
        requires
            2 <= N <= 36,
            space(N as nat, 9223372036854775808, true) <= LENGTH,
        ensures
            r.start_index() == 0,
            r@ == Seq::new((LENGTH - numeral(num as int, N as nat).len()) as nat, |i: int| padding)
                + numeral(num as int, N as nat),
    {
        proof {
            lemma_required_space_suffices(num as int, 9223372036854775808, true, N as nat);
        }
        let mut string = [padding; LENGTH];
        let _ = numtoa_i64(num, N as i64, &mut string);
        assert(string@.subrange(0, LENGTH as int) =~= Seq::new(
            (LENGTH - numeral(num as int, N as nat).len()) as nat,
            |i: int| padding,
        ) + numeral(num as int, N as nat));
        AsciiNumber { string, start: 0 }
    }

    /// The numeral of `num` in base `N`, at the end of a buffer whose other
    /// bytes are zero.
    pub fn i128(num: i128) -> (r: AsciiNumber<129>)
        requires
            2 <= N <= 36,
        ensures
            r@ == numeral(num as int, N as nat),
            r.start_index() == 129 - numeral(num as int, N as nat).len(),
            r.buffer() == Seq::new((129 - numeral(num as int, N as nat).len()) as nat, |i: int| 0u8)
                + numeral(num as int, N as nat),
    {
        proof {
            lemma2_to64(); lemma_pow2_adds(64, 64);
            lemma_space_fits(N as nat, 170141183460469231731687303715884105728, true, 128);
            lemma_required_space_suffices(num as int, 170141183460469231731687303715884105728, true, N as nat);
        }
        let mut string = [0u8; 129];
        let len = numtoa_i128(num, N as i128, &mut string).len();
        let start = 129 - len;
        assert(string@ =~= Seq::new((129 - len) as nat, |i: int| 0u8) + numeral(
            num as int,
            N as nat,
        ));
        assert(string@.subrange(start as int, 129) =~= numeral(num as int, N as nat));
        AsciiNumber { string, start }
    }

    /// The numeral of `num` in base `N`, at the end of a buffer of `LENGTH`
    /// bytes whose other bytes hold `padding`; the result spans the whole
    /// buffer, which must have room for any value of the type in base `N`.
    pub fn i128_padded<const LENGTH: usize>(num: i128, padding: u8) -> (r: AsciiNumber<LENGTH>)
        requires
            2 <= N <= 36,
            space(N as nat, 170141183460469231731687303715884105728, true) <= LENGTH,
        ensures
            r.start_index() == 0,
            r@ == Seq::new((LENGTH - numeral(num as int, N as nat).len()) as nat, |i: int| padding)
                + numeral(num as int, N as nat),
    {
        proof {
            lemma_required_space_suffices(num as int, 170141183460469231731687303715884105728, true, N as nat);
        }
        let mut string = [padding; LENGTH];
        let _ = numtoa_i128(num, N as i128, &mut string);
        assert(string@.subrange(0, LENGTH as int) =~= Seq::new(
            (LENGTH - numeral(num as int, N as nat).len()) as nat,
            |i: int| padding,
        ) + numeral(num as int, N as nat));
        AsciiNumber { string, start: 0 }
    }

    /// The numeral of `num` in base `N`, at the end of a buffer whose other
    /// bytes are zero.
    pub fn isize(num: isize) -> (r: AsciiNumber<65>)
        requires
            2 <= N <= 36,
        ensures
            r@ == numeral(num as int, N as nat),
            r.start_index() == 65 - numeral(num as int, N as nat).len(),
            r.buffer() == Seq::new((65 - numeral(num as int, N as nat).len()) as nat, |i: int| 0u8)
                + numeral(num as int, N as nat),
    {
        proof {
            lemma2_to64();
            lemma_space_fits(N as nat, (-(isize::MIN as int)) as nat, true, 64);
            lemma_required_space_suffices(num as int, (-(isize::MIN as int)) as nat, true, N as nat);
        }
        let mut string = [0u8; 65];
        let len = numtoa_isize(num, N as isize, &mut string).len();
        let start = 65 - len;
        assert(string@ =~= Seq::new((65 - len) as nat, |i: int| 0u8) + numeral(
            num as int,
            N as nat,
        ));
        assert(string@.subrange(start as int, 65) =~= numeral(num as int, N as nat));
        AsciiNumber { string, start }
    }

    /// The numeral of `num` in base `N`, at the end of a buffer of `LENGTH`
    /// bytes whose other bytes hold `padding`; the result spans the whole
    /// buffer, which must have room for any value of the type in base `N`.
    pub fn isize_padded<const LENGTH: usize>(num: isize, padding: u8) -> (r: AsciiNumber<LENGTH>)
        requires
            2 <= N <= 36,
            space(N as nat, (-(isize::MIN as int)) as nat, true) <= LENGTH,
        ensures
            r.start_index() == 0,
            r@ == Seq::new((LENGTH - numeral(num as int, N as nat).len()) as nat, |i: int| padding)
                + numeral(num as int, N as nat),
    {
        proof {
            lemma_required_space_suffices(num as int, (-(isize::MIN as int)) as nat, true, N as nat);
        }
        let mut string = [padding; LENGTH];
        let _ = numtoa_isize(num, N as isize, &mut string);
        assert(string@.subrange(0, LENGTH as int) =~= Seq::new(
            (LENGTH - numeral(num as int, N as nat).len()) as nat,
            |i: int| padding,
        ) + numeral(num as int, N as nat));
        AsciiNumber { string, start: 0 }
    }

    /// The numeral of `num` in base `N`, at the end of a buffer whose other
    /// bytes are zero.
    pub fn u8(num: u8) -> (r: AsciiNumber<8>)
        requires
            2 <= N <= 36,
        ensures
            r@ == numeral(num as int, N as nat),
            r.start_index() == 8 - numeral(num as int, N as nat).len(),
            r.buffer() == Seq::new((8 - numeral(num as int, N as nat).len()) as nat, |i: int| 0u8)
                + numeral(num as int, N as nat),
    {
        proof {
            lemma2_to64();
            lemma_space_fits(N as nat, 255, false, 8);
            lemma_required_space_suffices(num as int, 255, false, N as nat);
        }
        let mut string = [0u8; 8];
        let len = numtoa_u8(num, N as u8, &mut string).len();
        let start = 8 - len;
        assert(string@ =~= Seq::new((8 - len) as nat, |i: int| 0u8) + numeral(
            num as int,
            N as nat,
        ));
        assert(string@.subrange(start as int, 8) =~= numeral(num as int, N as nat));
        AsciiNumber { string, start }
    }

    /// The numeral of `num` in base `N`, at the end of a buffer of `LENGTH`
    /// bytes whose other bytes hold `padding`; the result spans the whole
    /// buffer, which must have room for any value of the type in base `N`.
    pub fn u8_padded<const LENGTH: usize>(num: u8, padding: u8) -> (r: AsciiNumber<LENGTH>)
        requires
            2 <= N <= 36,
            space(N as nat, 255, false) <= LENGTH,
        ensures
            r.start_index() == 0,
            r@ == Seq::new((LENGTH - numeral(num as int, N as nat).len()) as nat, |i: int| padding)
                + numeral(num as int, N as nat),
    {
        proof {
            lemma_required_space_suffices(num as int, 255, false, N as nat);
        }
        let mut string = [padding; LENGTH];
        let _ = numtoa_u8(num, N as u8, &mut string);
        assert(string@.subrange(0, LENGTH as int) =~= Seq::new(
            (LENGTH - numeral(num as int, N as nat).len()) as nat,
            |i: int| padding,
        ) + numeral(num as int, N as nat));
        AsciiNumber { string, start: 0 }
    }

    /// The numeral of `num` in base `N`, at the end of a buffer whose other
    /// bytes are zero.
    pub fn u16(num: u16) -> (r: AsciiNumber<16>)
        requires
            2 <= N <= 36,
        ensures
            r@ == numeral(num as int, N as nat),
            r.start_index() == 16 - numeral(num as int, N as nat).len(),
            r.buffer() == Seq::new((16 - numeral(num as int, N as nat).len()) as nat, |i: int| 0u8)
                + numeral(num as int, N as nat),
    {
        proof {
            lemma2_to64();
            lemma_space_fits(N as nat, 65535, false, 16);
            lemma_required_space_suffices(num as int, 65535, false, N as nat);
        }
        let mut string = [0u8; 16];
        let len = numtoa_u16(num, N as u16, &mut string).len();
        let start = 16 - len;
        assert(string@ =~= Seq::new((16 - len) as nat, |i: int| 0u8) + numeral(
            num as int,
            N as nat,
        ));
        assert(string@.subrange(start as int, 16) =~= numeral(num as int, N as nat));
        AsciiNumber { string, start }
    }

    /// The numeral of `num` in base `N`, at the end of a buffer of `LENGTH`
    /// bytes whose other bytes hold `padding`; the result spans the whole
    /// buffer, which must have room for any value of the type in base `N`.
    pub fn u16_padded<const LENGTH: usize>(num: u16, padding: u8) -> (r: AsciiNumber<LENGTH>)
        requires
            2 <= N <= 36,
            space(N as nat, 65535, false) <= LENGTH,
        ensures
            r.start_index() == 0,
            r@ == Seq::new((LENGTH - numeral(num as int, N as nat).len()) as nat, |i: int| padding)
                + numeral(num as int, N as nat),
    {
        proof {
            lemma_required_space_suffices(num as int, 65535, false, N as nat);
        }
        let mut string = [padding; LENGTH];
        let _ = numtoa_u16(num, N as u16, &mut string);
        assert(string@.subrange(0, LENGTH as int) =~= Seq::new(
            (LENGTH - numeral(num as int, N as nat).len()) as nat,
            |i: int| padding,
        ) + numeral(num as int, N as nat));
        AsciiNumber { string, start: 0 }
    }

    /// The numeral of `num` in base `N`, at the end of a buffer whose other
    /// bytes are zero.
    pub fn u32(num: u32) -> (r: AsciiNumber<32>)
        requires
            2 <= N <= 36,
        ensures
            r@ == numeral(num as int, N as nat),
            r.start_index() == 32 - numeral(num as int, N as nat).len(),
            r.buffer() == Seq::new((32 - numeral(num as int, N as nat).len()) as nat, |i: int| 0u8)
                + numeral(num as int, N as nat),
    {
        proof {
            lemma2_to64();
            lemma_space_fits(N as nat, 4294967295, false, 32);
            lemma_required_space_suffices(num as int, 4294967295, false, N as nat);
        }
        let mut string = [0u8; 32];
        let len = numtoa_u32(num, N as u32, &mut string).len();
        let start = 32 - len;
        assert(string@ =~= Seq::new((32 - len) as nat, |i: int| 0u8) + numeral(
            num as int,
            N as nat,
        ));
        assert(string@.subrange(start as int, 32) =~= numeral(num as int, N as nat));
        AsciiNumber { string, start }
    }

    /// The numeral of `num` in base `N`, at the end of a buffer of `LENGTH`
    /// bytes whose other bytes hold `padding`; the result spans the whole
    /// buffer, which must have room for any value of the type in base `N`.
    pub fn u32_padded<const LENGTH: usize>(num: u32, padding: u8) -> (r: AsciiNumber<LENGTH>)
        requires
            2 <= N <= 36,
            space(N as nat, 4294967295, false) <= LENGTH,
        ensures
            r.start_index() == 0,
            r@ == Seq::new((LENGTH - numeral(num as int, N as nat).len()) as nat, |i: int| padding)
                + numeral(num as int, N as nat),
    {
        proof {
            lemma_required_space_suffices(num as int, 4294967295, false, N as nat);
        }
        let mut string = [padding; LENGTH];
        let _ = numtoa_u32(num, N as u32, &mut string);
        assert(string@.subrange(0, LENGTH as int) =~= Seq::new(
            (LENGTH - numeral(num as int, N as nat).len()) as nat,
            |i: int| padding,
        ) + numeral(num as int, N as nat));
        AsciiNumber { string, start: 0 }
    }

    /// The numeral of `num` in base `N`, at the end of a buffer whose other
    /// bytes are zero.
    pub fn u64(num: u64) -> (r: AsciiNumber<64>)
        requires
            2 <= N <= 36,
        ensures
            r@ == numeral(num as int, N as nat),
            r.start_index() == 64 - numeral(num as int, N as nat).len(),
            r.buffer() == Seq::new((64 - numeral(num as int, N as nat).len()) as nat, |i: int| 0u8)
                + numeral(num as int, N as nat),
    {
        proof {
            lemma2_to64();
            lemma_space_fits(N as nat, 18446744073709551615, false, 64);
            lemma_required_space_suffices(num as int, 18446744073709551615, false, N as nat);
        }
        let mut string = [0u8; 64];
        let len = numtoa_u64(num, N as u64, &mut string).len();
        let start = 64 - len;
        assert(string@ =~= Seq::new((64 - len) as nat, |i: int| 0u8) + numeral(
            num as int,
            N as nat,
        ));
        assert(string@.subrange(start as int, 64) =~= numeral(num as int, N as nat));
        AsciiNumber { string, start }
    }

    /// The numeral of `num` in base `N`, at the end of a buffer of `LENGTH`
    /// bytes whose other bytes hold `padding`; the result spans the whole
    /// buffer, which must have room for any value of the type in base `N`.
    pub fn u64_padded<const LENGTH: usize>(num: u64, padding: u8) -> (r: AsciiNumber<LENGTH>)
        requires
            2 <= N <= 36,
            space(N as nat, 18446744073709551615, false) <= LENGTH,
        ensures
            r.start_index() == 0,
            r@ == Seq::new((LENGTH - numeral(num as int, N as nat).len()) as nat, |i: int| padding)
                + numeral(num as int, N as nat),
    {
        proof {
            lemma_required_space_suffices(num as int, 18446744073709551615, false, N as nat);
        }
        let mut string = [padding; LENGTH];
        let _ = numtoa_u64(num, N as u64, &mut string);
        assert(string@.subrange(0, LENGTH as int) =~= Seq::new(
            (LENGTH - numeral(num as int, N as nat).len()) as nat,
            |i: int| padding,
        ) + numeral(num as int, N as nat));
        AsciiNumber { string, start: 0 }
    }

    /// The numeral of `num` in base `N`, at the end of a buffer whose other
    /// bytes are zero.
    pub fn u128(num: u128) -> (r: AsciiNumber<128>)
        requires
            2 <= N <= 36,
        ensures
            r@ == numeral(num as int, N as nat),
            r.start_index() == 128 - numeral(num as int, N as nat).len(),
            r.buffer() == Seq::new((128 - numeral(num as int, N as nat).len()) as nat, |i: int| 0u8)
                + numeral(num as int, N as nat),
    {
        proof {
            lemma2_to64(); lemma_pow2_adds(64, 64);
            lemma_space_fits(N as nat, 340282366920938463463374607431768211455, false, 128);
            lemma_required_space_suffices(num as int, 340282366920938463463374607431768211455, false, N as nat);
        }
        let mut string = [0u8; 128];
        let len = numtoa_u128(num, N as u128, &mut string).len();
        let start = 128 - len;
        assert(string@ =~= Seq::new((128 - len) as nat, |i: int| 0u8) + numeral(
            num as int,
            N as nat,
        ));
        assert(string@.subrange(start as int, 128) =~= numeral(num as int, N as nat));
        AsciiNumber { string, start }
    }

    /// The numeral of `num` in base `N`, at the end of a buffer of `LENGTH`
    /// bytes whose other bytes hold `padding`; the result spans the whole
    /// buffer, which must have room for any value of the type in base `N`.
    pub fn u128_padded<const LENGTH: usize>(num: u128, padding: u8) -> (r: AsciiNumber<LENGTH>)
        requires
            2 <= N <= 36,
            space(N as nat, 340282366920938463463374607431768211455, false) <= LENGTH,
        ensures
            r.start_index() == 0,
            r@ == Seq::new((LENGTH - numeral(num as int, N as nat).len()) as nat, |i: int| padding)
                + numeral(num as int, N as nat),
    {
        proof {
            lemma_required_space_suffices(num as int, 340282366920938463463374607431768211455, false, N as nat);
        }
        let mut string = [padding; LENGTH];
        let _ = numtoa_u128(num, N as u128, &mut string);
        assert(string@.subrange(0, LENGTH as int) =~= Seq::new(
            (LENGTH - numeral(num as int, N as nat).len()) as nat,
            |i: int| padding,
        ) + numeral(num as int, N as nat));
        AsciiNumber { string, start: 0 }
    }

    /// The numeral of `num` in base `N`, at the end of a buffer whose other
    /// bytes are zero.
    pub fn usize(num: usize) -> (r: AsciiNumber<64>)
        requires
            2 <= N <= 36,
        ensures
            r@ == numeral(num as int, N as nat),
            r.start_index() == 64 - numeral(num as int, N as nat).len(),
            r.buffer() == Seq::new((64 - numeral(num as int, N as nat).len()) as nat, |i: int| 0u8)
                + numeral(num as int, N as nat),
    {
        proof {
            lemma2_to64();
            lemma_space_fits(N as nat, usize::MAX as nat, false, 64);
            lemma_required_space_suffices(num as int, usize::MAX as nat, false, N as nat);
        }
        let mut string = [0u8; 64];
        let len = numtoa_usize(num, N as usize, &mut string).len();
        let start = 64 - len;
        assert(string@ =~= Seq::new((64 - len) as nat, |i: int| 0u8) + numeral(
            num as int,
            N as nat,
        ));
        assert(string@.subrange(start as int, 64) =~= numeral(num as int, N as nat));
        AsciiNumber { string, start }
    }

    /// The numeral of `num` in base `N`, at the end of a buffer of `LENGTH`
    /// bytes whose other bytes hold `padding`; the result spans the whole
    /// buffer, which must have room for any value of the type in base `N`.
    pub fn usize_padded<const LENGTH: usize>(num: usize, padding: u8) -> (r: AsciiNumber<LENGTH>)
        requires
            2 <= N <= 36,
            space(N as nat, usize::MAX as nat, false) <= LENGTH,
        ensures
            r.start_index() == 0,
            r@ == Seq::new((LENGTH - numeral(num as int, N as nat).len()) as nat, |i: int| padding)
                + numeral(num as int, N as nat),
    {
        proof {
            lemma_required_space_suffices(num as int, usize::MAX as nat, false, N as nat);
        }
        let mut string = [padding; LENGTH];
        let _ = numtoa_usize(num, N as usize, &mut string);
        assert(string@.subrange(0, LENGTH as int) =~= Seq::new(
            (LENGTH - numeral(num as int, N as nat).len()) as nat,
            |i: int| padding,
        ) + numeral(num as int, N as nat));
        AsciiNumber { string, start: 0 }
    }

}

} // verus!
