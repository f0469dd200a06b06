use numtoa::writer::{write_decimal_u128, write_decimal_u64, write_digits_u128, write_digits_u64};
use numtoa::{
    numtoa_i128, numtoa_i16, numtoa_i32, numtoa_i64, numtoa_i8, numtoa_isize, numtoa_u128,
    numtoa_u16, numtoa_u32, numtoa_u64, numtoa_u64_str, numtoa_u8, numtoa_u8_str, numtoa_usize,
    required_space, AsciiNumber, BaseN, NumToA,
};

/// A fixed pseudo-random sequence, so that runs are repeatable.
fn sample(count: usize) -> Vec<u128> {
    let mut state: u128 = 0x2545_F491_4F6C_DD1D;
    let mut out = Vec::new();
    for _ in 0..count {
        state = state
            .wrapping_mul(6364136223846793005u128 << 64 | 1442695040888963407)
            .wrapping_add(1);
        let width = (state >> 120) as u32 % 128;
        out.push(state.rotate_left(17) >> (127 - width));
    }
    out
}

fn text(bytes: &[u8]) -> &str {
    std::str::from_utf8(bytes).unwrap()
}

#[test]
fn round_trip_every_width_and_base() {
    let values = sample(300);
    let mut buf = [0u8; 140];
    for base in 2u8..=36 {
        for &raw in &values {
            let v = raw as i128;
            let r = numtoa_i128(v, base as i128, &mut buf);
            assert_eq!(i128::from_str_radix(text(r), base as u32).unwrap(), v);
            let r = numtoa_u128(raw, base as u128, &mut buf);
            assert_eq!(u128::from_str_radix(text(r), base as u32).unwrap(), raw);
            let r = numtoa_i64(raw as i64, base as i64, &mut buf);
            assert_eq!(i64::from_str_radix(text(r), base as u32).unwrap(), raw as i64);
            let r = numtoa_u64(raw as u64, base as u64, &mut buf);
            assert_eq!(u64::from_str_radix(text(r), base as u32).unwrap(), raw as u64);
            let r = numtoa_i32(raw as i32, base as i32, &mut buf);
            assert_eq!(i32::from_str_radix(text(r), base as u32).unwrap(), raw as i32);
            let r = numtoa_u32(raw as u32, base as u32, &mut buf);
            assert_eq!(u32::from_str_radix(text(r), base as u32).unwrap(), raw as u32);
            let r = numtoa_i16(raw as i16, base as i16, &mut buf);
            assert_eq!(i16::from_str_radix(text(r), base as u32).unwrap(), raw as i16);
            let r = numtoa_u16(raw as u16, base as u16, &mut buf);
            assert_eq!(u16::from_str_radix(text(r), base as u32).unwrap(), raw as u16);
            let r = numtoa_isize(raw as isize, base as isize, &mut buf);
            assert_eq!(isize::from_str_radix(text(r), base as u32).unwrap(), raw as isize);
            let r = numtoa_usize(raw as usize, base as usize, &mut buf);
            assert_eq!(usize::from_str_radix(text(r), base as u32).unwrap(), raw as usize);
        }
        for v in i8::MIN..=i8::MAX {
            let r = numtoa_i8(v, base as i8, &mut buf);
            assert_eq!(i8::from_str_radix(text(r), base as u32).unwrap(), v);
        }
        for v in u8::MIN..=u8::MAX {
            let r = numtoa_u8(v, base, &mut buf);
            assert_eq!(u8::from_str_radix(text(r), base as u32).unwrap(), v);
        }
    }
}

#[test]
fn zero_is_a_single_digit_in_every_base() {
    let mut buf = [b'x'; 130];
    for base in 2u8..=36 {
        assert_eq!(numtoa_u8(0, base, &mut buf), b"0");
        assert_eq!(numtoa_i64(0, base as i64, &mut buf), b"0");
        assert_eq!(numtoa_u128(0, base as u128, &mut buf), b"0");
    }
}

#[test]
fn negative_numeral_is_sign_then_magnitude() {
    let mut buf = [0u8; 140];
    let mut mag_buf = [0u8; 140];
    for base in 2i64..=36 {
        for v in [-1i64, -7, -36, -37, -1000, -256123, i64::MIN + 1, i64::MIN] {
            let r = numtoa_i64(v, base, &mut buf);
            let m = numtoa_u64(v.unsigned_abs(), base as u64, &mut mag_buf);
            assert_eq!(r[0], b'-');
            assert_eq!(&r[1..], m);
        }
    }
}

#[test]
fn minimum_values_in_base_ten() {
    let mut buffer = [0u8; 40];
    assert_eq!(i8::MIN.numtoa(10, &mut buffer), b"-128");
    assert_eq!(i16::MIN.numtoa(10, &mut buffer), b"-32768");
    assert_eq!(i32::MIN.numtoa(10, &mut buffer), b"-2147483648");
    assert_eq!(i64::MIN.numtoa(10, &mut buffer), b"-9223372036854775808");
    assert_eq!(
        i128::MIN.numtoa(10, &mut buffer),
        b"-170141183460469231731687303715884105728"
    );
    assert_eq!(
        isize::MIN.numtoa(10, &mut buffer),
        isize::MIN.to_string().as_bytes()
    );
}

#[test]
fn decimal_fast_path_matches_digit_loop() {
    let mut fast = [0u8; 40];
    let mut slow = [0u8; 40];
    let mut values = sample(2000);
    values.extend([0, 9, 10, 99, 100, 999, 1000, 9999, 10000, 99999, 100000, u64::MAX as u128]);
    values.push(u128::MAX);
    for &v in &values {
        let a = write_decimal_u128(v, &mut fast, 40);
        let b = write_digits_u128(v, 10, &mut slow, 40);
        assert_eq!(&fast[a..], &slow[b..]);
        assert_eq!(text(&fast[a..]), v.to_string());
        let a = write_decimal_u64(v as u64, &mut fast, 40);
        let b = write_digits_u64(v as u64, 10, &mut slow, 40);
        assert_eq!(&fast[a..], &slow[b..]);
        assert_eq!(text(&fast[a..]), (v as u64).to_string());
    }
}

#[test]
fn writers_stop_at_the_given_end() {
    let mut buf = [b'.'; 12];
    let start = write_decimal_u64(256123, &mut buf, 9);
    assert_eq!(start, 3);
    assert_eq!(&buf, b"...256123...");
    let start = write_digits_u64(255, 16, &mut buf, 2);
    assert_eq!(start, 0);
    assert_eq!(&buf, b"FF.256123...");
}

#[test]
fn required_space_fits_every_value() {
    let mut buf = [0u8; 140];
    for base in 2u32..=36 {
        let signed = required_space(base as u128, i128::MIN.unsigned_abs(), true);
        let unsigned = required_space(base as u128, u128::MAX, false);
        for &raw in &sample(200) {
            assert!(numtoa_i128(raw as i128, base as i128, &mut buf).len() <= signed);
            assert!(numtoa_u128(raw, base as u128, &mut buf).len() <= unsigned);
        }
        assert_eq!(numtoa_i128(i128::MIN, base as i128, &mut buf).len(), signed);
        assert_eq!(numtoa_u128(u128::MAX, base as u128, &mut buf).len(), unsigned);
    }
}

#[test]
fn required_space_table() {
    assert_eq!(required_space(10, u8::MAX as u128, false), 3);
    assert_eq!(required_space(10, 128, true), 4);
    assert_eq!(required_space(10, u64::MAX as u128, false), 20);
    assert_eq!(required_space(10, i128::MIN.unsigned_abs(), true), 40);
    assert_eq!(required_space(36, u128::MAX, false), 25);
    assert_eq!(required_space(3, 0, true), 2);
}

#[test]
fn exact_scenarios() {
    assert_eq!(numtoa_i32(256123, 10, &mut [0u8; 20]), b"256123");
    assert_eq!(numtoa_i32(256123, 16, &mut [0u8; 20]), b"3E87B");
    assert_eq!(numtoa_i32(-256123, 16, &mut [0u8; 20]), b"-3E87B");
    assert_eq!(numtoa_u64(18446744073709551615, 10, &mut [0u8; 20]), b"18446744073709551615");
    assert_eq!(numtoa_u64(35, 36, &mut [0u8; 20]), b"Z");
    assert_eq!(numtoa_u64(36, 36, &mut [0u8; 20]), b"10");
    assert_eq!(numtoa_u8(5, 2, &mut [0u8; 8]), b"101");
}

#[test]
fn bytes_before_the_numeral_are_kept() {
    let mut buf = [b'#'; 10];
    let r = numtoa_i16(-42, 10, &mut buf);
    assert_eq!(r, b"-42");
    assert_eq!(&buf, b"#######-42");
    let r = numtoa_u32(7, 10, &mut buf);
    assert_eq!(r, b"7");
    assert_eq!(&buf, b"#######-47");
}

#[test]
fn buffer_of_exactly_the_required_space() {
    let mut buf = [0u8; 4];
    assert_eq!(numtoa_i8(-128, 10, &mut buf), b"-128");
    let mut buf = [0u8; 39];
    assert_eq!(numtoa_u128(9, 10, &mut buf), b"9");
    let mut buf = [0u8; 16];
    assert_eq!(numtoa_u64(0xFF, 16, &mut buf), b"FF");
    let mut buf = [0u8; 8];
    assert_eq!(numtoa_u8(255, 2, &mut buf), b"11111111");
}

#[test]
fn str_views_hold_the_numeral() {
    assert_eq!(numtoa_u8_str(255, 16, &mut [0u8; 2]), "FF");
    assert_eq!(numtoa_u64_str(1234567, 10, &mut [0u8; 20]), "1234567");
    assert_eq!((-35i8).numtoa_str(36, &mut [0u8; 4]), "-Z");
}

#[test]
fn ascii_number_views() {
    let a = BaseN::<16>::u16(0xBEEF);
    assert_eq!(a.as_slice(), b"BEEF");
    assert_eq!(a.as_str(), "BEEF");
    let (buffer, start) = a.into_inner();
    assert_eq!(start, 12);
    assert_eq!(&buffer[start..], b"BEEF");
    assert!(buffer[..start].iter().all(|&b| b == 0));
    let padded: AsciiNumber<10> = BaseN::<2>::u8_padded::<10>(5, b' ');
    assert_eq!(padded.as_slice(), b"       101");
    assert_eq!(padded.into_inner().1, 0);
}

#[test]
fn ascii_number_default_is_zero() {
    let zero = AsciiNumber::<5>::default();
    assert_eq!(zero.as_str(), "0");
    assert_eq!(zero.into_inner(), ([0, 0, 0, 0, b'0'], 4));
    assert!(AsciiNumber::<8>::default() == BaseN::<10>::u8(0));
    assert_eq!(AsciiNumber::<0>::default().as_slice(), b"");
}

#[test]
fn ascii_numbers_compare_by_numeral() {
    assert!(BaseN::<10>::i64(-5) == BaseN::<10>::i64(-5));
    assert!(BaseN::<10>::i64(-5) != BaseN::<10>::i64(5));
    assert!(BaseN::<10>::u8(12) != BaseN::<10>::u8(120));
    assert!(BaseN::<36>::u128(u128::MAX) == BaseN::<36>::u128(u128::MAX));
}

#[test]
fn checked_conversion_rejects_undersized_buffers() {
    assert_eq!(0u8.numtoa_checked(10, &mut [0u8; 2]), None);
    assert_eq!(0u8.numtoa_checked(10, &mut [0u8; 3]), Some(&b"0"[..]));
    assert_eq!(0i8.numtoa_checked(10, &mut [0u8; 3]), None);
    assert_eq!((-128i8).numtoa_checked(10, &mut [0u8; 4]), Some(&b"-128"[..]));
    assert_eq!(0i16.numtoa_checked(10, &mut [0u8; 5]), None);
    assert_eq!(0u16.numtoa_checked(10, &mut [0u8; 4]), None);
    assert_eq!(0i32.numtoa_checked(10, &mut [0u8; 10]), None);
    assert_eq!(0u32.numtoa_checked(10, &mut [0u8; 9]), None);
    assert_eq!(0i64.numtoa_checked(10, &mut [0u8; 19]), None);
    assert_eq!(0u64.numtoa_checked(10, &mut [0u8; 19]), None);
    assert_eq!(0i128.numtoa_checked(10, &mut [0u8; 39]), None);
    assert_eq!(0u128.numtoa_checked(10, &mut [0u8; 38]), None);
    assert_eq!(
        i128::MIN.numtoa_checked(10, &mut [0u8; 40]),
        Some(&b"-170141183460469231731687303715884105728"[..])
    );
    assert_eq!(u64::MAX.numtoa_checked(16, &mut [0u8; 16]), Some(&b"FFFFFFFFFFFFFFFF"[..]));
    assert_eq!(0u64.numtoa_checked(16, &mut [0u8; 15]), None);
    assert_eq!(0usize.numtoa_checked(2, &mut [0u8; 1]), None);
    assert_eq!(0isize.numtoa_checked(2, &mut [0u8; 1]), None);
}

#[test]
fn checked_conversion_rejects_bad_bases() {
    assert_eq!(50i32.numtoa_checked(1, &mut [0u8; 100]), None);
    assert_eq!(36i32.numtoa_checked(37, &mut [0u8; 100]), None);
    assert_eq!(5u8.numtoa_checked(0, &mut [0u8; 100]), None);
    assert_eq!(5i16.numtoa_checked(-10, &mut [0u8; 100]), None);
    assert_eq!(35u32.numtoa_checked(36, &mut [0u8; 100]), Some(&b"Z"[..]));
}

#[test]
fn checked_conversion_leaves_a_refused_buffer_alone() {
    let mut buf = [b'#'; 2];
    assert_eq!(7u8.numtoa_checked(10, &mut buf), None);
    assert_eq!(&buf, b"##");
}
