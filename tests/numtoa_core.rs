use numtoa::encode::{
    numtoa_i32, numtoa_i32_str, numtoa_i8, numtoa_i8_str, numtoa_u8, numtoa_u8_str,
    required_space,
};

fn verify_required_sizes_for_base(
    base: u128,
    expected_space_u8: usize,
    expected_space_u16: usize,
    expected_space_u32: usize,
    expected_space_u64: usize,
    expected_space_u128: usize,
    expected_space_i8: usize,
    expected_space_i16: usize,
    expected_space_i32: usize,
    expected_space_i64: usize,
    expected_space_i128: usize,
) {
    assert_eq!(expected_space_u8, required_space(base, u8::MAX as u128, false));
    assert_eq!(expected_space_u16, required_space(base, u16::MAX as u128, false));
    assert_eq!(expected_space_u32, required_space(base, u32::MAX as u128, false));
    assert_eq!(expected_space_u64, required_space(base, u64::MAX as u128, false));
    assert_eq!(expected_space_u128, required_space(base, u128::MAX as u128, false));
    assert_eq!(expected_space_i8, required_space(base, i8::MIN.unsigned_abs() as u128, true));
    assert_eq!(expected_space_i16, required_space(base, i16::MIN.unsigned_abs() as u128, true));
    assert_eq!(expected_space_i32, required_space(base, i32::MIN.unsigned_abs() as u128, true));
    assert_eq!(expected_space_i64, required_space(base, i64::MIN.unsigned_abs() as u128, true));
    assert_eq!(expected_space_i128, required_space(base, i128::MIN.unsigned_abs() as u128, true));
}

#[test]
fn sanity_check_required_size() {
    // test zero
    assert_eq!(1, required_space(2, 0, false));
    // test positive one
    assert_eq!(1, required_space(2, 1, false));
    // test negative one
    assert_eq!(2, required_space(2, 1, true));

    verify_required_sizes_for_base(2, 8, 16, 32, 64, 128, 9, 17, 33, 65, 129);

    verify_required_sizes_for_base(
        8,
        3,  // 377
        6,  // 177777
        11, // 37777777777
        22, // 1777777777777777777777
        43, // 3777777777777777777777777777777777777777777
        4,  // -200
        7,  // -100000
        12, // -20000000000
        23, // -1000000000000000000000
        44, // -2000000000000000000000000000000000000000000
    );

    verify_required_sizes_for_base(
        10,
        3,  // 255
        5,  // 65535
        10, // 4294967295
        20, // 18446744073709551615
        39, // 340282366920938463463374607431768211455
        4,  // -128
        6,  // -32768
        11, // -2147483648
        20, // -9223372036854775808
        40, // -170141183460469231731687303715884105728
    );

    verify_required_sizes_for_base(16, 2, 4, 8, 16, 32, 3, 5, 9, 17, 33);
}

#[test]
fn sanity() {
    assert_eq!(b"256123", numtoa_i32(256123_i32, 10, &mut [0u8; 20]));
}

#[test]
#[should_panic]
fn base_too_low() {
    numtoa_i32(50, 1, &mut [0u8; 100]);
}

#[test]
#[should_panic]
fn base_too_high() {
    numtoa_i32(36, 37, &mut [0u8; 100]);
}

#[test]
fn str_convenience_core() {
    assert_eq!("256123", numtoa_i32_str(256123_i32, 10, &mut [0u8; 20]));
}

#[test]
fn str_convenience_core_u8() {
    assert_eq!("42", numtoa_u8_str(42u8, 10, &mut [b'X'; 20]));
}

#[test]
fn str_convenience_core_i8() {
    assert_eq!("42", numtoa_i8_str(42i8, 10, &mut [b'X'; 20]));
}

#[test]
fn base10_u8_array_just_right_core() {
    let _ = numtoa_u8(0, 10, &mut [0u8; 3]);
}

#[test]
fn base16_i8_all_core() {
    for i in i8::MIN..i8::MAX {
        let _ = numtoa_i8(i, 16, &mut [0u8; 3]);
    }
}

#[test]
fn base10_u8_all_core() {
    for i in u8::MIN..u8::MAX {
        let _ = numtoa_u8(i, 10, &mut [0u8; 3]);
    }
}

#[test]
fn base16_u8_all_core() {
    for i in u8::MIN..u8::MAX {
        let _ = numtoa_u8(i, 16, &mut [0u8; 3]);
    }
}
