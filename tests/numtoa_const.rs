use numtoa::ascii_number::BaseN;

#[test]
fn str_convenience_base2() {
    assert_eq!("111110100001111011", BaseN::<2>::i32(256123).as_str());
}

#[test]
fn str_convenience_base8() {
    assert_eq!("764173", BaseN::<8>::i32(256123).as_str());
}

#[test]
fn str_convenience_base10() {
    assert_eq!("256123", BaseN::<10>::i32(256123).as_str());
}

#[test]
fn str_convenience_base10_padded() {
    assert_eq!(
        "00000000000000256123",
        BaseN::<10>::i32_padded::<20>(256123, b'0').as_str()
    );
}

#[test]
fn str_convenience_base16() {
    assert_eq!("3E87B", BaseN::<16>::i32(256123).as_str());
}

#[test]
fn str_convenience_base16_padded() {
    assert_eq!(
        "0000000000000003E87B",
        BaseN::<16>::i32_padded::<20>(256123, b'0').as_str()
    );
}

#[test]
fn str_convenience_wacky_padding() {
    assert_eq!(
        "##############-3E87B",
        BaseN::<16>::i32_padded::<20>(-256123, b'#').as_str()
    );
    assert_eq!(
        "@@@@@@@@@@@-111",
        BaseN::<10>::i8_padded::<15>(-111, b'@').as_str()
    );
}

#[test]
fn base10_i8_all_base10() {
    for i in i8::MIN..i8::MAX {
        let _ = BaseN::<10>::i8(i);
    }
}

#[test]
fn base16_i8_all_base16() {
    for i in i8::MIN..i8::MAX {
        let _ = BaseN::<16>::i8(i);
    }
}

#[test]
fn base10_u8_all_base10() {
    for i in u8::MIN..u8::MAX {
        let _ = BaseN::<10>::u8(i);
    }
}

#[test]
fn base16_u8_all_base16() {
    for i in u8::MIN..u8::MAX {
        let _ = BaseN::<16>::u8(i);
    }
}
