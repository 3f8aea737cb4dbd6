use clam::boolean::Boolean;
use clam::number::{DecodeError, Number};

#[test]
fn u32_max_encodes_to_four_ff_bytes() {
    let bytes = 4294967295u32.to_bytes();
    assert_eq!(bytes, vec![0xFF, 0xFF, 0xFF, 0xFF]);
    assert_eq!(u32::from_bytes(&bytes), 4294967295u32);
}

#[test]
fn encodings_are_big_endian() {
    assert_eq!(0x0102u16.to_bytes(), vec![0x01, 0x02]);
    assert_eq!(0x0A0B0C0Du32.to_bytes(), vec![0x0A, 0x0B, 0x0C, 0x0D]);
    assert_eq!(
        0x0102030405060708u64.to_bytes(),
        vec![1, 2, 3, 4, 5, 6, 7, 8]
    );
    assert_eq!(200u8.to_bytes(), vec![200]);
    assert_eq!(u16::from_bytes(&[0x12, 0x34]), 0x1234);
}

#[test]
fn signed_values_encode_twos_complement() {
    assert_eq!((-1i8).to_bytes(), vec![0xFF]);
    assert_eq!((-1i16).to_bytes(), vec![0xFF, 0xFF]);
    assert_eq!((-2i32).to_bytes(), vec![0xFF, 0xFF, 0xFF, 0xFE]);
    assert_eq!(
        i64::MIN.to_bytes(),
        vec![0x80, 0, 0, 0, 0, 0, 0, 0]
    );
    assert_eq!(i32::from_bytes(&[0xFF, 0xFF, 0xFF, 0xFE]), -2);
    assert_eq!(i8::from_bytes(&[0x80]), -128);
}

#[test]
fn num_bytes_is_native_width() {
    assert_eq!(u8::num_bytes(), 1);
    assert_eq!(i8::num_bytes(), 1);
    assert_eq!(u16::num_bytes(), 2);
    assert_eq!(i16::num_bytes(), 2);
    assert_eq!(u32::num_bytes(), 4);
    assert_eq!(i32::num_bytes(), 4);
    assert_eq!(u64::num_bytes(), 8);
    assert_eq!(i64::num_bytes(), 8);
    assert_eq!(bool::num_bytes(), 1);
    assert_eq!(u32::num_bytes() as usize, std::mem::size_of::<u32>());
    assert_eq!(i64::num_bytes() as usize, std::mem::size_of::<i64>());
}

#[test]
fn round_trip_at_the_edges_of_each_type() {
    for v in [0u8, 1, 127, 255] {
        assert_eq!(u8::from_bytes(&v.to_bytes()), v);
    }
    for v in [i8::MIN, -1, 0, 1, i8::MAX] {
        assert_eq!(i8::from_bytes(&v.to_bytes()), v);
    }
    for v in [0u16, 1, 256, u16::MAX] {
        assert_eq!(u16::from_bytes(&v.to_bytes()), v);
    }
    for v in [i16::MIN, -300, 0, 300, i16::MAX] {
        assert_eq!(i16::from_bytes(&v.to_bytes()), v);
    }
    for v in [0u32, 1, 65536, u32::MAX] {
        assert_eq!(u32::from_bytes(&v.to_bytes()), v);
    }
    for v in [i32::MIN, -70000, 0, 70000, i32::MAX] {
        assert_eq!(i32::from_bytes(&v.to_bytes()), v);
    }
    for v in [0u64, 1, 1 << 40, u64::MAX] {
        assert_eq!(u64::from_bytes(&v.to_bytes()), v);
    }
    for v in [i64::MIN, -(1 << 50), 0, 1 << 50, i64::MAX] {
        assert_eq!(i64::from_bytes(&v.to_bytes()), v);
    }
    for v in [false, true] {
        assert_eq!(bool::from_bytes(&v.to_bytes()), v);
    }
}

#[test]
fn decoding_reads_only_the_leading_bytes() {
    assert_eq!(u16::from_bytes(&[0x00, 0x05, 0xAA, 0xBB]), 5);
    assert_eq!(i8::from_bytes(&[0xFE, 0x01]), -2);
    assert_eq!(u32::try_from_bytes(&[0, 0, 1, 0, 9]), Ok(256));
}

#[test]
fn boolean_encoding() {
    assert_eq!(true.to_bytes(), vec![1]);
    assert_eq!(false.to_bytes(), vec![0]);
    assert!(bool::from_bytes(&[1]));
    assert!(!bool::from_bytes(&[0]));
    assert_eq!(bool::try_from_bytes(&[1]), Ok(true));
    assert_eq!(bool::try_from_bytes(&[0]), Ok(false));
}

#[test]
fn boolean_flag_byte_two_is_invalid() {
    assert_eq!(bool::try_from_bytes(&[2]), Err(DecodeError::InvalidEncoding));
    assert_eq!(bool::try_from_bytes(&[255]), Err(DecodeError::InvalidEncoding));
}

#[test]
fn short_input_is_too_short() {
    assert_eq!(bool::try_from_bytes(&[]), Err(DecodeError::TooShort));
    assert_eq!(u32::try_from_bytes(&[1, 2, 3]), Err(DecodeError::TooShort));
    assert_eq!(i64::try_from_bytes(&[0; 7]), Err(DecodeError::TooShort));
    assert_eq!(u8::try_from_bytes(&[]), Err(DecodeError::TooShort));
}

#[test]
fn try_from_bytes_matches_from_bytes() {
    assert_eq!(i16::try_from_bytes(&[0xFF, 0x38]), Ok(-200));
    assert_eq!(i16::from_bytes(&[0xFF, 0x38]), -200);
    assert_eq!(u64::try_from_bytes(&u64::MAX.to_bytes()), Ok(u64::MAX));
}

#[test]
fn as_bool_gives_the_truth_value() {
    assert!(true.as_bool());
    assert!(!false.as_bool());
}

#[test]
fn reencoding_decoded_bytes_gives_them_back() {
    let b = vec![0x9Cu8, 0x00, 0x7F, 0x01];
    assert_eq!(i32::from_bytes(&b).to_bytes(), b);
    assert_eq!(u32::from_bytes(&b).to_bytes(), b);
    let w = vec![0x80u8, 0x01];
    assert_eq!(i16::from_bytes(&w).to_bytes(), w);
    assert_eq!(bool::from_bytes(&[1]).to_bytes(), vec![1]);
}
