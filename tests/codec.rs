use bigdecimal::BigDecimal;
use borsh_bignum::decimal::Decimal;
use borsh_bignum::error::DecodeError;
use borsh_bignum::magnitude::Magnitude;
use borsh_bignum::sign::Sign;
use borsh_bignum::signed::SignedInteger;
use borsh_bignum::zigzag::{zig_zag_decode_i64, zig_zag_encode_i64};
use num_bigint::{BigInt, BigUint};

fn magnitude_bytes(digits: Vec<u8>) -> Vec<u8> {
    let mut out = Vec::new();
    Magnitude { digits }.serialize(&mut out);
    out
}

fn signed_bytes(sign: Sign, digits: Vec<u8>) -> Vec<u8> {
    let mut out = Vec::new();
    SignedInteger { sign, magnitude: Magnitude { digits } }.serialize(&mut out);
    out
}

fn decimal_bytes(sign: Sign, digits: Vec<u8>, exponent: i64) -> Vec<u8> {
    let mut out = Vec::new();
    Decimal { unscaled: SignedInteger { sign, magnitude: Magnitude { digits } }, exponent }
        .serialize(&mut out);
    out
}

#[test]
fn zigzag_exact_values() {
    assert_eq!(zig_zag_encode_i64(0), 0);
    assert_eq!(zig_zag_encode_i64(-1), 1);
    assert_eq!(zig_zag_encode_i64(1), 2);
    assert_eq!(zig_zag_encode_i64(-2), 3);
    assert_eq!(zig_zag_encode_i64(i64::MAX), u64::MAX - 1);
    assert_eq!(zig_zag_encode_i64(i64::MIN), u64::MAX);
    assert_eq!(zig_zag_decode_i64(3), -2);
    assert_eq!(zig_zag_decode_i64(u64::MAX), i64::MIN);
}

#[test]
fn zigzag_round_trip_range() {
    let mut values: Vec<i64> = (-1000..=1000).collect();
    values.extend_from_slice(&[i64::MIN, i64::MIN + 1, i64::MAX, i64::MAX - 1, 1 << 40, -(1 << 40)]);
    for v in values {
        assert_eq!(zig_zag_decode_i64(zig_zag_encode_i64(v)), v);
    }
    for u in [0u64, 1, 2, 12345, u64::MAX, u64::MAX - 1] {
        assert_eq!(zig_zag_encode_i64(zig_zag_decode_i64(u)), u);
    }
}

#[test]
fn zigzag_exponent_length_grows_with_magnitude() {
    let exponent_len = |v: i64| decimal_bytes(Sign::Zero, vec![], v).len() - 1;
    let magnitudes: [i64; 9] = [0, 1, 63, 64, 8191, 8192, 1 << 40, i64::MAX - 1, i64::MAX];
    let mut longest_so_far = 0usize;
    for m in magnitudes {
        let shortest = exponent_len(m).min(exponent_len(-m));
        assert!(shortest >= longest_so_far);
        longest_so_far = exponent_len(m).max(exponent_len(-m));
    }
    assert_eq!(exponent_len(0), 1);
    assert_eq!(exponent_len(i64::MIN), 10);
    assert_eq!(decimal_bytes(Sign::Zero, vec![], 63), vec![1, 126]);
    assert_eq!(decimal_bytes(Sign::Zero, vec![], 64), vec![1, 0x80, 0x01]);
    assert_eq!(decimal_bytes(Sign::Zero, vec![], -64), vec![1, 127]);
}

#[test]
fn sign_bytes() {
    let mut out = Vec::new();
    Sign::Negative.serialize(&mut out);
    Sign::Zero.serialize(&mut out);
    Sign::Positive.serialize(&mut out);
    assert_eq!(out, vec![0, 1, 2]);
    let (s, rest) = Sign::deserialize(&[2, 9]).unwrap();
    assert_eq!(s, Sign::Positive);
    assert_eq!(rest, &[9]);
    assert_eq!(Sign::deserialize(&[]).unwrap_err(), DecodeError::UnexpectedEof);
}

#[test]
fn sign_byte_three_rejected() {
    assert_eq!(Sign::deserialize(&[3]).unwrap_err(), DecodeError::InvalidSignByte);
    assert_eq!(SignedInteger::deserialize(&[3, 1, 5]).unwrap_err(), DecodeError::InvalidSignByte);
    assert_eq!(Decimal::deserialize(&[3, 0]).unwrap_err(), DecodeError::InvalidSignByte);
    assert_eq!(Sign::deserialize(&[255]).unwrap_err(), DecodeError::InvalidSignByte);
}

#[test]
fn magnitude_zero_is_one_byte() {
    assert_eq!(magnitude_bytes(vec![]), vec![0x00]);
    assert_eq!(magnitude_bytes(vec![0, 0, 0]), vec![0x00]);
    let (m, rest) = Magnitude::deserialize(&[0x00]).unwrap();
    assert!(m.digits.is_empty());
    assert!(rest.is_empty());
}

#[test]
fn magnitude_five_and_padded_five() {
    assert_eq!(magnitude_bytes(vec![5]), vec![0x01, 0x05]);
    assert_eq!(magnitude_bytes(vec![5, 0, 0]), vec![0x01, 0x05]);
    assert_eq!(
        Magnitude::deserialize(&[0x02, 0x05, 0x00]).unwrap_err(),
        DecodeError::NonCanonicalEncoding
    );
    let (m, rest) = Magnitude::deserialize(&[0x01, 0x05]).unwrap();
    assert_eq!(m.digits, vec![5]);
    assert!(rest.is_empty());
}

#[test]
fn magnitude_long_length_prefix() {
    let mut digits = vec![7u8; 300];
    digits.push(0);
    let bytes = magnitude_bytes(digits);
    assert_eq!(&bytes[..2], &[0xac, 0x02]);
    assert_eq!(bytes.len(), 302);
    let (m, rest) = Magnitude::deserialize(&bytes).unwrap();
    assert_eq!(m.digits, vec![7u8; 300]);
    assert!(rest.is_empty());
}

#[test]
fn magnitude_decode_errors() {
    assert_eq!(Magnitude::deserialize(&[]).unwrap_err(), DecodeError::UnexpectedEof);
    assert_eq!(Magnitude::deserialize(&[0x80]).unwrap_err(), DecodeError::UnexpectedEof);
    assert_eq!(Magnitude::deserialize(&[0x03, 1, 2]).unwrap_err(), DecodeError::UnexpectedEof);
    assert_eq!(Magnitude::deserialize(&[0x81, 0x00, 5]).unwrap_err(), DecodeError::InvalidVarint);
    assert_eq!(
        Magnitude::deserialize(&[0xff, 0xff, 0xff, 0xff, 0xff, 0x01]).unwrap_err(),
        DecodeError::InvalidVarint
    );
}

#[test]
fn magnitude_leaves_following_bytes() {
    let (m, rest) = Magnitude::deserialize(&[0x02, 0x01, 0x02, 0x09, 0x08]).unwrap();
    assert_eq!(m.digits, vec![1, 2]);
    assert_eq!(rest, &[9, 8]);
}

#[test]
fn magnitude_from_big_uint() {
    assert_eq!(magnitude_bytes(BigUint::from(0u32).to_bytes_le()), vec![0x00]);
    assert_eq!(magnitude_bytes(BigUint::from(5u32).to_bytes_le()), vec![0x01, 0x05]);
    let big = BigUint::from(1u32) << 64usize;
    let bytes = magnitude_bytes(big.to_bytes_le());
    assert_eq!(bytes, vec![9, 0, 0, 0, 0, 0, 0, 0, 0, 1]);
    let (m, _) = Magnitude::deserialize(&bytes).unwrap();
    assert_eq!(BigUint::from_bytes_le(&m.digits), big);
}

#[test]
fn magnitude_round_trip() {
    for digits in [vec![], vec![1], vec![0, 1], vec![255, 255, 255], vec![3, 0, 0, 9]] {
        let bytes = magnitude_bytes(digits.clone());
        let (m, rest) = Magnitude::deserialize(&bytes).unwrap();
        assert_eq!(m.digits, digits);
        assert!(rest.is_empty());
    }
}

#[test]
fn signed_minus_five() {
    assert_eq!(signed_bytes(Sign::Negative, vec![5]), vec![0x00, 0x01, 0x05]);
    assert_eq!(signed_bytes(Sign::Positive, vec![5]), vec![0x02, 0x01, 0x05]);
    assert_eq!(signed_bytes(Sign::Zero, vec![]), vec![0x01]);
    let (v, rest) = SignedInteger::deserialize(&[0x00, 0x01, 0x05]).unwrap();
    assert_eq!(v.sign, Sign::Negative);
    assert_eq!(v.magnitude.digits, vec![5]);
    assert!(rest.is_empty());
}

#[test]
fn signed_zero_consumes_one_byte() {
    let (v, rest) = SignedInteger::deserialize(&[0x01]).unwrap();
    assert_eq!(v.sign, Sign::Zero);
    assert!(v.magnitude.digits.is_empty());
    assert!(rest.is_empty());
    let (v, rest) = SignedInteger::deserialize(&[0x01, 0x01, 0x05]).unwrap();
    assert_eq!(v.sign, Sign::Zero);
    assert!(v.magnitude.digits.is_empty());
    assert_eq!(rest, &[0x01, 0x05]);
}

#[test]
fn signed_nonzero_sign_with_empty_magnitude() {
    assert_eq!(
        SignedInteger::deserialize(&[0x02, 0x00]).unwrap_err(),
        DecodeError::NonCanonicalEncoding
    );
    assert_eq!(
        SignedInteger::deserialize(&[0x00, 0x00, 0x07]).unwrap_err(),
        DecodeError::NonCanonicalEncoding
    );
}

#[test]
fn signed_truncated_after_sign() {
    assert_eq!(SignedInteger::deserialize(&[0x02]).unwrap_err(), DecodeError::UnexpectedEof);
    assert_eq!(SignedInteger::deserialize(&[]).unwrap_err(), DecodeError::UnexpectedEof);
    assert_eq!(
        SignedInteger::deserialize(&[0x02, 0x02, 0x05, 0x00]).unwrap_err(),
        DecodeError::NonCanonicalEncoding
    );
}

#[test]
fn signed_from_big_int() {
    let value = BigInt::from(-300i32);
    let (sign, digits) = value.to_bytes_le();
    assert_eq!(sign, num_bigint::Sign::Minus);
    let bytes = signed_bytes(Sign::Negative, digits);
    assert_eq!(bytes, vec![0x00, 0x02, 0x2c, 0x01]);
    let (v, _) = SignedInteger::deserialize(&bytes).unwrap();
    assert_eq!(BigInt::from_bytes_le(num_bigint::Sign::Minus, &v.magnitude.digits), value);
}

#[test]
fn decimal_bytes_and_round_trip() {
    assert_eq!(decimal_bytes(Sign::Negative, vec![5], 2), vec![0x00, 0x01, 0x05, 0x04]);
    assert_eq!(decimal_bytes(Sign::Positive, vec![5], -1), vec![0x02, 0x01, 0x05, 0x01]);
    assert_eq!(decimal_bytes(Sign::Zero, vec![], 0), vec![0x01, 0x00]);
    for exponent in [0i64, 1, -1, 64, -65, i64::MAX, i64::MIN] {
        let bytes = decimal_bytes(Sign::Positive, vec![1, 2, 3], exponent);
        let (d, rest) = Decimal::deserialize(&bytes).unwrap();
        assert_eq!(d.unscaled.sign, Sign::Positive);
        assert_eq!(d.unscaled.magnitude.digits, vec![1, 2, 3]);
        assert_eq!(d.exponent, exponent);
        assert!(rest.is_empty());
    }
}

#[test]
fn decimal_decode_errors() {
    assert_eq!(Decimal::deserialize(&[0x01]).unwrap_err(), DecodeError::UnexpectedEof);
    assert_eq!(Decimal::deserialize(&[0x01, 0x80, 0x00]).unwrap_err(), DecodeError::InvalidVarint);
    assert_eq!(Decimal::deserialize(&[0x02, 0x00, 0x00]).unwrap_err(), DecodeError::NonCanonicalEncoding);
    let eleven = [0xffu8; 11];
    let mut buf = vec![0x01];
    buf.extend_from_slice(&eleven);
    assert_eq!(Decimal::deserialize(&buf).unwrap_err(), DecodeError::InvalidVarint);
}

#[test]
fn decimal_from_big_decimal() {
    let value = BigDecimal::new(BigInt::from(-5i32), 2);
    let (unscaled, exponent) = value.as_bigint_and_exponent();
    let (_, digits) = unscaled.to_bytes_le();
    assert_eq!(decimal_bytes(Sign::Negative, digits, exponent), vec![0x00, 0x01, 0x05, 0x04]);
}

#[test]
fn magnitude_wrapped_zero_length_rejected() {
    assert_eq!(
        Magnitude::deserialize(&[0x80, 0x80, 0x80, 0x80, 0x10]).unwrap_err(),
        DecodeError::InvalidVarint
    );
}

#[test]
fn magnitude_length_above_u32_rejected() {
    assert_eq!(
        Magnitude::deserialize(&[0xff, 0xff, 0xff, 0xff, 0x7f]).unwrap_err(),
        DecodeError::InvalidVarint
    );
    assert_eq!(
        Magnitude::deserialize(&[0xff, 0xff, 0xff, 0xff, 0x0f]).unwrap_err(),
        DecodeError::UnexpectedEof
    );
}

#[test]
fn signed_wrapped_length_rejected() {
    assert_eq!(
        SignedInteger::deserialize(&[0x02, 0x81, 0x80, 0x80, 0x80, 0x10, 0x05]).unwrap_err(),
        DecodeError::InvalidVarint
    );
    let (v, rest) = SignedInteger::deserialize(&[0x02, 0x01, 0x05]).unwrap();
    assert_eq!(v.sign, Sign::Positive);
    assert_eq!(v.magnitude.digits, vec![5]);
    assert!(rest.is_empty());
}

#[test]
fn decimal_wrapped_exponent_rejected() {
    let mut wrapped_zero = vec![0x01];
    wrapped_zero.extend_from_slice(&[0x80; 9]);
    wrapped_zero.push(0x02);
    assert_eq!(Decimal::deserialize(&wrapped_zero).unwrap_err(), DecodeError::InvalidVarint);
    let mut above_u64 = vec![0x01];
    above_u64.extend_from_slice(&[0xff; 9]);
    above_u64.push(0x7f);
    assert_eq!(Decimal::deserialize(&above_u64).unwrap_err(), DecodeError::InvalidVarint);
    let mut largest = vec![0x01];
    largest.extend_from_slice(&[0xff; 9]);
    largest.push(0x01);
    let (d, rest) = Decimal::deserialize(&largest).unwrap();
    assert_eq!(d.exponent, i64::MIN);
    assert!(rest.is_empty());
    assert_eq!(decimal_bytes(Sign::Zero, vec![], i64::MIN), largest);
}
