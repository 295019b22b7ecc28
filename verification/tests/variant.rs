use genet::error::ErrorKind;
use genet::variant::{BigInt, Variant};

fn big(negative: bool, magnitude: &[u8]) -> Variant {
    Variant::BigInt(BigInt::new(negative, magnitude.to_vec()))
}

#[test]
fn a_big_integer_has_no_zeros_in_front() {
    let b = BigInt::new(false, vec![0, 0, 1, 0]);
    assert_eq!(b.magnitude(), &[1, 0]);
    assert!(!b.is_negative());
    let zero = BigInt::new(true, vec![0, 0]);
    assert!(zero.magnitude().is_empty());
    assert!(!zero.is_negative());
    assert_eq!(zero, BigInt::new(false, Vec::new()));
    assert_eq!(b.clone(), BigInt::new(false, vec![1, 0]));
    assert!(BigInt::new(true, vec![0, 7]).is_negative());
}

#[test]
fn big_integers_as_numbers_of_64_bits() {
    assert_eq!(BigInt::new(false, vec![]).to_u64(), Some(0));
    assert_eq!(BigInt::new(false, vec![1, 0]).to_u64(), Some(256));
    assert_eq!(BigInt::new(false, vec![0xff; 8]).to_u64(), Some(u64::MAX));
    assert_eq!(
        BigInt::new(false, vec![0, 0, 0xff, 0xff, 0xff, 0xff, 0xff, 0xff, 0xff, 0xff]).to_u64(),
        Some(u64::MAX)
    );
    assert_eq!(
        BigInt::new(false, vec![1, 0, 0, 0, 0, 0, 0, 0, 0]).to_u64(),
        None
    );
    assert_eq!(BigInt::new(true, vec![1]).to_u64(), None);

    assert_eq!(BigInt::new(true, vec![1]).to_i64(), Some(-1));
    assert_eq!(BigInt::new(true, vec![1, 0]).to_i64(), Some(-256));
    assert_eq!(
        BigInt::new(true, vec![0x80, 0, 0, 0, 0, 0, 0, 0]).to_i64(),
        Some(i64::MIN)
    );
    assert_eq!(
        BigInt::new(true, vec![0x80, 0, 0, 0, 0, 0, 0, 1]).to_i64(),
        None
    );
    assert_eq!(
        BigInt::new(false, vec![0x7f, 0xff, 0xff, 0xff, 0xff, 0xff, 0xff, 0xff]).to_i64(),
        Some(i64::MAX)
    );
    assert_eq!(
        BigInt::new(false, vec![0x80, 0, 0, 0, 0, 0, 0, 0]).to_i64(),
        None
    );
    assert_eq!(
        BigInt::new(false, vec![0x80, 0, 0, 0, 0, 0, 0, 0]).magnitude_u64(),
        Some(1 << 63)
    );
    assert_eq!(BigInt::new(true, vec![1; 9]).magnitude_u64(), None);
}

#[test]
fn a_big_integer_shrinks_to_the_smallest_form() {
    assert_eq!(big(false, &[]).shrink(), Variant::UInt64(0));
    assert_eq!(big(true, &[0]).shrink(), Variant::UInt64(0));
    assert_eq!(big(false, &[100]).shrink(), Variant::UInt64(100));
    assert_eq!(big(false, &[0xff; 8]).shrink(), Variant::UInt64(u64::MAX));
    assert_eq!(big(true, &[100]).shrink(), Variant::Int64(-100));
    assert_eq!(
        big(true, &[0x80, 0, 0, 0, 0, 0, 0, 0]).shrink(),
        Variant::Int64(i64::MIN)
    );
    assert_eq!(
        big(true, &[0x80, 0, 0, 0, 0, 0, 0, 1]).shrink(),
        big(true, &[0x80, 0, 0, 0, 0, 0, 0, 1])
    );
    assert_eq!(
        big(false, &[1, 0, 0, 0, 0, 0, 0, 0, 0]).shrink(),
        big(false, &[0, 1, 0, 0, 0, 0, 0, 0, 0, 0])
    );
}

#[test]
fn other_values_do_not_shrink() {
    assert_eq!(Variant::Nil.shrink(), Variant::Nil);
    assert_eq!(Variant::Bool(true).shrink(), Variant::Bool(true));
    assert_eq!(Variant::Int64(5).shrink(), Variant::Int64(5));
    assert_eq!(Variant::UInt64(5).shrink(), Variant::UInt64(5));
    assert_eq!(Variant::Float64(5).shrink(), Variant::Float64(5));
}

#[test]
fn big_integers_convert() {
    assert_eq!(big(false, &[1, 2]).to_u64().unwrap(), 258);
    assert_eq!(big(true, &[1, 2]).to_i64().unwrap(), -258);
    assert_eq!(
        big(true, &[1, 2]).to_u64().unwrap_err().kind(),
        ErrorKind::Cast
    );
    assert_eq!(
        big(false, &[1; 9]).to_i64().unwrap_err().kind(),
        ErrorKind::Cast
    );
}
