use felt_dict::{Felt, FeltOps, NewFelt, NewStr, ParseFeltError};
use num_bigint::BigInt;

#[test]
fn arithmetic_small_values() {
    assert_eq!(Felt::new(3).add(&Felt::new(4)), Felt::new(7));
    assert_eq!(Felt::new(3).mul(&Felt::new(4)), Felt::new(12));
    assert_eq!(Felt::new(4).sub(&Felt::new(3)), Felt::new(1));
    assert_eq!(Felt::new(10).div(&Felt::new(2)), Felt::new(5));
    assert_eq!(Felt::zero(), Felt::new(0));
    assert_eq!(Felt::one(), Felt::new(1));
}

#[test]
fn subtraction_wraps_into_field() {
    // 3 - 4 is the field's -1, which is new(-1) as well.
    assert_eq!(Felt::new(3).sub(&Felt::new(4)), Felt::new(-1));
    assert_eq!(Felt::new(-1).add(&Felt::one()), Felt::zero());
    assert_eq!(Felt::new(5).neg().add(&Felt::new(5)), Felt::zero());
    assert_eq!(Felt::zero().neg(), Felt::zero());
}

#[test]
fn zero_and_one_identities() {
    let a = Felt::new(987654321);
    assert_eq!(a.add(&Felt::zero()), a);
    assert_eq!(a.mul(&Felt::one()), a);
    assert_eq!(a.mul(&Felt::zero()), Felt::zero());
    assert!(Felt::zero().is_zero());
    assert!(!Felt::one().is_zero());
}

#[test]
fn ordering_of_representatives() {
    assert!(Felt::new(3).lt(&Felt::new(4)));
    assert!(!Felt::new(4).lt(&Felt::new(4)));
    assert!(Felt::new(4).le(&Felt::new(4)));
    // The field's -1 is the largest representative.
    assert!(Felt::new(4).lt(&Felt::new(-1)));
}

#[test]
fn mul_inverse_cancels() {
    for v in [1i128, 2, 7, 12345, 987654321987654321] {
        let a = Felt::new(v);
        assert_eq!(a.mul(&a.mul_inverse()), Felt::one());
    }
}

#[test]
fn sqrt_of_squares() {
    for v in [1i128, 2, 9, 10, 144, 987654321] {
        let a = Felt::new(v);
        let sq = a.mul(&a);
        let root = sq.sqrt().expect("a square has a square root");
        assert_eq!(root.mul(&root), sq);
    }
    assert_eq!(Felt::zero().sqrt(), Some(Felt::zero()));
}

#[test]
fn modpow_small_values() {
    // 2^10 mod 1000 = 24.
    assert_eq!(
        Felt::new(2).modpow(&Felt::new(10), &Felt::new(1000)),
        Felt::new(24)
    );
    // 5^0 mod 7 = 1.
    assert_eq!(Felt::new(5).modpow(&Felt::zero(), &Felt::new(7)), Felt::one());
}

#[test]
fn floor_division_pairs() {
    let (q, r) = Felt::new(7).div_mod_floor(&Felt::new(2));
    assert_eq!((q, r), (Felt::new(3), Felt::new(1)));
    let (q, r) = Felt::new(7).div_rem(&Felt::new(2));
    assert_eq!((q, r), (Felt::new(3), Felt::new(1)));
    assert_eq!(Felt::new(7).div_floor(&Felt::new(2)), Felt::new(3));
    assert_eq!(Felt::new(7).mod_floor(&Felt::new(2)), Felt::one());
}

#[test]
fn bytes_round_trip() {
    for v in [0i128, 1, 255, 256, 258, 987654321987654321, -1, -77] {
        let a = Felt::new(v);
        let bytes = a.to_bytes_be();
        assert_eq!(Felt::from_bytes_be(&bytes), a);
    }
    assert_eq!(Felt::new(258).to_bytes_be(), vec![1u8, 2u8]);
    assert_eq!(Felt::from_bytes_be(&[1u8, 0u8]), Felt::new(256));
    assert_eq!(Felt::zero().to_bytes_be(), vec![0u8]);
}

#[test]
fn string_round_trip() {
    for v in [0i128, 1, 255, 987654321987654321, -1] {
        let a = Felt::new(v);
        for radix in [2u32, 10, 16, 36] {
            let s = a.to_str_radix(radix);
            assert_eq!(Felt::parse_bytes(s.as_bytes(), radix), Some(a.clone()));
        }
    }
    assert_eq!(Felt::new(255).to_str_radix(16), "ff");
    assert_eq!(Felt::new(255).to_str_radix(10), "255");
}

#[test]
fn parse_bytes_accepts_and_rejects() {
    assert_eq!(Felt::parse_bytes(b"1234", 10), Some(Felt::new(1234)));
    assert_eq!(Felt::parse_bytes(b"ABCD", 16), Some(Felt::new(0xABCD)));
    assert_eq!(Felt::parse_bytes(b"+17", 10), Some(Felt::new(17)));
    assert_eq!(Felt::parse_bytes(b"1_000", 10), Some(Felt::new(1000)));
    assert_eq!(Felt::parse_bytes(b"G", 16), None);
    assert_eq!(Felt::parse_bytes(b"", 10), None);
    assert_eq!(Felt::parse_bytes(b"-5", 10), None);
    assert_eq!(Felt::parse_bytes(b"_5", 10), None);
}

#[test]
fn new_str_reads_numerals() {
    assert_eq!(Felt::new_str("255", 10), Felt::new(255));
    assert_eq!(Felt::new_str("ff", 16), Felt::new(255));
    assert_eq!(
        Felt::new_str("800000000000011000000000000000000000000000000000000000000000001", 16)
            .add(&Felt::one()),
        Felt::one()
    );
}

#[test]
fn new_str_checked_reports_errors() {
    assert_eq!(Felt::new_str_checked("255", 10), Ok(Felt::new(255)));
    assert_eq!(Felt::new_str_checked("xyz", 10), Err(ParseFeltError));
    assert_eq!(Felt::new_str_checked("", 10), Err(ParseFeltError));
}

#[test]
fn u64_digit_limbs() {
    assert_eq!(Felt::zero().iter_u64_digits(), Vec::<u64>::new());
    assert_eq!(Felt::new(7).iter_u64_digits(), vec![7u64]);
    let big = Felt::new(0x1_0000_0000_0000_0000i128);
    assert_eq!(big.iter_u64_digits(), vec![0u64, 1u64]);
}

#[test]
fn shifts_on_the_representative() {
    assert_eq!(Felt::new(3).shl(4), Felt::new(48));
    assert_eq!(Felt::new(48).shr(4), Felt::new(3));
    assert_eq!(Felt::new(7).shr(1), Felt::new(3));
    // A shift past the top wraps back into the field.
    assert_eq!(Felt::one().shl(252).is_zero(), false);
}

#[test]
fn bitwise_on_the_representative() {
    assert_eq!(Felt::new(0b1100).bitand(&Felt::new(0b1010)), Felt::new(0b1000));
    assert_eq!(Felt::new(0b1100).bitor(&Felt::new(0b1010)), Felt::new(0b1110));
    assert_eq!(Felt::new(0b1100).bitxor(&Felt::new(0b1010)), Felt::new(0b0110));
}

#[test]
fn pow_small_values() {
    assert_eq!(Felt::new(2).pow(10), Felt::new(1024));
    assert_eq!(Felt::new(7).pow(0), Felt::one());
    assert_eq!(Felt::new(-1).pow(2), Felt::one());
}

#[test]
fn bounds_and_signs() {
    assert_eq!(Felt::max_value().add(&Felt::one()), Felt::zero());
    assert_eq!(Felt::min_value(), Felt::zero());
    assert!(Felt::new(5).is_positive());
    assert!(!Felt::new(5).is_negative());
    assert!(Felt::new(-5).is_negative());
    assert!(!Felt::zero().is_positive());
    assert!(!Felt::zero().is_negative());
}

#[test]
fn signed_bytes_of_small_values() {
    assert_eq!(Felt::new(1).to_signed_bytes_le(), vec![1u8]);
    // The field's -1 is two's-complement 0xff in one byte.
    assert_eq!(Felt::new(-1).to_signed_bytes_le(), vec![0xffu8]);
    assert_eq!(Felt::new(-2).to_signed_bytes_le(), vec![0xfeu8]);
    assert_eq!(Felt::new(300).to_signed_bytes_le(), vec![0x2cu8, 0x01u8]);
}

#[test]
fn bigint_conversions() {
    assert_eq!(Felt::new(42).to_bigint(), BigInt::from(42));
    assert_eq!(Felt::new(-42).to_bigint(), BigInt::from(-42));
    assert_eq!(Felt::new(42).to_bigint_unsigned(), BigInt::from(42));
    // The unsigned representative of -1 is the field order less one.
    let p = BigInt::parse_bytes(
        b"800000000000011000000000000000000000000000000000000000000000001",
        16,
    )
    .unwrap();
    assert_eq!(Felt::new(-1).to_bigint_unsigned(), p - 1);
}

#[test]
fn summation() {
    let values = vec![Felt::new(1), Felt::new(2), Felt::new(3)];
    assert_eq!(Felt::sum(&values), Felt::new(6));
    assert_eq!(Felt::sum(&Vec::new()), Felt::zero());
    let wrap = vec![Felt::max_value(), Felt::new(2)];
    assert_eq!(Felt::sum(&wrap), Felt::one());
}

#[test]
fn primitive_conversion_round_trip() {
    // The canonical representative parses back from decimal for a spread of
    // primitive values, negatives included.
    for v in [0i128, 1, 2, 65535, -1, -65536, i128::MAX, i128::MIN] {
        let a = Felt::new(v);
        let s = a.to_str_radix(10);
        assert_eq!(Felt::new_str(&s, 10), a);
        let bytes = a.to_bytes_be();
        assert_eq!(Felt::from_bytes_be(&bytes), a);
    }
}
