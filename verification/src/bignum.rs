//! Trusted boundary around the arbitrary-precision unsigned integers of the
//! `num_bigint` crate. Every item here either declares the outside type, names
//! what it holds, or wraps one call of the outside crate behind a contract;
//! all field arithmetic in `felt` is verified against these contracts.

use vstd::prelude::*;
use vstd::arithmetic::power::pow;
use vstd::arithmetic::power2::pow2;
use num_bigint::BigUint;
use crate::felt::prime;

verus! {

#[verifier::external_type_specification]
#[verifier::external_body]
pub struct ExBigUint(BigUint);

/// The sequence of 64-bit digits, least significant first and without
/// trailing zeros, that a `BigUint` holds (what `to_u64_digits` reports).
pub uninterp spec fn digits_of(b: BigUint) -> Seq<u64>;

/// The number a little-endian sequence of 64-bit digits denotes.
pub open spec fn nat_of(s: Seq<u64>) -> nat
    decreases s.len(),
{
    if s.len() == 0 {
        0
    } else {
        (s[0] + nat_of(s.skip(1)) * 0x10000000000000000) as nat
    }
}

/// The number a `BigUint` denotes.
pub open spec fn big_val(b: &BigUint) -> nat {
    nat_of(digits_of(*b))
}

/// The value of a big-endian byte string.
pub open spec fn be_nat(s: Seq<u8>) -> nat
    decreases s.len(),
{
    if s.len() == 0 {
        0
    } else {
        (be_nat(s.drop_last()) * 256 + s.last()) as nat
    }
}

/// The numeric value of one numeral character (given as its code point):
/// `0-9`, `a-z` and `A-Z` count as digits, anything else is `-1`.
pub open spec fn digit_value(c: int) -> int {
    if 48 <= c <= 57 {
        c - 48
    } else if 97 <= c <= 122 {
        c - 87
    } else if 65 <= c <= 90 {
        c - 55
    } else {
        -1
    }
}

/// A single leading `+` (not followed by another `+`) is dropped before a
/// numeral is read.
pub open spec fn strip_plus(s: Seq<int>) -> Seq<int> {
    if s.len() >= 1 && s[0] == 43 && !(s.len() >= 2 && s[1] == 43) {
        s.skip(1)
    } else {
        s
    }
}

/// Whether a character sequence is a well-formed numeral in the given radix:
/// after an optional leading `+`, a nonempty run of digits below the radix,
/// with `_` separators allowed anywhere but first.
pub open spec fn numeral_ok(s: Seq<int>, radix: int) -> bool {
    let body = strip_plus(s);
    body.len() > 0 && body[0] != 95 && forall|i: int|
        0 <= i < body.len() ==> body[i] == 95 || (0 <= digit_value(body[i])
            && digit_value(body[i]) < radix)
}

/// The number a numeral (already stripped of its leading `+`) denotes in the
/// given radix, skipping `_` separators.
pub open spec fn numeral_val(s: Seq<int>, radix: int) -> int
    decreases s.len(),
{
    if s.len() == 0 {
        0
    } else if s.last() == 95 {
        numeral_val(s.drop_last(), radix)
    } else {
        numeral_val(s.drop_last(), radix) * radix + digit_value(s.last())
    }
}

/// Relies on `BigUint::to_u64_digits`: the digit sequence the integer holds,
/// least significant first, with no trailing zero digit.
#[verifier::external_body]
pub(crate) fn big_to_u64_digits(a: &BigUint) -> (r: Vec<u64>)
    ensures
        r@ == digits_of(*a),
        r@.len() > 0 ==> r@[r@.len() - 1] != 0,
{
    a.to_u64_digits()
}

/// Relies on `<BigUint as From<u128>>::from`: builds the integer with that value.
#[verifier::external_body]
pub(crate) fn big_from_u128(x: u128) -> (r: BigUint)
    ensures
        big_val(&r) == x,
{
    BigUint::from(x)
}

/// Relies on `<BigUint as Clone>::clone`: an equal value.
#[verifier::external_body]
pub(crate) fn big_clone(a: &BigUint) -> (r: BigUint)
    ensures
        big_val(&r) == big_val(a),
{
    a.clone()
}

/// Relies on `<&BigUint as Add>::add`: exact integer addition.
#[verifier::external_body]
pub(crate) fn big_add(a: &BigUint, b: &BigUint) -> (r: BigUint)
    ensures
        big_val(&r) == big_val(a) + big_val(b),
{
    a + b
}

/// Relies on `<&BigUint as Sub>::sub`: exact integer subtraction; the crate
/// panics on underflow, so smaller-or-equal subtrahends are required.
#[verifier::external_body]
pub(crate) fn big_sub(a: &BigUint, b: &BigUint) -> (r: BigUint)
    requires
        big_val(b) <= big_val(a),
    ensures
        big_val(&r) == big_val(a) - big_val(b),
{
    a - b
}

/// Relies on `<&BigUint as Mul>::mul`: exact integer multiplication.
#[verifier::external_body]
pub(crate) fn big_mul(a: &BigUint, b: &BigUint) -> (r: BigUint)
    ensures
        big_val(&r) == big_val(a) * big_val(b),
{
    a * b
}

/// Relies on `<&BigUint as Div>::div`: floor division; the crate panics on a
/// zero divisor, so that input is required away.
#[verifier::external_body]
pub(crate) fn big_div(a: &BigUint, b: &BigUint) -> (r: BigUint)
    requires
        big_val(b) != 0,
    ensures
        big_val(&r) == big_val(a) / big_val(b),
{
    a / b
}

/// Relies on `<&BigUint as Rem>::rem`: the remainder of floor division; the
/// crate panics on a zero divisor, so that input is required away.
#[verifier::external_body]
pub(crate) fn big_rem(a: &BigUint, b: &BigUint) -> (r: BigUint)
    requires
        big_val(b) != 0,
    ensures
        big_val(&r) == big_val(a) % big_val(b),
{
    a % b
}

/// Relies on `<BigUint as PartialEq>::eq`: equality of the denoted numbers.
#[verifier::external_body]
pub(crate) fn big_eq(a: &BigUint, b: &BigUint) -> (r: bool)
    ensures
        r == (big_val(a) == big_val(b)),
{
    a == b
}

/// Relies on `<BigUint as PartialOrd>::lt`: the numeric strict order.
#[verifier::external_body]
pub(crate) fn big_lt(a: &BigUint, b: &BigUint) -> (r: bool)
    ensures
        r == (big_val(a) < big_val(b)),
{
    a < b
}

/// Relies on `<&BigUint as Shl<usize>>::shl`: multiplication by a power of two.
#[verifier::external_body]
pub(crate) fn big_shl(a: &BigUint, k: usize) -> (r: BigUint)
    ensures
        big_val(&r) == big_val(a) * pow2(k as nat),
{
    a << k
}

/// Relies on `<&BigUint as Shr<usize>>::shr`: floor division by a power of two.
#[verifier::external_body]
pub(crate) fn big_shr(a: &BigUint, k: usize) -> (r: BigUint)
    ensures
        big_val(&r) == big_val(a) / pow2(k as nat),
{
    a >> k
}

/// Relies on `BigUint::modpow`: `(self ^ exponent) % modulus`; the crate
/// panics on a zero modulus, so that input is required away.
#[verifier::external_body]
pub(crate) fn big_modpow(a: &BigUint, e: &BigUint, m: &BigUint) -> (r: BigUint)
    requires
        big_val(m) != 0,
    ensures
        big_val(&r) as int == pow(big_val(a) as int, big_val(e)) % (big_val(m) as int),
{
    a.modpow(e, m)
}

/// Bitwise conjunction of two numbers, bit by bit of their binary forms.
pub open spec fn and_nat(a: nat, b: nat) -> nat
    decreases a + b,
{
    if a == 0 && b == 0 {
        0
    } else {
        (2 * and_nat(a / 2, b / 2) + (if a % 2 == 1 && b % 2 == 1 {
            1nat
        } else {
            0nat
        })) as nat
    }
}

/// Bitwise disjunction of two numbers.
pub open spec fn or_nat(a: nat, b: nat) -> nat
    decreases a + b,
{
    if a == 0 && b == 0 {
        0
    } else {
        (2 * or_nat(a / 2, b / 2) + (if a % 2 == 1 || b % 2 == 1 {
            1nat
        } else {
            0nat
        })) as nat
    }
}

/// Bitwise exclusive disjunction of two numbers.
pub open spec fn xor_nat(a: nat, b: nat) -> nat
    decreases a + b,
{
    if a == 0 && b == 0 {
        0
    } else {
        (2 * xor_nat(a / 2, b / 2) + (if (a % 2 == 1) != (b % 2 == 1) {
            1nat
        } else {
            0nat
        })) as nat
    }
}

/// A conjunction never exceeds either operand.
pub proof fn lemma_and_nat_le(a: nat, b: nat)
    ensures
        and_nat(a, b) <= a,
        and_nat(a, b) <= b,
    decreases a + b,
{
    if a == 0 && b == 0 {
    } else {
        lemma_and_nat_le(a / 2, b / 2);
    }
}

/// Relies on `<&BigUint as BitAnd>::bitand`: the bitwise conjunction.
#[verifier::external_body]
pub(crate) fn big_bitand(a: &BigUint, b: &BigUint) -> (r: BigUint)
    ensures
        big_val(&r) == and_nat(big_val(a), big_val(b)),
{
    a & b
}

/// Relies on `<&BigUint as BitOr>::bitor`: the bitwise disjunction.
#[verifier::external_body]
pub(crate) fn big_bitor(a: &BigUint, b: &BigUint) -> (r: BigUint)
    ensures
        big_val(&r) == or_nat(big_val(a), big_val(b)),
{
    a | b
}

/// Relies on `<&BigUint as BitXor>::bitxor`: the bitwise exclusive
/// disjunction.
#[verifier::external_body]
pub(crate) fn big_bitxor(a: &BigUint, b: &BigUint) -> (r: BigUint)
    ensures
        big_val(&r) == xor_nat(big_val(a), big_val(b)),
{
    a ^ b
}

/// The value of a little-endian two's-complement byte string: the unsigned
/// little-endian value, less the weight of the sign bit when it is set.
pub open spec fn le_nat(s: Seq<u8>) -> nat
    decreases s.len(),
{
    if s.len() == 0 {
        0
    } else {
        (s[0] + 256 * le_nat(s.skip(1))) as nat
    }
}

/// The signed value a little-endian two's-complement byte string denotes.
pub open spec fn signed_le_val(s: Seq<u8>) -> int {
    if s.len() > 0 && s.last() >= 128 {
        le_nat(s) - pow2(8 * s.len())
    } else {
        le_nat(s) as int
    }
}

#[verifier::external_type_specification]
#[verifier::external_body]
pub struct ExBigInt(num_bigint::BigInt);

/// The magnitude digits, least significant first and without trailing
/// zeros, that a signed big integer holds.
pub uninterp spec fn bigint_digits(b: num_bigint::BigInt) -> Seq<u64>;

/// Whether a signed big integer is negative.
pub uninterp spec fn bigint_neg(b: num_bigint::BigInt) -> bool;

/// The number a signed big integer denotes.
pub open spec fn bigint_val(b: &num_bigint::BigInt) -> int {
    if bigint_neg(*b) {
        -(nat_of(bigint_digits(*b)) as int)
    } else {
        nat_of(bigint_digits(*b)) as int
    }
}

/// Relies on `BigInt::from_biguint`: a signed integer with the given
/// magnitude, negative exactly when asked and the magnitude is nonzero.
#[verifier::external_body]
pub(crate) fn big_int_from_parts(neg: bool, mag: &BigUint) -> (r: num_bigint::BigInt)
    ensures
        nat_of(bigint_digits(r)) == big_val(mag),
        bigint_neg(r) == (neg && big_val(mag) != 0),
{
    let sign = if neg { num_bigint::Sign::Minus } else { num_bigint::Sign::Plus };
    num_bigint::BigInt::from_biguint(sign, mag.clone())
}

/// Relies on `BigInt::to_signed_bytes_le` (and `BigInt::from_biguint` to
/// build its argument): the two's-complement little-endian bytes of the
/// signed value with the given sign and magnitude.
#[verifier::external_body]
pub(crate) fn big_signed_bytes_le(neg: bool, mag: &BigUint) -> (r: Vec<u8>)
    ensures
        signed_le_val(r@) == (if neg {
            -(big_val(mag) as int)
        } else {
            big_val(mag) as int
        }),
{
    let sign = if neg { num_bigint::Sign::Minus } else { num_bigint::Sign::Plus };
    num_bigint::BigInt::from_biguint(sign, mag.clone()).to_signed_bytes_le()
}

/// Relies on `BigUint::parse_bytes`: it accepts exactly the numerals of
/// `numeral_ok` (an optional `+`, digits `0-9a-zA-Z` below the radix, `_`
/// separators past the first place) and reads them in the given radix; the
/// crate panics on a radix outside `2..=36`, so those are required away.
#[verifier::external_body]
pub(crate) fn big_parse_bytes(buf: &[u8], radix: u32) -> (r: Option<BigUint>)
    requires
        2 <= radix <= 36,
    ensures
        r is Some <==> numeral_ok(buf@.map_values(|b: u8| b as int), radix as int),
        (r matches Some(v) ==> big_val(&v) as int == numeral_val(
            strip_plus(buf@.map_values(|b: u8| b as int)),
            radix as int,
        )),
{
    BigUint::parse_bytes(buf, radix)
}

/// Relies on `<BigUint as num_traits::Num>::from_str_radix`: the same grammar
/// as `parse_bytes`, over the characters of a string.
#[verifier::external_body]
pub(crate) fn big_from_str_radix(s: &str, radix: u32) -> (r: Option<BigUint>)
    requires
        2 <= radix <= 36,
    ensures
        r is Some <==> numeral_ok(s@.map_values(|c: char| c as int), radix as int),
        (r matches Some(v) ==> big_val(&v) as int == numeral_val(
            strip_plus(s@.map_values(|c: char| c as int)),
            radix as int,
        )),
{
    num_traits::Num::from_str_radix(s, radix).ok()
}

/// Relies on `BigUint::to_str_radix`: a numeral in lowercase digits that,
/// read back in the same radix, denotes the same value; the crate panics on a
/// radix outside `2..=36`, so those are required away.
#[verifier::external_body]
pub(crate) fn big_to_str_radix(a: &BigUint, radix: u32) -> (r: String)
    requires
        2 <= radix <= 36,
    ensures
        numeral_ok(r@.map_values(|c: char| c as int), radix as int),
        numeral_val(strip_plus(r@.map_values(|c: char| c as int)), radix as int) == big_val(
            a,
        ) as int,
{
    a.to_str_radix(radix)
}

/// Relies on `BigUint::to_bytes_be`: the value in big-endian bytes, at least
/// one byte, with no leading zero byte unless the value is zero.
#[verifier::external_body]
pub(crate) fn big_to_bytes_be(a: &BigUint) -> (r: Vec<u8>)
    ensures
        be_nat(r@) == big_val(a),
        r@.len() >= 1,
        r@.len() > 1 ==> r@[0] != 0,
{
    a.to_bytes_be()
}

/// Relies on `BigUint::from_bytes_be`: reads a big-endian unsigned magnitude;
/// an empty slice denotes zero.
#[verifier::external_body]
pub(crate) fn big_from_bytes_be(bytes: &[u8]) -> (r: BigUint)
    ensures
        big_val(&r) == be_nat(bytes@),
{
    BigUint::from_bytes_be(bytes)
}

/// Relies on `BigUint::modinv`: it returns the `x` in `[0, modulus)` with
/// `self * x ≡ 1 (mod modulus)` exactly when `gcd(self, modulus) == 1`, and
/// on the modulus here being the STARK field order, a prime, so that every
/// `a` in `(0, m)` is coprime to it and the inverse exists.
#[verifier::external_body]
pub(crate) fn big_modinv_prime(a: &BigUint, m: &BigUint) -> (r: BigUint)
    requires
        big_val(m) == prime(),
        0 < big_val(a) < prime(),
    ensures
        big_val(&r) < prime(),
        (big_val(a) * big_val(&r)) % prime() == 1,
{
    a.modinv(m).expect("a prime modulus leaves every nonzero residue invertible")
}

} // verus!
