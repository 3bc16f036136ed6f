//! `Felt`: an element of the prime field of order
//! `P = 2^251 + 17 * 2^192 + 1`, the 252-bit STARK field. Every stored value
//! is fully reduced modulo `P`, and every operation returns a reduced value.

use vstd::prelude::*;
use vstd::pervasive::unreached;
use vstd::arithmetic::div_mod::{
    lemma_div_nonincreasing, lemma_mod_bound, lemma_mod_multiples_vanish,
    lemma_mul_mod_noop_general, lemma_small_mod,
};
use vstd::arithmetic::mul::{lemma_mul_is_associative, lemma_mul_is_commutative};
use vstd::arithmetic::power::pow;
use vstd::arithmetic::power2::pow2;
use num_bigint::BigUint;
use vstd::arithmetic::power2::lemma_pow2_pos;
use crate::bignum::{
    and_nat, be_nat, big_add, big_bitand, big_bitor, big_bitxor, big_clone, big_div, big_eq,
    big_from_bytes_be, big_from_str_radix, big_from_u128, big_int_from_parts, big_lt,
    big_modinv_prime, big_modpow, big_mul, big_parse_bytes, big_rem, big_shl, big_shr,
    big_signed_bytes_le, big_sub, big_to_bytes_be, big_to_str_radix, big_to_u64_digits, big_val,
    bigint_val, lemma_and_nat_le, nat_of, numeral_ok, numeral_val, or_nat, signed_le_val,
    strip_plus, xor_nat,
};

verus! {

/// The field order: `2^251 + 17 * 2^192 + 1`.
pub open spec fn prime() -> nat {
    0x800000000000011000000000000000000000000000000000000000000000001nat
}

/// A field element, held as a reduced big unsigned integer.
#[derive(Debug)]
pub struct Felt {
    val: BigUint,
}

impl Felt {
    /// Every `Felt` holds a value below the field order.
    #[verifier::type_invariant]
    pub closed spec fn in_field(self) -> bool {
        big_val(&self.val) < prime()
    }
}

impl View for Felt {
    type V = nat;

    closed spec fn view(&self) -> nat {
        big_val(&self.val)
    }
}

/// The field order as a big integer.
fn prime_big() -> (r: BigUint)
    ensures
        big_val(&r) == prime(),
{
    let high = big_from_u128(0x8000000000000110000000000000000u128);
    let shifted = big_shl(&high, 128);
    let r = big_add(&shifted, &big_from_u128(1u128));
    proof {
        vstd::arithmetic::power2::lemma2_to64();
        vstd::arithmetic::power2::lemma_pow2_adds(64, 64);
        assert(pow2(128) == 0x100000000000000000000000000000000int);
        assert(0x8000000000000110000000000000000int * 0x100000000000000000000000000000000int + 1
            == prime());
    }
    r
}

impl Felt {
    /// The additive identity.
    pub fn zero() -> (r: Felt)
        ensures
            r@ == 0,
    {
        Felt { val: big_from_u128(0u128) }
    }

    /// The multiplicative identity.
    pub fn one() -> (r: Felt)
        ensures
            r@ == 1,
    {
        Felt { val: big_from_u128(1u128) }
    }

    /// Whether this is the zero element.
    pub fn is_zero(&self) -> (r: bool)
        ensures
            r == (self@ == 0),
    {
        let z = big_from_u128(0u128);
        big_eq(&self.val, &z)
    }

    /// The numeric strict order on the reduced representatives.
    pub fn lt(&self, other: &Felt) -> (r: bool)
        ensures
            r == (self@ < other@),
    {
        big_lt(&self.val, &other.val)
    }

    /// The numeric non-strict order on the reduced representatives.
    pub fn le(&self, other: &Felt) -> (r: bool)
        ensures
            r == (self@ <= other@),
    {
        !other.lt(self)
    }

    /// Field addition.
    pub fn add(&self, other: &Felt) -> (r: Felt)
        ensures
            r@ == (self@ + other@) % prime(),
    {
        let p = prime_big();
        let s = big_add(&self.val, &other.val);
        let m = big_rem(&s, &p);
        proof {
            lemma_mod_bound((self@ + other@) as int, prime() as int);
        }
        Felt { val: m }
    }

    /// Field subtraction: `self - other` modulo the field order.
    pub fn sub(&self, other: &Felt) -> (r: Felt)
        ensures
            r@ as int == (self@ + prime() - other@) % (prime() as int),
    {
        proof {
            use_type_invariant(other);
        }
        let p = prime_big();
        let s = big_add(&self.val, &p);
        let d = big_sub(&s, &other.val);
        let m = big_rem(&d, &p);
        proof {
            lemma_mod_bound((self@ + prime() - other@) as int, prime() as int);
        }
        Felt { val: m }
    }

    /// Field negation: the element that cancels `self` under addition.
    pub fn neg(&self) -> (r: Felt)
        ensures
            r@ as int == (prime() - self@) % (prime() as int),
    {
        proof {
            use_type_invariant(self);
        }
        let p = prime_big();
        let d = big_sub(&p, &self.val);
        let m = big_rem(&d, &p);
        proof {
            lemma_mod_bound((prime() - self@) as int, prime() as int);
        }
        Felt { val: m }
    }

    /// Field multiplication.
    pub fn mul(&self, other: &Felt) -> (r: Felt)
        ensures
            r@ == (self@ * other@) % prime(),
    {
        let p = prime_big();
        let s = big_mul(&self.val, &other.val);
        let m = big_rem(&s, &p);
        proof {
            lemma_mod_bound((self@ * other@) as int, prime() as int);
        }
        Felt { val: m }
    }
}

impl Clone for Felt {
    /// An equal field element.
    fn clone(&self) -> (r: Felt)
        ensures
            r@ == self@,
    {
        proof {
            use_type_invariant(self);
        }
        Felt { val: big_clone(&self.val) }
    }
}

/// The error returned when a numeral string does not parse as a `Felt`.
#[derive(Clone, Debug, PartialEq, Eq, Structural)]
pub struct ParseFeltError;

/// Construction of a field element from a primitive integer, reduced into
/// the field.
pub trait NewFelt: View<V = nat> + Sized {
    fn new(value: i128) -> (r: Self)
        ensures
            r@ as int == (value as int) % (prime() as int),
    ;
}

/// Construction of a field element from a numeral string in a given radix;
/// the numeral must be well formed (see `Felt::new_str_checked` for the
/// checked form).
pub trait NewStr: View<V = nat> + Sized {
    fn new_str(num: &str, base: u8) -> (r: Self)
        requires
            2 <= base <= 36,
            numeral_ok(num@.map_values(|c: char| c as int), base as int),
        ensures
            r@ as int == numeral_val(
                strip_plus(num@.map_values(|c: char| c as int)),
                base as int,
            ) % (prime() as int),
    ;
}

/// The full capability set a field-element backend must provide. `Felt` is
/// the one backend selected here; any replacement must satisfy the same
/// contracts.
pub trait FeltOps: View<V = nat> + Sized {
    /// `(self ^ exponent) % modulus`, for an arbitrary nonzero modulus.
    fn modpow(&self, exponent: &Felt, modulus: &Felt) -> (r: Self)
        requires
            modulus@ != 0,
        ensures
            r@ as int == pow(self@ as int, exponent@) % (modulus@ as int),
    ;

    /// The remainder of flooring division of the reduced representatives
    /// (on these nonnegative values flooring and truncating agree).
    fn mod_floor(&self, other: &Felt) -> (r: Self)
        requires
            other@ != 0,
        ensures
            r@ == self@ % other@,
    ;

    /// The quotient of flooring division of the reduced representatives.
    fn div_floor(&self, other: &Felt) -> (r: Self)
        requires
            other@ != 0,
        ensures
            r@ == self@ / other@,
    ;

    /// Flooring quotient and remainder at once.
    fn div_mod_floor(&self, other: &Felt) -> (r: (Felt, Felt))
        requires
            other@ != 0,
        ensures
            r.0@ == self@ / other@,
            r.1@ == self@ % other@,
    ;

    /// Truncating quotient and remainder; on the nonnegative reduced
    /// representatives these coincide with the flooring pair.
    fn div_rem(&self, other: &Felt) -> (r: (Felt, Felt))
        requires
            other@ != 0,
        ensures
            r.0@ == self@ / other@,
            r.1@ == self@ % other@,
    ;

    /// The 64-bit limbs of the reduced representative, least significant
    /// first, with no trailing zero limb.
    fn iter_u64_digits(&self) -> (r: Vec<u64>)
        ensures
            nat_of(r@) == self@,
            r@.len() > 0 ==> r@[r@.len() - 1] != 0,
    ;

    /// The reduced representative as big-endian bytes, with no leading zero
    /// byte unless the value is zero.
    fn to_bytes_be(&self) -> (r: Vec<u8>)
        ensures
            be_nat(r@) == self@,
            r@.len() >= 1,
            r@.len() > 1 ==> r@[0] != 0,
    ;

    /// Reads a numeral from bytes; `None` exactly on malformed input.
    fn parse_bytes(buf: &[u8], radix: u32) -> (r: Option<Felt>)
        requires
            2 <= radix <= 36,
        ensures
            r is Some <==> numeral_ok(buf@.map_values(|b: u8| b as int), radix as int),
            (r matches Some(f) ==> f@ as int == numeral_val(
                strip_plus(buf@.map_values(|b: u8| b as int)),
                radix as int,
            ) % (prime() as int)),
    ;

    /// Reads a big-endian unsigned magnitude, reduced into the field.
    fn from_bytes_be(bytes: &[u8]) -> (r: Self)
        ensures
            r@ == be_nat(bytes@) % prime(),
    ;

    /// The reduced representative as a numeral that parses back to the same
    /// value in the same radix.
    fn to_str_radix(&self, radix: u32) -> (r: String)
        requires
            2 <= radix <= 36,
        ensures
            numeral_ok(r@.map_values(|c: char| c as int), radix as int),
            numeral_val(strip_plus(r@.map_values(|c: char| c as int)), radix as int)
                == self@ as int,
    ;

    /// The reduced representative as little-endian two's-complement bytes of
    /// the signed representative in `(-P/2, P/2]`.
    fn to_signed_bytes_le(&self) -> (r: Vec<u8>)
        ensures
            signed_le_val(r@) == signed_rep(self@),
    ;

    /// The signed representative in `(-P/2, P/2]` as a signed big integer.
    fn to_bigint(&self) -> (r: num_bigint::BigInt)
        ensures
            bigint_val(&r) == signed_rep(self@),
    ;

    /// The reduced representative in `[0, P)` as a signed big integer.
    fn to_bigint_unsigned(&self) -> (r: num_bigint::BigInt)
        ensures
            bigint_val(&r) == self@,
    ;

    /// The multiplicative inverse: `self * r ≡ 1` modulo the field order.
    /// Zero has no inverse and is required away.
    fn mul_inverse(&self) -> (r: Self)
        requires
            self@ != 0,
        ensures
            (self@ * r@) % prime() == 1,
            r@ < prime(),
    ;

    /// A square root modulo the field order, when one exists: any returned
    /// element squares back to `self`. `None` only for non-residues.
    fn sqrt(&self) -> (r: Option<Felt>)
        ensures
            (r matches Some(s) ==> (s@ * s@) % prime() == self@),
            self@ == 0 ==> r is Some,
    ;
}

impl NewFelt for Felt {
    fn new(value: i128) -> (r: Felt) {
        let p = prime_big();
        if value >= 0 {
            let v = big_from_u128(value as u128);
            let m = big_rem(&v, &p);
            proof {
                lemma_mod_bound(value as int, prime() as int);
            }
            Felt { val: m }
        } else {
            let mag: u128 = if value == i128::MIN {
                0x80000000000000000000000000000000u128
            } else {
                (-value) as u128
            };
            let v = big_from_u128(mag);
            let d = big_sub(&p, &v);
            proof {
                lemma_mod_multiples_vanish(-1, (prime() - mag) as int, prime() as int);
                lemma_small_mod((prime() - mag) as nat, prime());
            }
            Felt { val: d }
        }
    }
}

impl NewStr for Felt {
    fn new_str(num: &str, base: u8) -> (r: Felt) {
        match big_from_str_radix(num, base as u32) {
            Some(v) => {
                let p = prime_big();
                let m = big_rem(&v, &p);
                proof {
                    lemma_mod_bound(big_val(&v) as int, prime() as int);
                }
                Felt { val: m }
            },
            None => unreached(),
        }
    }
}

impl Felt {
    /// Reads a numeral string in the given radix; `Err(ParseFeltError)`
    /// exactly on malformed input.
    pub fn new_str_checked(num: &str, base: u8) -> (r: Result<Felt, ParseFeltError>)
        requires
            2 <= base <= 36,
        ensures
            r is Ok <==> numeral_ok(num@.map_values(|c: char| c as int), base as int),
            (r matches Ok(f) ==> f@ as int == numeral_val(
                strip_plus(num@.map_values(|c: char| c as int)),
                base as int,
            ) % (prime() as int)),
    {
        match big_from_str_radix(num, base as u32) {
            Some(v) => {
                let p = prime_big();
                let m = big_rem(&v, &p);
                proof {
                    lemma_mod_bound(big_val(&v) as int, prime() as int);
                }
                Ok(Felt { val: m })
            },
            None => Err(ParseFeltError),
        }
    }

    /// Field division: multiplication by the inverse of `other`, which must
    /// be nonzero; the result is the unique field element with
    /// `r * other ≡ self`.
    pub fn div(&self, other: &Felt) -> (r: Felt)
        requires
            other@ != 0,
        ensures
            (r@ * other@) % prime() == self@,
    {
        proof {
            use_type_invariant(self);
            use_type_invariant(other);
        }
        let p = prime_big();
        let inv = big_modinv_prime(&other.val, &p);
        let s = big_mul(&self.val, &inv);
        let m = big_rem(&s, &p);
        proof {
            let a = self@ as int;
            let b = other@ as int;
            let iv = big_val(&inv) as int;
            let pr = prime() as int;
            lemma_mod_bound(a * iv, pr);
            lemma_mul_mod_noop_general(a * iv, b, pr);
            lemma_mul_is_associative(a, iv, b);
            lemma_mul_is_commutative(iv, b);
            lemma_mul_mod_noop_general(a, b * iv, pr);
            assert((b * iv) % pr == 1);
            lemma_small_mod(self@, prime());
            assert(((a * iv) % pr * b) % pr == (a * (b * iv)) % pr);
            assert((a * (b * iv)) % pr == (a * ((b * iv) % pr)) % pr);
        }
        Felt { val: m }
    }
}

impl Felt {
    /// A square root modulo the field order, found by the Tonelli–Shanks
    /// search and then checked by a verified squaring: whatever the search
    /// produced, a value is returned only if it squares back to `self`.
    fn sqrt_impl(&self) -> (r: Option<Felt>)
        ensures
            (r matches Some(s) ==> (s@ * s@) % prime() == self@),
            self@ == 0 ==> r is Some,
    {
        proof {
            use_type_invariant(self);
        }
        if self.is_zero() {
            let z = Felt::zero();
            proof {
                assert(z@ * z@ == 0);
                lemma_small_mod(0, prime());
            }
            return Some(z);
        }
        let p = prime_big();
        let one_b = big_from_u128(1u128);
        // The field order minus one is 2^192 times this odd factor.
        let odd_part = big_from_u128(576460752303423505u128);
        let half_exp = big_from_u128(288230376151711753u128);
        let pm1 = big_sub(&p, &one_b);
        let pm1_half = big_div(&pm1, &big_from_u128(2u128));
        // Search a quadratic non-residue by Euler's criterion.
        let mut zi: u128 = 2;
        let mut z = big_from_u128(2u128);
        let mut found = false;
        while !found && zi < 100
            invariant
                big_val(&p) == prime(),
                big_val(&pm1_half) < prime(),
            decreases 100 - zi,
        {
            z = big_from_u128(zi);
            let ls = big_modpow(&z, &pm1_half, &p);
            if big_eq(&ls, &pm1) {
                found = true;
            }
            zi = zi + 1;
        }
        if !found {
            proof {
                assert(self@ != 0);
            }
            return None;
        }
        let mut level: usize = 192;
        let mut c = big_modpow(&z, &odd_part, &p);
        let mut t = big_modpow(&self.val, &odd_part, &p);
        let mut cand = big_modpow(&self.val, &half_exp, &p);
        let mut fuel: usize = 200;
        while !big_eq(&t, &one_b) && fuel > 0
            invariant
                self@ != 0,
                big_val(&p) == prime(),
                big_val(&one_b) == 1,
                big_val(&t) < prime(),
                big_val(&c) < prime(),
                big_val(&cand) < prime(),
            decreases fuel,
        {
            let mut t2 = big_clone(&t);
            let mut i: usize = 0;
            while !big_eq(&t2, &one_b) && i < level
                invariant
                    big_val(&p) == prime(),
                    big_val(&one_b) == 1,
                    big_val(&t2) < prime(),
                    i <= level,
                decreases level - i,
            {
                t2 = big_rem(&big_mul(&t2, &t2), &p);
                i = i + 1;
            }
            if i >= level {
                return None;
            }
            let mut b = big_clone(&c);
            let mut j: usize = 0;
            let steps = level - i - 1;
            while j < steps
                invariant
                    big_val(&p) == prime(),
                    big_val(&b) < prime(),
                decreases steps - j,
            {
                b = big_rem(&big_mul(&b, &b), &p);
                j = j + 1;
            }
            level = i;
            c = big_rem(&big_mul(&b, &b), &p);
            t = big_rem(&big_mul(&t, &c), &p);
            cand = big_rem(&big_mul(&cand, &b), &p);
            fuel = fuel - 1;
        }
        let root = Felt { val: cand };
        let sq = root.mul(&root);
        if sq == *self {
            Some(root)
        } else {
            None
        }
    }
}

impl FeltOps for Felt {
    fn modpow(&self, exponent: &Felt, modulus: &Felt) -> (r: Felt) {
        proof {
            use_type_invariant(modulus);
        }
        let m = big_modpow(&self.val, &exponent.val, &modulus.val);
        proof {
            lemma_mod_bound(pow(self@ as int, exponent@), modulus@ as int);
        }
        Felt { val: m }
    }

    fn mod_floor(&self, other: &Felt) -> (r: Felt) {
        proof {
            use_type_invariant(other);
        }
        let m = big_rem(&self.val, &other.val);
        proof {
            lemma_mod_bound(self@ as int, other@ as int);
        }
        Felt { val: m }
    }

    fn div_floor(&self, other: &Felt) -> (r: Felt) {
        proof {
            use_type_invariant(self);
            use_type_invariant(other);
        }
        let q = big_div(&self.val, &other.val);
        proof {
            lemma_div_nonincreasing(self@ as int, other@ as int);
        }
        Felt { val: q }
    }

    fn div_mod_floor(&self, other: &Felt) -> (r: (Felt, Felt)) {
        (self.div_floor(other), self.mod_floor(other))
    }

    fn div_rem(&self, other: &Felt) -> (r: (Felt, Felt)) {
        (self.div_floor(other), self.mod_floor(other))
    }

    fn iter_u64_digits(&self) -> (r: Vec<u64>) {
        big_to_u64_digits(&self.val)
    }

    fn to_bytes_be(&self) -> (r: Vec<u8>) {
        big_to_bytes_be(&self.val)
    }

    fn parse_bytes(buf: &[u8], radix: u32) -> (r: Option<Felt>) {
        match big_parse_bytes(buf, radix) {
            Some(v) => {
                let p = prime_big();
                let m = big_rem(&v, &p);
                proof {
                    lemma_mod_bound(big_val(&v) as int, prime() as int);
                }
                Some(Felt { val: m })
            },
            None => None,
        }
    }

    fn from_bytes_be(bytes: &[u8]) -> (r: Felt) {
        let v = big_from_bytes_be(bytes);
        let p = prime_big();
        let m = big_rem(&v, &p);
        proof {
            lemma_mod_bound(be_nat(bytes@) as int, prime() as int);
        }
        Felt { val: m }
    }

    fn to_str_radix(&self, radix: u32) -> (r: String) {
        big_to_str_radix(&self.val, radix)
    }

    fn to_signed_bytes_le(&self) -> (r: Vec<u8>) {
        proof {
            use_type_invariant(self);
        }
        let neg = self.rep_is_negative();
        if neg {
            let p = prime_big();
            let mag = big_sub(&p, &self.val);
            big_signed_bytes_le(true, &mag)
        } else {
            big_signed_bytes_le(false, &self.val)
        }
    }

    fn to_bigint(&self) -> (r: num_bigint::BigInt) {
        proof {
            use_type_invariant(self);
        }
        let neg = self.rep_is_negative();
        if neg {
            let p = prime_big();
            let mag = big_sub(&p, &self.val);
            big_int_from_parts(true, &mag)
        } else {
            big_int_from_parts(false, &self.val)
        }
    }

    fn to_bigint_unsigned(&self) -> (r: num_bigint::BigInt) {
        big_int_from_parts(false, &self.val)
    }

    fn mul_inverse(&self) -> (r: Felt) {
        proof {
            use_type_invariant(self);
        }
        let p = prime_big();
        let inv = big_modinv_prime(&self.val, &p);
        Felt { val: inv }
    }

    fn sqrt(&self) -> (r: Option<Felt>) {
        self.sqrt_impl()
    }
}

/// The signed representative of a reduced value: itself when it is at most
/// half the field order, and its distance below the field order, negated,
/// otherwise — the canonical representative in `(-P/2, P/2]`.
pub open spec fn signed_rep(v: nat) -> int {
    if 2 * v <= prime() {
        v as int
    } else {
        v - prime()
    }
}

impl Felt {
    /// Whether the sign and magnitude of the signed representative are
    /// needed below: true exactly when the representative is negative.
    fn rep_is_negative(&self) -> (r: bool)
        ensures
            r == (signed_rep(self@) < 0),
    {
        proof {
            use_type_invariant(self);
        }
        let p = prime_big();
        let two = big_from_u128(2u128);
        let dbl = big_mul(&self.val, &two);
        big_lt(&p, &dbl)
    }

    /// The largest field element, the field order less one.
    pub fn max_value() -> (r: Felt)
        ensures
            r@ == prime() - 1,
    {
        let p = prime_big();
        let d = big_sub(&p, &big_from_u128(1u128));
        Felt { val: d }
    }

    /// The smallest field element, zero.
    pub fn min_value() -> (r: Felt)
        ensures
            r@ == 0,
    {
        Felt::zero()
    }

    /// Whether the signed representative is strictly positive.
    pub fn is_positive(&self) -> (r: bool)
        ensures
            r == (signed_rep(self@) > 0),
    {
        proof {
            use_type_invariant(self);
        }
        !self.is_zero() && !self.rep_is_negative()
    }

    /// Whether the signed representative is strictly negative.
    pub fn is_negative(&self) -> (r: bool)
        ensures
            r == (signed_rep(self@) < 0),
    {
        self.rep_is_negative()
    }

    /// The representative shifted left: multiplication by a power of two,
    /// reduced into the field.
    pub fn shl(&self, k: u32) -> (r: Felt)
        ensures
            r@ == (self@ * pow2(k as nat)) % prime(),
    {
        let p = prime_big();
        let s = big_shl(&self.val, k as usize);
        let m = big_rem(&s, &p);
        proof {
            lemma_mod_bound((self@ * pow2(k as nat)) as int, prime() as int);
        }
        Felt { val: m }
    }

    /// The representative shifted right: flooring division by a power of
    /// two.
    pub fn shr(&self, k: u32) -> (r: Felt)
        ensures
            r@ == self@ / pow2(k as nat),
    {
        proof {
            use_type_invariant(self);
            lemma_pow2_pos(k as nat);
            lemma_div_nonincreasing(self@ as int, pow2(k as nat) as int);
        }
        let s = big_shr(&self.val, k as usize);
        Felt { val: s }
    }

    /// The bitwise conjunction of the representatives; it never leaves the
    /// field.
    pub fn bitand(&self, other: &Felt) -> (r: Felt)
        ensures
            r@ == and_nat(self@, other@),
    {
        proof {
            use_type_invariant(self);
            lemma_and_nat_le(self@, other@);
        }
        let s = big_bitand(&self.val, &other.val);
        Felt { val: s }
    }

    /// The bitwise disjunction of the representatives, reduced into the
    /// field.
    pub fn bitor(&self, other: &Felt) -> (r: Felt)
        ensures
            r@ == or_nat(self@, other@) % prime(),
    {
        let p = prime_big();
        let s = big_bitor(&self.val, &other.val);
        let m = big_rem(&s, &p);
        proof {
            lemma_mod_bound(or_nat(self@, other@) as int, prime() as int);
        }
        Felt { val: m }
    }

    /// The bitwise exclusive disjunction of the representatives, reduced
    /// into the field.
    pub fn bitxor(&self, other: &Felt) -> (r: Felt)
        ensures
            r@ == xor_nat(self@, other@) % prime(),
    {
        let p = prime_big();
        let s = big_bitxor(&self.val, &other.val);
        let m = big_rem(&s, &p);
        proof {
            lemma_mod_bound(xor_nat(self@, other@) as int, prime() as int);
        }
        Felt { val: m }
    }

    /// Exponentiation by a machine-word exponent, modulo the field order.
    pub fn pow(&self, exp: u32) -> (r: Felt)
        ensures
            r@ as int == pow(self@ as int, exp as nat) % (prime() as int),
    {
        let p = prime_big();
        let e = big_from_u128(exp as u128);
        let m = big_modpow(&self.val, &e, &p);
        proof {
            lemma_mod_bound(pow(self@ as int, exp as nat), prime() as int);
        }
        Felt { val: m }
    }
}

/// The left-to-right sum of a run of reduced values, reduced at every step.
pub open spec fn sum_mod(s: Seq<nat>) -> nat
    decreases s.len(),
{
    if s.len() == 0 {
        0
    } else {
        (sum_mod(s.drop_last()) + s.last()) % prime()
    }
}

impl Felt {
    /// The field sum of a sequence of elements; an empty sequence sums to
    /// zero.
    pub fn sum(values: &Vec<Felt>) -> (r: Felt)
        ensures
            r@ == sum_mod(values@.map_values(|f: Felt| f@)),
    {
        let mut acc = Felt::zero();
        let mut i: usize = 0;
        while i < values.len()
            invariant
                i <= values.len(),
                acc@ == sum_mod(values@.map_values(|f: Felt| f@).take(i as int)),
            decreases values.len() - i,
        {
            proof {
                use_type_invariant(&acc);
            }
            acc = acc.add(&values[i]);
            proof {
                let m = values@.map_values(|f: Felt| f@);
                assert(m.take(i as int + 1).drop_last() =~= m.take(i as int));
                assert(m.take(i as int + 1).last() == m[i as int]);
            }
            i = i + 1;
        }
        proof {
            let m = values@.map_values(|f: Felt| f@);
            assert(m.take(values@.len() as int) =~= m);
        }
        acc
    }
}

/// Round trip through bytes: any field element, written as the big-endian
/// bytes of its reduced representative (as `to_bytes_be` promises) and read
/// back reduced into the field (as `from_bytes_be` promises), is unchanged.
pub proof fn lemma_bytes_round_trip(v: nat, bytes: Seq<u8>)
    requires
        v < prime(),
        be_nat(bytes) == v,
    ensures
        be_nat(bytes) % prime() == v,
{
    lemma_small_mod(v, prime());
}

/// Round trip through numerals: any field element, printed as a numeral of
/// its reduced representative (as `to_str_radix` promises) and parsed back
/// reduced into the field (as `parse_bytes` and `new_str` promise), is
/// unchanged.
pub proof fn lemma_numeral_round_trip(v: nat, s: Seq<int>, radix: int)
    requires
        v < prime(),
        numeral_val(strip_plus(s), radix) == v as int,
    ensures
        numeral_val(strip_plus(s), radix) % (prime() as int) == v as int,
{
    lemma_small_mod(v, prime());
}

impl PartialEq for Felt {
    fn eq(&self, other: &Felt) -> (r: bool) {
        big_eq(&self.val, &other.val)
    }
}

impl vstd::std_specs::cmp::PartialEqSpecImpl for Felt {
    open spec fn obeys_eq_spec() -> bool {
        true
    }

    open spec fn eq_spec(&self, other: &Felt) -> bool {
        self@ == other@
    }
}

} // verus!
