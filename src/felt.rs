//! Field elements and integer literals.
use vstd::prelude::*;

use num_bigint::{BigInt, BigUint, Sign};
use num_traits::ToPrimitive;

verus! {

/// 2^32, the base of the limbs of an integer literal.
pub open spec fn limb_base() -> nat {
    0x1_0000_0000
}

/// 2^64.
pub open spec fn pow64() -> nat {
    0x1_0000_0000_0000_0000
}

/// 2^128.
pub open spec fn pow128() -> nat {
    pow64() * pow64()
}

/// The prime of the field: 2^251 + 17 * 2^192 + 1.
pub open spec fn field_prime() -> nat {
    pow128() * 0x800_0000_0000_0011_0000_0000_0000_0000 + 1
}

/// The value of little-endian base 2^32 limbs.
pub open spec fn magnitude_value(d: Seq<u32>) -> nat
    decreases d.len(),
{
    if d.len() == 0 {
        0
    } else {
        d[0] as nat + limb_base() * magnitude_value(d.drop_first())
    }
}

/// The value of four little-endian base 2^64 limbs.
pub open spec fn limbs4_value(l: Seq<u64>) -> nat {
    l[0] as nat + pow64() * l[1] as nat + pow128() * l[2] as nat + pow64() * pow128() * l[3] as nat
}

/// The representative in `[0, field_prime())` of an integer.
pub open spec fn reduce(v: int) -> nat {
    (v % (field_prime() as int)) as nat
}

/// An element of the field, as its canonical value split into two halves of
/// 128 bits.
#[derive(Clone, Copy, Debug, PartialEq, Eq, Structural)]
pub struct Felt {
    pub low: u128,
    pub high: u128,
}

/// The field element whose canonical value is `n`.
pub open spec fn felt_of(n: nat) -> Felt {
    Felt { low: (n % pow128()) as u128, high: (n / pow128()) as u128 }
}

impl Felt {
    pub open spec fn value(self) -> nat {
        self.low as nat + pow128() * self.high as nat
    }

    /// A field element is determined by its value.
    pub proof fn lemma_of_value(self)
        ensures
            felt_of(self.value()) == self,
    {
        vstd::arithmetic::div_mod::lemma_fundamental_div_mod_converse(
            self.value() as int,
            pow128() as int,
            self.high as int,
            self.low as int,
        );
    }

    /// The field element of a small value.
    pub fn from_u128(v: u128) -> (r: Felt)
        ensures
            r.value() == v,
            r == felt_of(v as nat),
    {
        proof {
            vstd::arithmetic::div_mod::lemma_small_mod(v as nat, pow128());
            vstd::arithmetic::div_mod::lemma_basic_div(v as int, pow128() as int);
        }
        Felt { low: v, high: 0 }
    }

    fn from_limbs(l: [u64; 4]) -> (r: Felt)
        ensures
            r.value() == limbs4_value(l@),
    {
        let low = (l[1] as u128) * 0x1_0000_0000_0000_0000u128 + (l[0] as u128);
        let high = (l[3] as u128) * 0x1_0000_0000_0000_0000u128 + (l[2] as u128);
        proof {
            let (l0, l1, l2, l3) = (l[0] as int, l[1] as int, l[2] as int, l[3] as int);
            let b = pow64() as int;
            let c = pow128() as int;
            assert(c * (l3 * b + l2) == b * c * l3 + c * l2) by (nonlinear_arith);
        }
        Felt { low, high }
    }
}

/// An integer literal of the source language: a sign and a magnitude in
/// little-endian base 2^32 limbs.
#[derive(Debug)]
pub struct IntLiteral {
    pub negative: bool,
    pub magnitude: Vec<u32>,
}

/// The integer of a sign and a magnitude.
pub open spec fn signed_value(negative: bool, magnitude: Seq<u32>) -> int {
    if negative {
        -(magnitude_value(magnitude) as int)
    } else {
        magnitude_value(magnitude) as int
    }
}

impl IntLiteral {
    pub open spec fn value(&self) -> int {
        signed_value(self.negative, self.magnitude@)
    }

    /// The literal of a non-negative value.
    pub fn from_u64(v: u64) -> (r: IntLiteral)
        ensures
            r.value() == v,
    {
        let lo = (v % 0x1_0000_0000) as u32;
        let hi = (v / 0x1_0000_0000) as u32;
        let magnitude = vec![lo, hi];
        proof {
            let d = magnitude@;
            assert(d.drop_first().drop_first().len() == 0);
            assert(magnitude_value(d.drop_first()) == hi as nat + limb_base() * magnitude_value(
                d.drop_first().drop_first(),
            ));
        }
        IntLiteral { negative: false, magnitude }
    }

    /// The field element of this literal: its value reduced modulo the prime.
    pub fn to_felt(&self) -> (r: Felt)
        ensures
            r.value() == reduce(self.value()),
            r == felt_of(reduce(self.value())),
    {
        let r = Felt::from_limbs(felt_limbs(self.negative, &self.magnitude));
        proof {
            r.lemma_of_value();
        }
        r
    }

    /// The value as a `usize`, where it is one.
    pub fn to_usize(&self) -> (r: Option<usize>)
        ensures
            r == usize_of(self.value()),
    {
        literal_to_usize(self.negative, &self.magnitude)
    }

    /// The decimal representation of the value.
    pub fn to_decimal(&self) -> (r: String)
        ensures
            r@ == decimal_of(self.value()),
    {
        literal_to_decimal(self.negative, &self.magnitude)
    }
}

/// The `usize` of an integer, where it is in range.
pub open spec fn usize_of(v: int) -> Option<usize> {
    if 0 <= v <= usize::MAX {
        Some(v as usize)
    } else {
        None
    }
}

/// The character of a decimal digit.
pub open spec fn digit_char(d: nat) -> char {
    if d == 0 { '0' }
    else if d == 1 { '1' }
    else if d == 2 { '2' }
    else if d == 3 { '3' }
    else if d == 4 { '4' }
    else if d == 5 { '5' }
    else if d == 6 { '6' }
    else if d == 7 { '7' }
    else if d == 8 { '8' }
    else { '9' }
}

/// The decimal digits of a natural number, without leading zeros.
pub open spec fn decimal_digits(n: nat) -> Seq<char>
    decreases n,
{
    if n < 10 {
        seq![digit_char(n)]
    } else {
        decimal_digits(n / 10).push(digit_char(n % 10))
    }
}

/// The decimal representation of an integer, with a leading `-` when it is
/// negative.
pub open spec fn decimal_of(v: int) -> Seq<char> {
    if v < 0 {
        seq!['-'] + decimal_digits((-v) as nat)
    } else {
        decimal_digits(v as nat)
    }
}

/// The value of a character as a digit, in any radix up to 36; 255 for a
/// character that is no digit.
pub open spec fn digit_value(c: char) -> nat {
    if '0' <= c && c <= '9' {
        (c as nat - '0' as nat) as nat
    } else if 'a' <= c && c <= 'z' {
        (c as nat - 'a' as nat + 10) as nat
    } else if 'A' <= c && c <= 'Z' {
        (c as nat - 'A' as nat + 10) as nat
    } else {
        255
    }
}

/// A numeral without its optional leading `+`.
pub open spec fn numeral_body(s: Seq<char>) -> Seq<char> {
    if s.len() > 0 && s[0] == '+' {
        s.drop_first()
    } else {
        s
    }
}

/// Whether `s` is an unsigned numeral in `radix`: an optional `+`, then
/// digits of the radix and underscores, starting with a digit.
pub open spec fn is_numeral(s: Seq<char>, radix: nat) -> bool {
    let b = numeral_body(s);
    &&& b.len() > 0
    &&& b[0] != '_'
    &&& forall|i: int| 0 <= i < b.len() ==> (b[i] == '_' || digit_value(#[trigger] b[i]) < radix)
}

/// The value of a sequence of digits and underscores, most significant first.
pub open spec fn digits_value(s: Seq<char>, radix: nat) -> nat
    decreases s.len(),
{
    if s.len() == 0 {
        0
    } else if s.last() == '_' {
        digits_value(s.drop_last(), radix)
    } else {
        digits_value(s.drop_last(), radix) * radix + digit_value(s.last())
    }
}

/// The value of an unsigned numeral.
pub open spec fn numeral_value(s: Seq<char>, radix: nat) -> nat {
    digits_value(numeral_body(s), radix)
}

/// Relies on num_bigint's `ToPrimitive::to_usize` for `BigInt`: `Some` exactly
/// when the value lies in `[0, usize::MAX]`.
#[verifier::external_body]
fn literal_to_usize(negative: bool, magnitude: &Vec<u32>) -> (r: Option<usize>)
    ensures
        r == usize_of(signed_value(negative, magnitude@)),
{
    let sign = if negative { Sign::Minus } else { Sign::Plus };
    BigInt::from_slice(sign, magnitude).to_usize()
}

/// Relies on num_bigint's `Display` for `BigInt`: decimal digits without
/// leading zeros, after a `-` for a negative value.
#[verifier::external_body]
fn literal_to_decimal(negative: bool, magnitude: &Vec<u32>) -> (r: String)
    ensures
        r@ == decimal_of(signed_value(negative, magnitude@)),
{
    let sign = if negative { Sign::Minus } else { Sign::Plus };
    BigInt::from_slice(sign, magnitude).to_string()
}

/// Relies on num_bigint's `BigUint::parse_bytes`, which accepts an optional
/// `+`, then digits of the radix and underscores that do not come first, and
/// on `BigUint::to_u32_digits` for the little-endian limbs of the result.
#[verifier::external_body]
pub(crate) fn parse_unsigned(s: &str, radix: u32) -> (r: Option<Vec<u32>>)
    requires
        radix == 10 || radix == 16,
    ensures
        r is Some <==> is_numeral(s@, radix as nat),
        r matches Some(d) ==> magnitude_value(d@) == numeral_value(s@, radix as nat),
{
    match BigUint::parse_bytes(s.as_bytes(), radix) {
        Some(u) => Some(u.to_u32_digits()),
        None => None,
    }
}

/// The field element of a magnitude.
pub(crate) fn felt_of_magnitude(magnitude: &Vec<u32>) -> (r: Felt)
    ensures
        r == felt_of(reduce(magnitude_value(magnitude@) as int)),
{
    let r = Felt::from_limbs(felt_limbs(false, magnitude));
    proof {
        r.lemma_of_value();
    }
    r
}

/// Relies on cairo_felt's `Felt252::from(BigInt)`, which reduces the integer
/// modulo the field prime to a value in `[0, prime)`, and on
/// `Felt252::to_le_digits`, which gives that value as four little-endian limbs.
#[verifier::external_body]
fn felt_limbs(negative: bool, magnitude: &Vec<u32>) -> (r: [u64; 4])
    ensures
        limbs4_value(r@) == reduce(signed_value(negative, magnitude@)),
{
    let sign = if negative { Sign::Minus } else { Sign::Plus };
    cairo_felt::Felt252::from(BigInt::from_slice(sign, magnitude)).to_le_digits()
}

} // verus!
