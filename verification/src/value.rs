//! Arbitrary-precision integers: the values held by grid cells and stacks.
//!
//! An `Int` keeps its number as little-endian two's-complement bytes, the
//! plain form that `num_bigint` reads and writes. Every computation on the
//! number is done by `num_bigint` behind a small trusted wrapper whose
//! contract states the arithmetic fact it performs.

use num_bigint::BigInt;
use num_integer::Integer;
use num_traits::ToPrimitive;
use vstd::prelude::*;

verus! {

/// Value of little-endian two's-complement bytes: the low byte is unsigned,
/// the most significant byte carries the sign; no bytes is zero.
pub open spec fn le_value(s: Seq<u8>) -> int
    decreases s.len(),
{
    if s.len() == 0 {
        0
    } else if s.len() == 1 {
        if s[0] < 128 {
            s[0] as int
        } else {
            s[0] - 256
        }
    } else {
        s[0] + 256 * le_value(s.drop_first())
    }
}

/// Floor division (rounding toward negative infinity).
pub open spec fn floor_div(a: int, b: int) -> int
    recommends
        b != 0,
{
    if b > 0 {
        a / b
    } else {
        (-a) / (-b)
    }
}

/// Remainder of floor division; it has the sign of the divisor.
pub open spec fn floor_mod(a: int, b: int) -> int
    recommends
        b != 0,
{
    a - b * floor_div(a, b)
}

/// Floor division and its remainder recompose the dividend; the remainder
/// has the sign of the divisor and is smaller than it in size.
pub proof fn lemma_floor_div_mod(a: int, b: int)
    requires
        b != 0,
    ensures
        a == b * floor_div(a, b) + floor_mod(a, b),
        b > 0 ==> 0 <= floor_mod(a, b) < b,
        b < 0 ==> b < floor_mod(a, b) <= 0,
{
    if b > 0 {
        assert(0 <= a % b < b && a == b * (a / b) + a % b) by (nonlinear_arith)
            requires
                b > 0,
        ;
    } else {
        let q = (-a) / (-b);
        assert(0 <= (-a) % (-b) < -b && -a == (-b) * q + (-a) % (-b)) by (nonlinear_arith)
            requires
                b < 0,
                q == (-a) / (-b),
        ;
        assert(a - b * q == -((-a) % (-b))) by (nonlinear_arith)
            requires
                -a == (-b) * q + (-a) % (-b),
        ;
    }
}

/// The ASCII digit for `d` in `0..10`.
pub open spec fn digit_char(d: int) -> char {
    (48 + d) as char
}

/// Decimal digits of a natural number, most significant first, no leading zeros.
pub open spec fn nat_decimal(n: nat) -> Seq<char>
    decreases n,
{
    if n < 10 {
        seq![digit_char(n as int)]
    } else {
        nat_decimal(n / 10).push(digit_char((n % 10) as int))
    }
}

/// Decimal text of an integer: a `-` before the digits when negative.
pub open spec fn int_decimal(i: int) -> Seq<char> {
    if i < 0 {
        seq!['-'] + nat_decimal((-i) as nat)
    } else {
        nat_decimal(i as nat)
    }
}

/// Value of decimal digits with `_` separators ignored.
pub open spec fn digits_value(s: Seq<char>) -> nat
    decreases s.len(),
{
    if s.len() == 0 {
        0
    } else if s.last() == '_' {
        digits_value(s.drop_last())
    } else {
        (digits_value(s.drop_last()) * 10 + (s.last() as int - 48)) as nat
    }
}

/// An unsigned decimal numeral: at least one character, no leading `_`,
/// only ASCII digits and `_`.
pub open spec fn is_digit_run(s: Seq<char>) -> bool {
    &&& s.len() > 0
    &&& s[0] != '_'
    &&& forall|i: int| 0 <= i < s.len() ==> ('0' <= #[trigger] s[i] <= '9' || s[i] == '_')
}

/// The integer that base-10 parsing of `s` gives: an optional `-` (not followed
/// by `+`) or a single `+`, then a digit run.
pub open spec fn parse_decimal_spec(s: Seq<char>) -> Option<int> {
    if s.len() > 0 && s[0] == '-' {
        let t = s.drop_first();
        if t.len() > 0 && t[0] == '+' {
            None
        } else if is_digit_run(t) {
            Some(-digits_value(t))
        } else {
            None
        }
    } else {
        let t = if s.len() > 0 && s[0] == '+' && !(s.len() > 1 && s[1] == '+') {
            s.drop_first()
        } else {
            s
        };
        if is_digit_run(t) {
            Some(digits_value(t) as int)
        } else {
            None
        }
    }
}

/// An arbitrary-precision signed integer.
pub struct Int {
    bytes: Vec<u8>,
}

impl View for Int {
    type V = int;

    closed spec fn view(&self) -> int {
        le_value(self.bytes@)
    }
}

/// Calls `BigInt::from(u32)`: the number `v`.
#[verifier::external_body]
fn big_from_u32(v: u32) -> (r: Int)
    ensures
        r@ == v as int,
{
    Int { bytes: BigInt::from(v).to_signed_bytes_le() }
}

/// Calls `BigInt::from(u64)`: the number `v`.
#[verifier::external_body]
fn big_from_u64(v: u64) -> (r: Int)
    ensures
        r@ == v as int,
{
    Int { bytes: BigInt::from(v).to_signed_bytes_le() }
}

/// Calls `BigInt::from(i64)`: the number `v`.
#[verifier::external_body]
fn big_from_i64(v: i64) -> (r: Int)
    ensures
        r@ == v as int,
{
    Int { bytes: BigInt::from(v).to_signed_bytes_le() }
}

/// Calls `BigInt + BigInt`: the exact sum.
#[verifier::external_body]
fn big_add(a: &Int, b: &Int) -> (r: Int)
    ensures
        r@ == a@ + b@,
{
    let s = BigInt::from_signed_bytes_le(&a.bytes) + BigInt::from_signed_bytes_le(&b.bytes);
    Int { bytes: s.to_signed_bytes_le() }
}

/// Calls `BigInt - BigInt`: the exact difference.
#[verifier::external_body]
fn big_sub(a: &Int, b: &Int) -> (r: Int)
    ensures
        r@ == a@ - b@,
{
    let s = BigInt::from_signed_bytes_le(&a.bytes) - BigInt::from_signed_bytes_le(&b.bytes);
    Int { bytes: s.to_signed_bytes_le() }
}

/// Calls `BigInt * BigInt`: the exact product.
#[verifier::external_body]
fn big_mul(a: &Int, b: &Int) -> (r: Int)
    ensures
        r@ == a@ * b@,
{
    let s = BigInt::from_signed_bytes_le(&a.bytes) * BigInt::from_signed_bytes_le(&b.bytes);
    Int { bytes: s.to_signed_bytes_le() }
}

/// Calls `Integer::div_floor` of `num_integer` on `BigInt`: the quotient
/// rounded toward negative infinity. It panics on a zero divisor.
#[verifier::external_body]
fn big_div_floor(a: &Int, b: &Int) -> (r: Int)
    requires
        b@ != 0,
    ensures
        r@ == floor_div(a@, b@),
{
    let x = BigInt::from_signed_bytes_le(&a.bytes);
    let y = BigInt::from_signed_bytes_le(&b.bytes);
    Int { bytes: x.div_floor(&y).to_signed_bytes_le() }
}

/// Calls `Integer::mod_floor` of `num_integer` on `BigInt`: the remainder of
/// floor division, with the sign of the divisor. It panics on a zero divisor.
#[verifier::external_body]
fn big_mod_floor(a: &Int, b: &Int) -> (r: Int)
    requires
        b@ != 0,
    ensures
        r@ == floor_mod(a@, b@),
{
    let x = BigInt::from_signed_bytes_le(&a.bytes);
    let y = BigInt::from_signed_bytes_le(&b.bytes);
    Int { bytes: x.mod_floor(&y).to_signed_bytes_le() }
}

/// Calls `BigInt == BigInt`: numeric equality.
#[verifier::external_body]
fn big_eq(a: &Int, b: &Int) -> (r: bool)
    ensures
        r == (a@ == b@),
{
    BigInt::from_signed_bytes_le(&a.bytes) == BigInt::from_signed_bytes_le(&b.bytes)
}

/// Calls `BigInt > BigInt`: numeric order.
#[verifier::external_body]
fn big_gt(a: &Int, b: &Int) -> (r: bool)
    ensures
        r == (a@ > b@),
{
    BigInt::from_signed_bytes_le(&a.bytes) > BigInt::from_signed_bytes_le(&b.bytes)
}

/// Calls `ToPrimitive::to_u32` on `BigInt`: the value when it fits in `u32`.
#[verifier::external_body]
fn big_to_u32(a: &Int) -> (r: Option<u32>)
    ensures
        r is Some <==> 0 <= a@ <= u32::MAX,
        r matches Some(v) ==> v as int == a@,
{
    BigInt::from_signed_bytes_le(&a.bytes).to_u32()
}

/// Calls `ToPrimitive::to_i64` on `BigInt`: the value when it fits in `i64`.
#[verifier::external_body]
fn big_to_i64(a: &Int) -> (r: Option<i64>)
    ensures
        r is Some <==> i64::MIN <= a@ <= i64::MAX,
        r matches Some(v) ==> v as int == a@,
{
    BigInt::from_signed_bytes_le(&a.bytes).to_i64()
}

/// Calls `ToString::to_string` on `BigInt` (its `Display`): the decimal text,
/// with a leading `-` for a negative number.
#[verifier::external_body]
fn big_to_decimal(a: &Int) -> (r: String)
    ensures
        r@ == int_decimal(a@),
{
    BigInt::from_signed_bytes_le(&a.bytes).to_string()
}

/// Calls `str::parse::<BigInt>` (base-10 `FromStr`): the number the text
/// spells, or `None` when it is not a numeral.
#[verifier::external_body]
fn big_parse_decimal(s: &str) -> (r: Option<Int>)
    ensures
        r is Some <==> parse_decimal_spec(s@) is Some,
        r matches Some(v) ==> v@ == parse_decimal_spec(s@)->0,
{
    match s.parse::<BigInt>() {
        Ok(b) => Some(Int { bytes: b.to_signed_bytes_le() }),
        Err(_) => None,
    }
}

impl Int {
    /// The number `v`.
    pub fn from_u32(v: u32) -> (r: Int)
        ensures
            r@ == v as int,
    {
        big_from_u32(v)
    }

    /// The number `v`.
    pub fn from_u64(v: u64) -> (r: Int)
        ensures
            r@ == v as int,
    {
        big_from_u64(v)
    }

    /// The number `v`.
    pub fn from_i64(v: i64) -> (r: Int)
        ensures
            r@ == v as int,
    {
        big_from_i64(v)
    }

    /// Zero.
    pub fn zero() -> (r: Int)
        ensures
            r@ == 0,
    {
        big_from_u32(0)
    }

    /// One.
    pub fn one() -> (r: Int)
        ensures
            r@ == 1,
    {
        big_from_u32(1)
    }

    /// A copy with the same value.
    pub fn copy(&self) -> (r: Int)
        ensures
            r@ == self@,
    {
        let bytes = self.bytes.clone();
        proof {
            assert(bytes@ =~= self.bytes@);
        }
        Int { bytes }
    }

    /// `self + other`.
    pub fn plus(&self, other: &Int) -> (r: Int)
        ensures
            r@ == self@ + other@,
    {
        big_add(self, other)
    }

    /// `self - other`.
    pub fn minus(&self, other: &Int) -> (r: Int)
        ensures
            r@ == self@ - other@,
    {
        big_sub(self, other)
    }

    /// `self * other`.
    pub fn times(&self, other: &Int) -> (r: Int)
        ensures
            r@ == self@ * other@,
    {
        big_mul(self, other)
    }

    /// Quotient of `self` by `other` rounded toward negative infinity.
    pub fn div_floor(&self, other: &Int) -> (r: Int)
        requires
            other@ != 0,
        ensures
            r@ == floor_div(self@, other@),
    {
        big_div_floor(self, other)
    }

    /// Remainder of floor division, with the sign of `other`.
    pub fn mod_floor(&self, other: &Int) -> (r: Int)
        requires
            other@ != 0,
        ensures
            r@ == floor_mod(self@, other@),
    {
        big_mod_floor(self, other)
    }

    /// Whether the value is zero.
    pub fn is_zero(&self) -> (r: bool)
        ensures
            r == (self@ == 0),
    {
        match big_to_u32(self) {
            Some(v) => v == 0,
            None => false,
        }
    }

    /// Whether `self > other`.
    pub fn gt(&self, other: &Int) -> (r: bool)
        ensures
            r == (self@ > other@),
    {
        big_gt(self, other)
    }

    /// Whether the two values are equal.
    pub fn same(&self, other: &Int) -> (r: bool)
        ensures
            r == (self@ == other@),
    {
        big_eq(self, other)
    }

    /// The value as `u32`, when it fits.
    pub fn to_u32(&self) -> (r: Option<u32>)
        ensures
            r is Some <==> 0 <= self@ <= u32::MAX,
            r matches Some(v) ==> v as int == self@,
    {
        big_to_u32(self)
    }

    /// The value as `i64`, when it fits.
    pub fn to_i64(&self) -> (r: Option<i64>)
        ensures
            r is Some <==> i64::MIN <= self@ <= i64::MAX,
            r matches Some(v) ==> v as int == self@,
    {
        big_to_i64(self)
    }

    /// Decimal text of the value.
    pub fn to_decimal(&self) -> (r: String)
        ensures
            r@ == int_decimal(self@),
    {
        big_to_decimal(self)
    }

    /// Parses a base-10 numeral (see `parse_decimal_spec`).
    pub fn parse_decimal(s: &str) -> (r: Option<Int>)
        ensures
            r is Some <==> parse_decimal_spec(s@) is Some,
            r matches Some(v) ==> v@ == parse_decimal_spec(s@)->0,
    {
        big_parse_decimal(s)
    }
}

impl PartialEq for Int {
    fn eq(&self, other: &Int) -> (r: bool) {
        big_eq(self, other)
    }
}

impl vstd::std_specs::cmp::PartialEqSpecImpl for Int {
    open spec fn obeys_eq_spec() -> bool {
        true
    }

    open spec fn eq_spec(&self, other: &Int) -> bool {
        self@ == other@
    }
}

/// `std::fmt::Formatter`, which `Debug` writes to.
#[verifier::external_type_specification]
#[verifier::external_body]
pub struct ExFormatter<'a>(std::fmt::Formatter<'a>);

/// `std::fmt::Error`, the error a formatter reports.
#[verifier::external_type_specification]
#[verifier::external_body]
pub struct ExFmtError(std::fmt::Error);

impl std::fmt::Debug for Int {
    /// Calls `<BigInt as Debug>::fmt`: the number in decimal, as a `BigInt` shows it.
    #[verifier::external_body]
    fn fmt(&self, f: &mut std::fmt::Formatter<'_>) -> std::fmt::Result {
        std::fmt::Debug::fmt(&BigInt::from_signed_bytes_le(&self.bytes), f)
    }
}

impl Clone for Int {
    fn clone(&self) -> (r: Int)
        ensures
            r@ == self@,
    {
        self.copy()
    }
}

} // verus!
