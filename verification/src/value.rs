use rustc_apfloat::Float;
use vstd::prelude::*;

verus! {

/// A runtime value: the raw bit pattern of an IEEE-754 double-precision
/// number. The verified code never does floating-point arithmetic itself;
/// it moves these bit patterns around, and the four binary operations and
/// literal parsing are delegated to `rustc_apfloat`, a software
/// implementation of IEEE-754 with an integer interface.
pub type Value = u64;

/// The sign bit of an IEEE-754 double-precision bit pattern.
pub const VALUE_SIGN_BIT: u64 = 0x8000_0000_0000_0000;

pub uninterp spec fn add_bits(a: u64, b: u64) -> u64;

pub uninterp spec fn sub_bits(a: u64, b: u64) -> u64;

pub uninterp spec fn mul_bits(a: u64, b: u64) -> u64;

pub uninterp spec fn div_bits(a: u64, b: u64) -> u64;

pub uninterp spec fn bits_of_lexeme(s: Seq<u8>) -> u64;

pub uninterp spec fn rendered_value(v: u64) -> Seq<char>;

/// IEEE-754 negation is exactly a flip of the sign bit, for every operand
/// including zeroes, infinities and NaNs, so it needs no outside call.
pub open spec fn neg_bits(a: u64) -> u64 {
    a ^ VALUE_SIGN_BIT
}

/// Relies on rustc_apfloat's `Double` addition (`Float::add_r` with
/// round-to-nearest-even), a deterministic function of the two bit patterns.
#[verifier::external_body]
pub(crate) fn value_add(a: u64, b: u64) -> (r: u64)
    ensures
        r == add_bits(a, b),
{
    let x = rustc_apfloat::ieee::Double::from_bits(a as u128);
    let y = rustc_apfloat::ieee::Double::from_bits(b as u128);
    (x + y).value.to_bits() as u64
}

/// Relies on rustc_apfloat's `Double` subtraction (`Float::sub_r` with
/// round-to-nearest-even), a deterministic function of the two bit patterns.
#[verifier::external_body]
pub(crate) fn value_sub(a: u64, b: u64) -> (r: u64)
    ensures
        r == sub_bits(a, b),
{
    let x = rustc_apfloat::ieee::Double::from_bits(a as u128);
    let y = rustc_apfloat::ieee::Double::from_bits(b as u128);
    (x - y).value.to_bits() as u64
}

/// Relies on rustc_apfloat's `Double` multiplication (`Float::mul_r` with
/// round-to-nearest-even), a deterministic function of the two bit patterns.
#[verifier::external_body]
pub(crate) fn value_mul(a: u64, b: u64) -> (r: u64)
    ensures
        r == mul_bits(a, b),
{
    let x = rustc_apfloat::ieee::Double::from_bits(a as u128);
    let y = rustc_apfloat::ieee::Double::from_bits(b as u128);
    (x * y).value.to_bits() as u64
}

/// Relies on rustc_apfloat's `Double` division (`Float::div_r` with
/// round-to-nearest-even), a deterministic function of the two bit patterns.
/// Division by zero follows IEEE-754 (an infinity or NaN), never an error.
#[verifier::external_body]
pub(crate) fn value_div(a: u64, b: u64) -> (r: u64)
    ensures
        r == div_bits(a, b),
{
    let x = rustc_apfloat::ieee::Double::from_bits(a as u128);
    let y = rustc_apfloat::ieee::Double::from_bits(b as u128);
    (x / y).value.to_bits() as u64
}

/// Negate a value by flipping its sign bit, the IEEE-754 negation.
pub fn value_negate(a: u64) -> (r: u64)
    ensures
        r == neg_bits(a),
{
    a ^ VALUE_SIGN_BIT
}

/// Relies on rustc_apfloat's `Double::from_str` (correctly rounded decimal
/// conversion), a deterministic function of the byte sequence alone.
#[verifier::external_body]
pub(crate) fn value_of_lexeme(lexeme: &[u8]) -> (r: u64)
    ensures
        r == bits_of_lexeme(lexeme@),
{
    let s = core::str::from_utf8(lexeme).unwrap_or("0");
    match <rustc_apfloat::ieee::Double as core::str::FromStr>::from_str(s) {
        Ok(v) => v.to_bits() as u64,
        Err(_) => 0,
    }
}

/// Relies on rustc_apfloat's `Display` for `Double`, a deterministic
/// rendering of the bit pattern as decimal text.
#[verifier::external_body]
pub(crate) fn render_value(v: u64) -> (s: String)
    ensures
        s@ == rendered_value(v),
{
    format!("{}", rustc_apfloat::ieee::Double::from_bits(v as u128))
}

/// The constant pool: an ordered, append-only list of values.
#[derive(Debug, Clone)]
pub struct ValueArray {
    pub values: Vec<Value>,
}

impl ValueArray {
    pub fn init_value_array() -> (va: ValueArray)
        ensures
            va.values@ == Seq::<Value>::empty(),
    {
        ValueArray { values: Vec::new() }
    }

    pub fn write_value_array(&mut self, value: Value)
        ensures
            final(self).values@ == old(self).values@.push(value),
    {
        self.values.push(value);
    }
}

} // verus!
