//! Scalar values and the rule that tells the type of a field from its text.

use vstd::prelude::*;
use crate::number::{integer_of, is_float, is_float_syntax, parse_integer};
use crate::text::{chars_to_string, to_chars, trim, trim_chars};

verus! {

/// A value read from one field.
#[derive(Debug)]
pub enum CsvValue {
    /// Text that is no number, without the white space around it.
    Text(String),
    /// A whole number that fits 64 bits.
    Integer(i64),
    /// A floating-point literal in decimal or exponent notation as it was
    /// written, without the white space around it. Which number it denotes
    /// is for the caller to compute.
    Float(String),
}

/// What a `CsvValue` stands for.
pub enum Scalar {
    Text(Seq<char>),
    Integer(int),
    Float(Seq<char>),
}

impl View for CsvValue {
    type V = Scalar;

    open spec fn view(&self) -> Scalar {
        match self {
            CsvValue::Text(text) => Scalar::Text(text@),
            CsvValue::Integer(number) => Scalar::Integer(*number as int),
            CsvValue::Float(literal) => Scalar::Float(literal@),
        }
    }
}

/// The view of a value that may be absent.
pub open spec fn scalar_of(value: Option<CsvValue>) -> Option<Scalar> {
    match value {
        Some(v) => Some(v@),
        None => None,
    }
}

/// The value of a field with the text `raw`. A blank field has none. The
/// first rule that fits decides: an integer literal that fits 64 bits is an
/// integer; a floating-point literal, and an integer literal that does not
/// fit, is a float; anything else is text.
pub open spec fn classify(raw: Seq<char>) -> Option<Scalar> {
    let t = trim(raw);
    if t.len() == 0 {
        None
    } else if integer_of(t) is Some {
        Some(Scalar::Integer(integer_of(t)->0 as int))
    } else if is_float_syntax(t) {
        Some(Scalar::Float(t))
    } else {
        Some(Scalar::Text(t))
    }
}

/// The value of the field `raw`.
pub fn classify_chars(raw: &[char]) -> (r: Option<CsvValue>)
    ensures
        scalar_of(r) == classify(raw@),
{
    let t = trim_chars(raw);
    if t.len() == 0 {
        return None;
    }
    if let Some(number) = parse_integer(t) {
        return Some(CsvValue::Integer(number));
    }
    if is_float(t) {
        Some(CsvValue::Float(chars_to_string(t)))
    } else {
        Some(CsvValue::Text(chars_to_string(t)))
    }
}

/// The value of the field `value`: none when it is blank, else an integer, a
/// float or text, whichever `classify` names.
pub fn parse_value(value: &str) -> (r: Option<CsvValue>)
    ensures
        scalar_of(r) == classify(value@),
{
    let chars = to_chars(value);
    classify_chars(chars.as_slice())
}

} // verus!
