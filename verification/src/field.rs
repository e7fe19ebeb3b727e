//! Field names: the name that a header cell gives, and the name made up for a
//! column that has none.

use vstd::prelude::*;
use crate::number::{decimal, decimal_digits};
use crate::text::{chars_to_string, texts, to_chars, trim, trim_chars};

verus! {

/// The name made up for the column at `position`, counted from one: two
/// underscores and the position in decimal.
pub open spec fn synthetic_name(position: nat) -> Seq<char> {
    seq!['_', '_'] + decimal(position)
}

/// The name that the header cell `cell` gives to the column at `index`,
/// counted from zero: the cell without the white space around it, or the
/// made-up name where the cell is blank.
pub open spec fn header_name(cell: Seq<char>, index: nat) -> Seq<char> {
    if trim(cell).len() == 0 {
        synthetic_name(index + 1)
    } else {
        trim(cell)
    }
}

/// The name of the column at `index`, counted from zero: the header's entry
/// where it has one, else the made-up name.
pub open spec fn field_name(header: Seq<Seq<char>>, index: nat) -> Seq<char> {
    if index < header.len() {
        header[index as int]
    } else {
        synthetic_name(index + 1)
    }
}

/// The made-up name of the column at `index`, counted from zero.
pub fn make_synthetic_name(index: usize) -> (r: String)
    ensures
        r@ == synthetic_name((index + 1) as nat),
{
    let digits = decimal_digits(index as u128 + 1);
    let mut name: Vec<char> = Vec::new();
    name.push('_');
    name.push('_');
    let mut i: usize = 0;
    while i < digits.len()
        invariant
            i <= digits.len(),
            name@ == seq!['_', '_'] + digits@.take(i as int),
        decreases digits.len() - i,
    {
        name.push(digits[i]);
        i += 1;
    }
    assert(digits@.take(digits.len() as int) =~= digits@);
    chars_to_string(name.as_slice())
}

/// The name that the cell `key` gives to the column at `index`.
pub fn name_of_cell(key: &[char], index: usize) -> (r: String)
    ensures
        r@ == header_name(key@, index as nat),
{
    let trimmed = trim_chars(key);
    if trimmed.len() == 0 {
        make_synthetic_name(index)
    } else {
        chars_to_string(trimmed)
    }
}

/// The name that the header cell `key` gives to a column, where `len` columns
/// stand before it.
pub fn handle_new_key(key: &str, len: usize) -> (r: String)
    ensures
        r@ == header_name(key@, len as nat),
{
    let chars = to_chars(key);
    name_of_cell(chars.as_slice(), len)
}

/// The name of the column at `index`, counted from zero, under the header
/// `fields`.
pub fn get_value_field(fields: &[String], index: usize) -> (r: String)
    ensures
        r@ == field_name(texts(fields@), index as nat),
{
    if index < fields.len() {
        fields[index].clone()
    } else {
        make_synthetic_name(index)
    }
}

} // verus!
