//! Reading one line of values into a row.

use vstd::prelude::*;
use crate::field::{field_name, get_value_field};
use crate::row::Row;
use crate::text::{pieces, split, split_chars, texts, to_chars};
use crate::value::{classify, classify_chars, Scalar};

verus! {

/// The row that the fields `cells` give under `header`. Each field that is
/// not blank stands under the name of its column; where two columns have one
/// name, the later field wins.
pub open spec fn record(cells: Seq<Seq<char>>, header: Seq<Seq<char>>) -> Map<Seq<char>, Scalar>
    decreases cells.len(),
{
    if cells.len() == 0 {
        Map::empty()
    } else {
        let before = record(cells.drop_last(), header);
        let index = (cells.len() - 1) as nat;
        match classify(cells.last()) {
            Some(value) => before.insert(field_name(header, index), value),
            None => before,
        }
    }
}

/// The row that `line` gives under `header`, its fields being the pieces
/// between separators.
pub open spec fn row_of(line: Seq<char>, separator: char, header: Seq<Seq<char>>) -> Map<
    Seq<char>,
    Scalar,
> {
    record(split(line, separator), header)
}

/// The row that `line` gives under the header `fields`.
pub fn row_from_chars(line: &[char], separator: char, fields: &[String]) -> (row: Row)
    ensures
        row@ == row_of(line@, separator, texts(fields@)),
{
    let cells = split_chars(line, separator);
    let mut row = Row::new();
    let mut i: usize = 0;
    while i < cells.len()
        invariant
            i <= cells.len(),
            row@ == record(pieces(cells@).take(i as int), texts(fields@)),
        decreases cells.len() - i,
    {
        assert(pieces(cells@).take(i + 1).drop_last() =~= pieces(cells@).take(i as int));
        if let Some(value) = classify_chars(cells[i]) {
            row.insert(get_value_field(fields, i), value);
        }
        i += 1;
    }
    assert(pieces(cells@).take(i as int) =~= pieces(cells@));
    row
}

/// The row that `line` gives under the header `fields`: the line is cut at
/// each separator, and each field that is not blank stands under the name of
/// its column. A column beyond the header gets its made-up name.
pub fn parse_value_line(line: &str, separator: char, fields: &[String]) -> (row: Row)
    ensures
        row@ == row_of(line@, separator, texts(fields@)),
{
    let chars = to_chars(line);
    row_from_chars(chars.as_slice(), separator, fields)
}

} // verus!
