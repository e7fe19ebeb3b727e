//! The whole pass: header first, then one row for each line that is not
//! blank.

use vstd::prelude::*;
use crate::header::{first_nonempty, header_of, parse_header};
use crate::lines::{lines_of, Lines};
use crate::record::{row_from_chars, row_of};
use crate::row::Row;
use crate::text::{is_blank, texts, trim, trim_chars};
use crate::value::Scalar;

verus! {

/// The rows that the lines `lines` give under `header`, in the order of the
/// lines. A line is trimmed before it is cut into fields, and a blank line
/// gives no row.
pub open spec fn rows_of(lines: Seq<Seq<char>>, separator: char, header: Seq<Seq<char>>) -> Seq<
    Map<Seq<char>, Scalar>,
>
    decreases lines.len(),
{
    if lines.len() == 0 {
        Seq::empty()
    } else {
        let before = rows_of(lines.drop_last(), separator, header);
        if is_blank(lines.last()) {
            before
        } else {
            before.push(row_of(trim(lines.last()), separator, header))
        }
    }
}

/// The rows of `text`: the first line that is not empty is the header, and the
/// lines after it give the rows. A text without such a line has no rows.
pub open spec fn table_of(text: Seq<char>, separator: char) -> Seq<Map<Seq<char>, Scalar>> {
    let lines = lines_of(text);
    let at = first_nonempty(lines) as int;
    if at < lines.len() {
        rows_of(lines.skip(at + 1), separator, header_of(lines[at], separator))
    } else {
        Seq::empty()
    }
}

/// The views of a sequence of rows.
pub open spec fn views(rows: Seq<Row>) -> Seq<Map<Seq<char>, Scalar>> {
    rows.map_values(|row: Row| row@)
}

/// Reads `input` as lines of fields that `separator` parts. The result has
/// one row for each line after the header that is not blank, in the order of
/// the lines; it is empty where `input` has no header.
pub fn parse_csv(input: &str, separator: char) -> (rows: Vec<Row>)
    ensures
        views(rows@) == table_of(input@, separator),
{
    let mut output: Vec<Row> = Vec::new();
    let mut lines = Lines::new(input);
    assert(views(output@) =~= Seq::empty());
    if let Some(fields) = parse_header(&mut lines, separator) {
        let ghost data = lines@;
        let ghost header = texts(fields@);
        let ghost mut done: int = 0;
        assert(data.skip(0) =~= data);
        loop
            invariant_except_break
                0 <= done <= data.len(),
                lines@ == data.skip(done),
            invariant
                header == texts(fields@),
                views(output@) == rows_of(data.take(done), separator, header),
            ensures
                done == data.len(),
            decreases lines@.len(),
        {
            match lines.next_chars() {
                None => {
                    break ;
                },
                Some(line) => {
                    let trimmed = trim_chars(line.as_slice());
                    proof {
                        assert(line@ == data[done]);
                        assert(data.skip(done).drop_first() =~= data.skip(done + 1));
                        assert(data.take(done + 1).drop_last() =~= data.take(done));
                    }
                    if trimmed.len() > 0 {
                        let row = row_from_chars(trimmed, separator, fields.as_slice());
                        assert(views(output@.push(row)) =~= views(output@).push(row@));
                        output.push(row);
                    }
                    proof {
                        done = done + 1;
                    }
                },
            }
        }
        assert(data.take(done) =~= data);
    }
    output
}

} // verus!
