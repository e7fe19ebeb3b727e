//! What holds of the parser on every input, proved from the definitions that
//! the contracts of its functions are stated in.

use vstd::prelude::*;
use crate::field::{field_name, synthetic_name};
use crate::header::{first_nonempty, header_of, lemma_first_nonempty_is};
use crate::number::{
    integer_of, integer_value, is_digit, is_float_syntax, is_integer_syntax, is_number_char,
    lemma_float_syntax_chars, lemma_integer_syntax_is_float_syntax, unsigned,
};
use crate::lines::lines_of;
use crate::parse::{rows_of, table_of};
use crate::record::{record, row_of};
use crate::text::{
    is_blank, join, lemma_split_join, lemma_trim_idempotent, lemma_trim_keeps_absent, trim,
};
use crate::value::{classify, Scalar};

verus! {

/// A header cell that is not blank names its column by its own text, without
/// the white space around it. The header has one name for each cell.
pub proof fn header_cell_names_its_column(cells: Seq<Seq<char>>, separator: char, i: int)
    requires
        cells.len() > 0,
        forall|j: int| 0 <= j < cells.len() ==> !(#[trigger] cells[j]).contains(separator),
        0 <= i < cells.len(),
        !is_blank(cells[i]),
    ensures
        header_of(join(cells, separator), separator).len() == cells.len(),
        header_of(join(cells, separator), separator)[i] == trim(cells[i]),
{
    lemma_split_join(cells, separator);
}

/// A blank header cell leaves the naming of its column to its position: the
/// cell at `i`, counted from zero, gives two underscores and `i + 1`.
pub proof fn blank_header_cell_gets_synthetic_name(cells: Seq<Seq<char>>, separator: char, i: int)
    requires
        cells.len() > 0,
        forall|j: int| 0 <= j < cells.len() ==> !(#[trigger] cells[j]).contains(separator),
        0 <= i < cells.len(),
        is_blank(cells[i]),
    ensures
        header_of(join(cells, separator), separator)[i] == synthetic_name((i + 1) as nat),
{
    lemma_split_join(cells, separator);
}

/// After any number of empty lines, the first line that is not empty is the
/// header line, and the lines behind it are what is left for the rows, in
/// their order.
pub proof fn header_is_first_nonempty_line(
    empty: Seq<Seq<char>>,
    header_line: Seq<char>,
    rest: Seq<Seq<char>>,
)
    requires
        forall|j: int| 0 <= j < empty.len() ==> (#[trigger] empty[j]).len() == 0,
        header_line.len() > 0,
    ensures
        ({
            let lines = empty + seq![header_line] + rest;
            let at = first_nonempty(lines) as int;
            &&& at == empty.len()
            &&& lines[at] == header_line
            &&& lines.skip(at + 1) == rest
        }),
{
    let lines = empty + seq![header_line] + rest;
    assert forall|j: int| 0 <= j < empty.len() implies (#[trigger] lines[j]).len() == 0 by {
        assert(lines[j] == empty[j]);
    }
    lemma_first_nonempty_is(lines, empty.len() as int);
    assert(lines.skip(empty.len() as int + 1) =~= rest);
}

/// An empty line in front of a text changes nothing: the header and the rows
/// are those of the text without it.
pub proof fn leading_empty_line_changes_nothing(text: Seq<char>, separator: char)
    ensures
        table_of(seq!['\n'] + text, separator) == table_of(text, separator),
{
    let longer = seq!['\n'] + text;
    let lines = lines_of(text);
    let empty = Seq::<char>::empty();
    assert(longer.take(0) =~= empty);
    assert(longer.skip(1) =~= text);
    assert(lines_of(longer) == seq![empty] + lines);
    assert(lines_of(longer).drop_first() =~= lines);
    let at = first_nonempty(lines) as int;
    if at < lines.len() {
        assert(lines_of(longer).skip(at + 2) =~= lines.skip(at + 1));
    }
}

/// Any number of empty lines in front of a text changes nothing.
pub proof fn leading_empty_lines_change_nothing(count: nat, text: Seq<char>, separator: char)
    ensures
        table_of(Seq::new(count, |i: int| '\n') + text, separator) == table_of(text, separator),
    decreases count,
{
    let longer = Seq::new(count, |i: int| '\n') + text;
    if count == 0 {
        assert(longer =~= text);
    } else {
        let shorter = Seq::new((count - 1) as nat, |i: int| '\n') + text;
        leading_empty_lines_change_nothing((count - 1) as nat, text, separator);
        leading_empty_line_changes_nothing(shorter, separator);
        assert(longer =~= seq!['\n'] + shorter);
    }
}

/// A field that holds an integer literal whose value fits 64 bits is an
/// integer with exactly that value.
pub proof fn integer_literal_is_integer(raw: Seq<char>)
    requires
        is_integer_syntax(trim(raw)),
        i64::MIN <= integer_value(trim(raw)) <= i64::MAX,
    ensures
        classify(raw) == Some(Scalar::Integer(integer_value(trim(raw)))),
{
}

/// A field that holds a floating-point literal which is no integer that fits
/// 64 bits is a float, and keeps the literal.
pub proof fn float_literal_is_float(raw: Seq<char>)
    requires
        is_float_syntax(trim(raw)),
        integer_of(trim(raw)) is None,
    ensures
        classify(raw) == Some(Scalar::Float(trim(raw))),
{
    lemma_float_syntax_chars(trim(raw));
}

/// A float is written in decimal or exponent notation: with digits, signs,
/// `.` and `e` only, and behind its sign with a digit or `.` first. So no name
/// of a value that is no number, `nan` or `inf` say, is ever a float.
pub proof fn float_is_written_as_a_number(raw: Seq<char>)
    requires
        classify(raw) is Some,
        classify(raw)->0 is Float,
    ensures
        classify(raw) == Some(Scalar::Float(trim(raw))),
        unsigned(trim(raw)).len() > 0,
        is_digit(unsigned(trim(raw)).first()) || unsigned(trim(raw)).first() == '.',
        forall|i: int| 0 <= i < trim(raw).len() ==> is_number_char(#[trigger] trim(raw)[i]),
{
    lemma_float_syntax_chars(trim(raw));
}

/// A field that is not blank and holds no number is text: its own, without
/// the white space around it.
pub proof fn other_field_is_text(raw: Seq<char>)
    requires
        !is_blank(raw),
        !is_float_syntax(trim(raw)),
    ensures
        classify(raw) == Some(Scalar::Text(trim(raw))),
{
    if is_integer_syntax(trim(raw)) {
        lemma_integer_syntax_is_float_syntax(trim(raw));
    }
}

/// A field has no value exactly when it is blank.
pub proof fn blank_field_has_no_value(raw: Seq<char>)
    ensures
        classify(raw) is None <==> is_blank(raw),
{
}

/// White space around a field does not change its value.
pub proof fn trimming_keeps_value(raw: Seq<char>)
    ensures
        classify(trim(raw)) == classify(raw),
{
    lemma_trim_idempotent(raw);
}

/// A row has a name exactly where a field that is not blank stands in the
/// column of that name: blank fields leave no entry.
pub proof fn row_holds_the_fields_with_a_value(
    cells: Seq<Seq<char>>,
    header: Seq<Seq<char>>,
    name: Seq<char>,
)
    ensures
        record(cells, header).contains_key(name) <==> exists|i: int|
            0 <= i < cells.len() && classify(#[trigger] cells[i]) is Some && field_name(
                header,
                i as nat,
            ) == name,
    decreases cells.len(),
{
    if cells.len() > 0 {
        let before = cells.drop_last();
        let last = cells.len() - 1;
        row_holds_the_fields_with_a_value(before, header, name);
        if record(before, header).contains_key(name) {
            let i = choose|i: int|
                0 <= i < before.len() && classify(#[trigger] before[i]) is Some && field_name(
                    header,
                    i as nat,
                ) == name;
            assert(cells[i] == before[i]);
        }
        if exists|i: int|
            0 <= i < cells.len() && classify(#[trigger] cells[i]) is Some && field_name(
                header,
                i as nat,
            ) == name {
            let i = choose|i: int|
                0 <= i < cells.len() && classify(#[trigger] cells[i]) is Some && field_name(
                    header,
                    i as nat,
                ) == name;
            if i < last {
                assert(before[i] == cells[i]);
            }
        }
    }
}

/// The value under a name is that of the last field with a value in a column
/// of that name.
pub proof fn row_keeps_the_last_value(cells: Seq<Seq<char>>, header: Seq<Seq<char>>, i: int)
    requires
        0 <= i < cells.len(),
        classify(cells[i]) is Some,
        forall|j: int|
            i < j < cells.len() && classify(#[trigger] cells[j]) is Some ==> field_name(
                header,
                j as nat,
            ) != field_name(header, i as nat),
    ensures
        record(cells, header)[field_name(header, i as nat)] == classify(cells[i])->0,
    decreases cells.len(),
{
    let last = cells.len() - 1;
    if i < last {
        let before = cells.drop_last();
        assert forall|j: int|
            i < j < before.len() && classify(#[trigger] before[j]) is Some implies field_name(
            header,
            j as nat,
        ) != field_name(header, i as nat) by {
            assert(before[j] == cells[j]);
        }
        row_keeps_the_last_value(before, header, i);
    }
}

/// The same fields give the same row, with or without the white space around
/// each of them.
proof fn record_ignores_white_space(cells: Seq<Seq<char>>, header: Seq<Seq<char>>)
    ensures
        record(cells.map_values(|cell: Seq<char>| trim(cell)), header) == record(cells, header),
    decreases cells.len(),
{
    let trimmed = cells.map_values(|cell: Seq<char>| trim(cell));
    if cells.len() > 0 {
        record_ignores_white_space(cells.drop_last(), header);
        assert(trimmed.drop_last() =~= cells.drop_last().map_values(|cell: Seq<char>| trim(cell)));
        assert(trimmed.last() == trim(cells.last()));
        trimming_keeps_value(cells.last());
    }
}

/// Reading a line again after each of its fields was trimmed, and the fields
/// were joined by the separator, gives the same row: the same names with the
/// same values of the same types.
pub proof fn reading_trimmed_fields_gives_same_row(
    cells: Seq<Seq<char>>,
    separator: char,
    header: Seq<Seq<char>>,
)
    requires
        cells.len() > 0,
        forall|j: int| 0 <= j < cells.len() ==> !(#[trigger] cells[j]).contains(separator),
    ensures
        row_of(join(cells.map_values(|cell: Seq<char>| trim(cell)), separator), separator, header)
            == row_of(join(cells, separator), separator, header),
{
    let trimmed = cells.map_values(|cell: Seq<char>| trim(cell));
    assert forall|j: int| 0 <= j < trimmed.len() implies !(#[trigger] trimmed[j]).contains(
        separator,
    ) by {
        lemma_trim_keeps_absent(cells[j], separator);
    }
    lemma_split_join(cells, separator);
    lemma_split_join(trimmed, separator);
    record_ignores_white_space(cells, header);
}

/// There are as many rows as lines that are not blank.
pub proof fn one_row_for_each_line_not_blank(
    lines: Seq<Seq<char>>,
    separator: char,
    header: Seq<Seq<char>>,
)
    ensures
        rows_of(lines, separator, header).len() == lines.filter(
            |line: Seq<char>| !is_blank(line),
        ).len(),
    decreases lines.len(),
{
    let keep = |line: Seq<char>| !is_blank(line);
    if lines.len() == 0 {
        assert(lines.filter(keep).len() == 0) by {
            lines.lemma_filter_len(keep);
        }
    } else {
        let before = lines.drop_last();
        one_row_for_each_line_not_blank(before, separator, header);
        before.lemma_filter_len_push(keep, lines.last());
        assert(before.push(lines.last()) =~= lines);
    }
}

} // verus!
