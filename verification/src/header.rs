//! The header: the first line that is not empty names the columns.

use vstd::prelude::*;
use crate::field::{header_name, name_of_cell};
use crate::lines::Lines;
use crate::text::{split, split_chars, texts};

verus! {

/// The column names that the header line `line` gives: one for each piece
/// between separators, blank pieces too.
pub open spec fn header_of(line: Seq<char>, separator: char) -> Seq<Seq<char>> {
    let cells = split(line, separator);
    Seq::new(cells.len(), |i: int| header_name(cells[i], i as nat))
}

/// The position of the first line that is not empty, or `lines.len()` when
/// all are empty.
pub open spec fn first_nonempty(lines: Seq<Seq<char>>) -> nat
    decreases lines.len(),
{
    if lines.len() == 0 || lines.first().len() > 0 {
        0
    } else {
        1 + first_nonempty(lines.drop_first())
    }
}

/// A line that is not empty, with only empty lines before it, is the first.
pub proof fn lemma_first_nonempty_is(lines: Seq<Seq<char>>, k: int)
    requires
        0 <= k <= lines.len(),
        forall|j: int| 0 <= j < k ==> (#[trigger] lines[j]).len() == 0,
        k < lines.len() ==> lines[k].len() > 0,
    ensures
        first_nonempty(lines) == k,
    decreases lines.len(),
{
    if k > 0 {
        let rest = lines.drop_first();
        assert forall|j: int| 0 <= j < k - 1 implies (#[trigger] rest[j]).len() == 0 by {
            assert(rest[j] == lines[j + 1]);
        }
        lemma_first_nonempty_is(rest, k - 1);
    }
}

/// The column names that the header line `line` gives.
pub fn header_from_chars(line: &[char], separator: char) -> (names: Vec<String>)
    ensures
        texts(names@) == header_of(line@, separator),
{
    let cells = split_chars(line, separator);
    let mut names: Vec<String> = Vec::new();
    let mut i: usize = 0;
    while i < cells.len()
        invariant
            i <= cells.len(),
            names.len() == i,
            forall|j: int|
                0 <= j < i ==> (#[trigger] names@[j])@ == header_name(cells@[j]@, j as nat),
        decreases cells.len() - i,
    {
        let name = name_of_cell(cells[i], i);
        names.push(name);
        i += 1;
    }
    assert(texts(names@) =~= header_of(line@, separator));
    names
}

/// Moves `lines` past the first line that is not empty and returns the column
/// names that this line gives. The lines after it stay with the cursor. Where
/// every line is empty, or none is left, the result is `None` and the cursor
/// stands at the end.
pub fn parse_header(lines: &mut Lines, separator: char) -> (r: Option<Vec<String>>)
    ensures
        ({
            let all = old(lines)@;
            let at = first_nonempty(all) as int;
            if at < all.len() {
                &&& r is Some
                &&& texts(r->0@) == header_of(all[at], separator)
                &&& final(lines)@ == all.skip(at + 1)
            } else {
                &&& r is None
                &&& final(lines)@.len() == 0
            }
        }),
{
    let ghost mut passed: int = 0;
    assert(old(lines)@.skip(0) =~= old(lines)@);
    loop
        invariant
            0 <= passed <= old(lines)@.len(),
            lines@ == old(lines)@.skip(passed),
            forall|j: int| 0 <= j < passed ==> (#[trigger] old(lines)@[j]).len() == 0,
        decreases lines@.len(),
    {
        match lines.next_chars() {
            None => {
                proof {
                    lemma_first_nonempty_is(old(lines)@, passed);
                }
                return None;
            },
            Some(line) => {
                assert(line@ == old(lines)@[passed]);
                assert(old(lines)@.skip(passed).drop_first() =~= old(lines)@.skip(passed + 1));
                if line.len() > 0 {
                    proof {
                        lemma_first_nonempty_is(old(lines)@, passed);
                    }
                    return Some(header_from_chars(line.as_slice(), separator));
                }
                proof {
                    passed = passed + 1;
                }
            },
        }
    }
}

} // verus!
