//! Lines of a text, and a cursor that hands them out one at a time.

use vstd::prelude::*;
use vstd::slice::{slice_subrange, slice_to_vec};
use crate::text::{chars_to_string, find_char, first_index, to_chars};

verus! {

/// `line` without the carriage return that may end it.
pub open spec fn strip_carriage_return(line: Seq<char>) -> Seq<char> {
    if line.len() > 0 && line.last() == '\r' {
        line.drop_last()
    } else {
        line
    }
}

/// The lines of `text`. A line ends at a line feed, or at a carriage return
/// directly followed by one; neither belongs to the line. What follows the
/// last line feed is a line too, unless it is empty.
pub open spec fn lines_of(text: Seq<char>) -> Seq<Seq<char>>
    decreases text.len(),
{
    let end = first_index(text, '\n') as int;
    if text.len() == 0 {
        Seq::empty()
    } else if end >= text.len() {
        seq![text]
    } else {
        seq![strip_carriage_return(text.take(end))] + lines_of(text.skip(end + 1))
    }
}

/// A cursor over the lines of a text. It only moves forward.
#[derive(Debug)]
pub struct Lines {
    chars: Vec<char>,
    position: usize,
}

impl View for Lines {
    type V = Seq<Seq<char>>;

    /// The lines that the cursor has not handed out yet.
    closed spec fn view(&self) -> Seq<Seq<char>> {
        lines_of(self.chars@.skip(self.position as int))
    }
}

impl Lines {
    #[verifier::type_invariant]
    spec fn well_formed(self) -> bool {
        self.position <= self.chars.len()
    }

    /// A cursor in front of the first line of `input`.
    pub fn new(input: &str) -> (r: Lines)
        ensures
            r@ == lines_of(input@),
    {
        let chars = to_chars(input);
        assert(chars@.skip(0) =~= chars@);
        Lines { chars, position: 0 }
    }

    /// The next line, as characters; `None` when no line is left.
    pub fn next_chars(&mut self) -> (r: Option<Vec<char>>)
        ensures
            old(self)@.len() == 0 ==> r is None && final(self)@ == old(self)@,
            old(self)@.len() > 0 ==> r is Some && r->0@ == old(self)@.first() && final(self)@
                == old(self)@.drop_first(),
    {
        proof {
            use_type_invariant(&*self);
        }
        let total: usize = self.chars.len();
        if self.position >= total {
            return None;
        }
        let rest = slice_subrange(self.chars.as_slice(), self.position, total);
        assert(rest@ =~= self.chars@.skip(self.position as int));
        let end: usize = find_char(rest, '\n');
        if end >= rest.len() {
            let line = slice_to_vec(rest);
            self.position = total;
            assert(self.chars@.skip(total as int).len() == 0);
            assert((seq![rest@]).drop_first() =~= Seq::<Seq<char>>::empty());
            Some(line)
        } else {
            let stop: usize = if end > 0 && rest[end - 1] == '\r' {
                (end - 1) as usize
            } else {
                end
            };
            let line = slice_to_vec(slice_subrange(rest, 0, stop));
            proof {
                let whole = strip_carriage_return(rest@.take(end as int));
                let tail = lines_of(rest@.skip(end + 1));
                assert(rest@.subrange(0, stop as int) =~= whole);
                assert(rest@.skip(end + 1) =~= self.chars@.skip(self.position + end + 1));
                assert((seq![whole] + tail).drop_first() =~= tail);
            }
            self.position = self.position + end + 1;
            Some(line)
        }
    }

    /// The next line; `None` when no line is left.
    pub fn next(&mut self) -> (r: Option<String>)
        ensures
            old(self)@.len() == 0 ==> r is None && final(self)@ == old(self)@,
            old(self)@.len() > 0 ==> r is Some && r->0@ == old(self)@.first() && final(self)@
                == old(self)@.drop_first(),
    {
        match self.next_chars() {
            Some(line) => Some(chars_to_string(line.as_slice())),
            None => None,
        }
    }
}

} // verus!
