//! Numbers as text: decimal numerals, integer literals that fit 64 bits, and
//! the syntax of floating-point literals.

use vstd::prelude::*;
use vstd::slice::slice_subrange;

verus! {

pub open spec fn is_digit(c: char) -> bool {
    0x30 <= c as u32 <= 0x39
}

/// The number that the digit `c` stands for.
pub open spec fn digit_value(c: char) -> nat {
    (c as u32 - 0x30) as nat
}

/// The digit that stands for `d`, for `d` below ten.
pub open spec fn digit_char(d: nat) -> char {
    (d + 0x30) as char
}

pub open spec fn all_digits(s: Seq<char>) -> bool {
    forall|i: int| 0 <= i < s.len() ==> is_digit(#[trigger] s[i])
}

/// The decimal numeral of `n`, without leading zeros.
pub open spec fn decimal(n: nat) -> Seq<char>
    decreases n,
{
    if n < 10 {
        seq![digit_char(n)]
    } else {
        decimal(n / 10).push(digit_char(n % 10))
    }
}

/// The number that a sequence of digits denotes; leading zeros count for
/// nothing.
pub open spec fn digits_value(s: Seq<char>) -> nat
    decreases s.len(),
{
    if s.len() == 0 {
        0
    } else {
        digits_value(s.drop_last()) * 10 + digit_value(s.last())
    }
}

pub open spec fn is_sign(c: char) -> bool {
    c == '+' || c == '-'
}

/// `s` without the sign that may stand in front of it.
pub open spec fn unsigned(s: Seq<char>) -> Seq<char> {
    if s.len() > 0 && is_sign(s.first()) {
        s.drop_first()
    } else {
        s
    }
}

/// An integer literal is one or more digits, with or without a `-` in front.
/// A `+` is not part of it.
pub open spec fn is_integer_syntax(s: Seq<char>) -> bool {
    if s.len() > 0 && s.first() == '-' {
        s.len() > 1 && all_digits(s.drop_first())
    } else {
        s.len() > 0 && all_digits(s)
    }
}

/// The number that an integer literal denotes.
pub open spec fn integer_value(s: Seq<char>) -> int {
    if s.len() > 0 && s.first() == '-' {
        -(digits_value(s.drop_first()) as int)
    } else {
        digits_value(s) as int
    }
}

/// The value of `s` read as a signed 64-bit integer: `None` when `s` is no
/// integer literal, and also when its value does not fit.
pub open spec fn integer_of(s: Seq<char>) -> Option<i64> {
    if is_integer_syntax(s) && i64::MIN <= integer_value(s) <= i64::MAX {
        Some(integer_value(s) as i64)
    } else {
        None
    }
}

/// How many digits `s` starts with.
pub open spec fn leading_digits(s: Seq<char>) -> nat
    decreases s.len(),
{
    if s.len() > 0 && is_digit(s.first()) {
        1 + leading_digits(s.drop_first())
    } else {
        0
    }
}

/// An exponent: `e` or `E`, then a sign or none, then one or more digits.
pub open spec fn is_exponent(s: Seq<char>) -> bool {
    &&& s.len() > 0
    &&& (s.first() == 'e' || s.first() == 'E')
    &&& unsigned(s.drop_first()).len() > 0
    &&& all_digits(unsigned(s.drop_first()))
}

/// A number without sign: digits with at most one `.` among, before or after
/// them, and at least one digit; then an exponent or nothing.
pub open spec fn is_number(s: Seq<char>) -> bool {
    let whole = leading_digits(s) as int;
    let rest = s.skip(whole);
    if rest.len() > 0 && rest.first() == '.' {
        let fraction = leading_digits(rest.drop_first()) as int;
        let tail = rest.drop_first().skip(fraction);
        whole + fraction > 0 && (tail.len() == 0 || is_exponent(tail))
    } else {
        whole > 0 && (rest.len() == 0 || is_exponent(rest))
    }
}

/// A floating-point literal: a sign or none, then a number in decimal or
/// exponent notation. Names such as `inf` and `nan` are no literals.
pub open spec fn is_float_syntax(s: Seq<char>) -> bool {
    is_number(unsigned(s))
}

/// The characters that a floating-point literal is written with.
pub open spec fn is_number_char(c: char) -> bool {
    is_digit(c) || is_sign(c) || c == '.' || c == 'e' || c == 'E'
}

pub proof fn lemma_leading_digits_bounds(s: Seq<char>)
    ensures
        leading_digits(s) <= s.len(),
        forall|j: int| 0 <= j < leading_digits(s) ==> is_digit(#[trigger] s[j]),
        leading_digits(s) < s.len() ==> !is_digit(s[leading_digits(s) as int]),
    decreases s.len(),
{
    if s.len() > 0 && is_digit(s.first()) {
        let t = s.drop_first();
        lemma_leading_digits_bounds(t);
        assert forall|j: int| 0 <= j < leading_digits(s) implies is_digit(#[trigger] s[j]) by {
            if j > 0 {
                assert(s[j] == t[j - 1]);
            }
        }
    }
}

/// A run of digits that ends at the end or before another character is what
/// `leading_digits` counts.
pub proof fn lemma_leading_digits_is(s: Seq<char>, k: int)
    requires
        0 <= k <= s.len(),
        forall|j: int| 0 <= j < k ==> is_digit(#[trigger] s[j]),
        k < s.len() ==> !is_digit(s[k]),
    ensures
        leading_digits(s) == k,
    decreases s.len(),
{
    if k > 0 {
        let t = s.drop_first();
        assert forall|j: int| 0 <= j < k - 1 implies is_digit(#[trigger] t[j]) by {
            assert(t[j] == s[j + 1]);
        }
        lemma_leading_digits_is(t, k - 1);
    }
}

/// More digits at the end never make a number smaller.
pub proof fn lemma_digits_value_prefix(s: Seq<char>, k: int)
    requires
        0 <= k <= s.len(),
    ensures
        digits_value(s.take(k)) <= digits_value(s),
    decreases s.len() - k,
{
    if k == s.len() {
        assert(s.take(k) =~= s);
    } else {
        let t = s.drop_last();
        lemma_digits_value_prefix(t, k);
        assert(t.take(k) =~= s.take(k));
    }
}

/// Every integer literal is a floating-point literal too.
pub proof fn lemma_integer_syntax_is_float_syntax(s: Seq<char>)
    requires
        is_integer_syntax(s),
    ensures
        is_float_syntax(s),
{
    let u = unsigned(s);
    assert(u.len() > 0 && all_digits(u));
    lemma_leading_digits_is(u, u.len() as int);
    assert(u.skip(u.len() as int).len() == 0);
}

/// An exponent is written with `e`, signs and digits only.
proof fn lemma_exponent_chars(s: Seq<char>)
    requires
        is_exponent(s),
    ensures
        forall|i: int| 0 <= i < s.len() ==> is_number_char(#[trigger] s[i]),
{
    let after = s.drop_first();
    let digits = unsigned(after);
    assert forall|i: int| 0 <= i < s.len() implies is_number_char(#[trigger] s[i]) by {
        if i > 0 {
            assert(s[i] == after[i - 1]);
            if after.len() > 0 && is_sign(after.first()) {
                if i > 1 {
                    assert(after[i - 1] == digits[i - 2]);
                }
            } else {
                assert(after[i - 1] == digits[i - 1]);
            }
        }
    }
}

/// A floating-point literal is written with digits, signs, `.` and `e` only,
/// and starts, behind its sign, with a digit or with `.`.
pub proof fn lemma_float_syntax_chars(s: Seq<char>)
    requires
        is_float_syntax(s),
    ensures
        unsigned(s).len() > 0,
        is_digit(unsigned(s).first()) || unsigned(s).first() == '.',
        forall|i: int| 0 <= i < s.len() ==> is_number_char(#[trigger] s[i]),
{
    let u = unsigned(s);
    let whole = leading_digits(u) as int;
    let rest = u.skip(whole);
    lemma_leading_digits_bounds(u);
    assert(u.len() > 0) by {
        if u.len() == 0 {
            assert(rest.len() == 0);
        }
    }
    assert forall|i: int| 0 <= i < u.len() implies is_number_char(#[trigger] u[i]) by {
        if i >= whole {
            assert(u[i] == rest[i - whole]);
            if rest.first() == '.' {
                let after = rest.drop_first();
                let fraction = leading_digits(after) as int;
                let tail = after.skip(fraction);
                lemma_leading_digits_bounds(after);
                if i > whole {
                    assert(rest[i - whole] == after[i - whole - 1]);
                    if i - whole - 1 >= fraction {
                        lemma_exponent_chars(tail);
                        assert(after[i - whole - 1] == tail[i - whole - 1 - fraction]);
                    }
                }
            } else {
                lemma_exponent_chars(rest);
            }
        }
    }
    assert forall|i: int| 0 <= i < s.len() implies is_number_char(#[trigger] s[i]) by {
        if s.len() > 0 && is_sign(s.first()) {
            if i > 0 {
                assert(s[i] == u[i - 1]);
            }
        }
    }
    assert(is_digit(u.first()) || u.first() == '.') by {
        if whole == 0 {
            assert(rest =~= u);
        }
    }
}

/// Whether `c` is one of the digits `0` to `9`.
pub fn is_digit_char(c: char) -> (r: bool)
    ensures
        r == is_digit(c),
{
    let u: u32 = c as u32;
    0x30 <= u && u <= 0x39
}

/// The end of the run of digits that starts at `from`.
fn skip_digits(s: &[char], from: usize) -> (r: usize)
    requires
        from <= s.len(),
    ensures
        from <= r <= s.len(),
        r - from == leading_digits(s@.skip(from as int)),
{
    let mut i: usize = from;
    while i < s.len() && is_digit_char(s[i])
        invariant
            from <= i <= s.len(),
            forall|j: int| from <= j < i ==> is_digit(#[trigger] s@[j]),
        decreases s.len() - i,
    {
        i += 1;
    }
    proof {
        let t = s@.skip(from as int);
        assert forall|j: int| 0 <= j < i - from implies is_digit(#[trigger] t[j]) by {
            assert(t[j] == s@[j + from]);
        }
        lemma_leading_digits_is(t, i - from);
    }
    i
}

/// The value of `s` as a signed 64-bit integer, if it is the literal of one.
pub fn parse_integer(s: &[char]) -> (r: Option<i64>)
    ensures
        r == integer_of(s@),
{
    let n: usize = s.len();
    if n == 0 {
        return None;
    }
    let negative: bool = s[0] == '-';
    let start: usize = if negative { 1 } else { 0 };
    if start == n {
        return None;
    }
    let ghost digits = s@.skip(start as int);
    assert(negative ==> digits == s@.drop_first());
    assert(!negative ==> digits =~= s@);
    let mut magnitude: u64 = 0;
    let mut i: usize = start;
    while i < n
        invariant
            start <= i <= n,
            n == s.len(),
            negative == (s@.first() == '-'),
            negative ==> digits == s@.drop_first(),
            !negative ==> digits == s@,
            digits == s@.skip(start as int),
            all_digits(digits.take(i - start)),
            magnitude == digits_value(digits.take(i - start)),
            magnitude <= 0x8000_0000_0000_0000,
        decreases n - i,
    {
        let c: char = s[i];
        if !is_digit_char(c) {
            assert(!is_digit(digits[i - start]));
            return None;
        }
        let d: u64 = (c as u32 - 0x30) as u64;
        let next: u128 = magnitude as u128 * 10 + d as u128;
        proof {
            let longer = digits.take(i - start + 1);
            assert(longer.drop_last() =~= digits.take(i - start));
            assert(longer.last() == c);
            assert(next == digits_value(longer));
            assert forall|j: int| 0 <= j < longer.len() implies is_digit(#[trigger] longer[j]) by {
                if j < i - start {
                    assert(longer[j] == digits.take(i - start)[j]);
                }
            }
        }
        if next > 0x8000_0000_0000_0000 {
            proof {
                lemma_digits_value_prefix(digits, i - start + 1);
            }
            return None;
        }
        magnitude = next as u64;
        i += 1;
    }
    assert(digits.take(n - start) =~= digits);
    if negative {
        if magnitude == 0x8000_0000_0000_0000 {
            Some(i64::MIN)
        } else {
            Some(-(magnitude as i64))
        }
    } else if magnitude == 0x8000_0000_0000_0000 {
        None
    } else {
        Some(magnitude as i64)
    }
}

/// Whether an exponent, and nothing else, stands in `s` from `from` on.
fn exponent_at(s: &[char], from: usize) -> (r: bool)
    requires
        from <= s.len(),
    ensures
        r == is_exponent(s@.skip(from as int)),
{
    let n: usize = s.len();
    let ghost tail = s@.skip(from as int);
    if from == n || !(s[from] == 'e' || s[from] == 'E') {
        return false;
    }
    let mut j: usize = from + 1;
    if j < n && (s[j] == '+' || s[j] == '-') {
        j += 1;
    }
    let end: usize = skip_digits(s, j);
    proof {
        let digits = unsigned(tail.drop_first());
        assert(tail.drop_first() =~= s@.skip(from + 1));
        assert(digits =~= s@.skip(j as int));
        lemma_leading_digits_bounds(digits);
        assert(end == n ==> all_digits(digits));
        assert(end < n ==> !is_digit(digits[end - j]));
    }
    end > j && end == n
}

/// Whether `s` is a number without sign.
fn is_number_chars(s: &[char]) -> (r: bool)
    ensures
        r == is_number(s@),
{
    let n: usize = s.len();
    assert(s@.skip(0) =~= s@);
    let whole_end: usize = skip_digits(s, 0);
    let ghost rest = s@.skip(whole_end as int);
    if whole_end < n && s[whole_end] == '.' {
        let fraction_end: usize = skip_digits(s, whole_end + 1);
        proof {
            assert(rest.drop_first() =~= s@.skip(whole_end + 1));
            assert(rest.drop_first().skip(fraction_end - whole_end - 1) =~= s@.skip(
                fraction_end as int,
            ));
        }
        let digits: usize = whole_end + (fraction_end - whole_end - 1);
        digits > 0 && (fraction_end == n || exponent_at(s, fraction_end))
    } else {
        whole_end > 0 && (whole_end == n || exponent_at(s, whole_end))
    }
}

/// Whether `s` is a floating-point literal.
pub fn is_float(s: &[char]) -> (r: bool)
    ensures
        r == is_float_syntax(s@),
{
    let n: usize = s.len();
    let start: usize = if n > 0 && (s[0] == '+' || s[0] == '-') { 1 } else { 0 };
    let body = slice_subrange(s, start, n);
    assert(body@ =~= unsigned(s@));
    is_number_chars(body)
}

/// The decimal numeral of `n`.
pub fn decimal_digits(n: u128) -> (r: Vec<char>)
    ensures
        r@ == decimal(n as nat),
{
    let mut backwards: Vec<char> = Vec::new();
    let mut left: u128 = n;
    loop
        invariant_except_break
            decimal(n as nat) == decimal(left as nat) + backwards@.reverse(),
        ensures
            decimal(n as nat) == backwards@.reverse(),
        decreases left,
    {
        let d: u8 = (left % 10) as u8;
        let c: char = (0x30u8 + d) as char;
        assert(c == digit_char((left % 10) as nat));
        backwards.push(c);
        assert(backwards@.reverse() =~= seq![c] + backwards@.drop_last().reverse());
        if left < 10 {
            assert(decimal(left as nat) =~= seq![c]);
            break ;
        }
        assert(decimal(left as nat) =~= decimal((left / 10) as nat).push(c));
        assert(decimal((left / 10) as nat).push(c) + backwards@.drop_last().reverse()
            =~= decimal((left / 10) as nat) + backwards@.reverse());
        left = left / 10;
    }
    let mut out: Vec<char> = Vec::new();
    let mut i: usize = backwards.len();
    while i > 0
        invariant
            i <= backwards.len(),
            out@ == backwards@.reverse().take(backwards.len() - i),
        decreases i,
    {
        i -= 1;
        out.push(backwards[i]);
        assert(out@ =~= backwards@.reverse().take(backwards.len() - i));
    }
    assert(out@ =~= backwards@.reverse());
    out
}

} // verus!
