//! The literals of floating-point numbers.

use vstd::prelude::*;
use crate::decimal::is_digit;
use crate::decimal::MINUS;
use crate::decimal::PLUS;
use crate::line::no_break;

verus! {

/// The byte `.`.
pub const DOT: u8 = 46;

/// The byte `e`.
pub const LOWER_E: u8 = 101;

/// The byte `E`.
pub const UPPER_E: u8 = 69;

/// Whether `b` is `+` or `-`.
pub open spec fn is_sign(b: u8) -> bool {
    b == MINUS || b == PLUS
}

/// How many digits stand in `s` from index `from` on without a break.
pub open spec fn digit_run(s: Seq<u8>, from: int) -> int
    decreases s.len() - from,
{
    if 0 <= from < s.len() && is_digit(s[from]) {
        1 + digit_run(s, from + 1)
    } else {
        0
    }
}

/// Where the integer part of a numeric literal begins: after its sign.
pub open spec fn integer_start(s: Seq<u8>) -> int {
    if s.len() > 0 && is_sign(s[0]) {
        1
    } else {
        0
    }
}

/// Where the fraction of a numeric literal ends, given the end `b` of its
/// integer part: at `b` where no `.` stands there.
pub open spec fn fraction_end(s: Seq<u8>, b: int) -> int {
    if b < s.len() && s[b] == DOT {
        b + 1 + digit_run(s, b + 1)
    } else {
        b
    }
}

/// Where the digits of the exponent begin, given the end `c` of the
/// fraction: after `e` or `E` and an optional sign; at `c` where no exponent
/// mark stands there.
pub open spec fn exponent_start(s: Seq<u8>, c: int) -> int {
    if c < s.len() && (s[c] == LOWER_E || s[c] == UPPER_E) {
        if c + 1 < s.len() && is_sign(s[c + 1]) {
            c + 2
        } else {
            c + 1
        }
    } else {
        c
    }
}

/// Whether `s` is a signed decimal literal: an optional sign, an integer
/// part of one or more digits, an optional fraction (`.` and one or more
/// digits) and an optional exponent (`e` or `E`, an optional sign and one or
/// more digits), and nothing else.
pub open spec fn is_numeric_literal(s: Seq<u8>) -> bool {
    let a = integer_start(s);
    let b = a + digit_run(s, a);
    let c = fraction_end(s, b);
    let e = exponent_start(s, c);
    let d = e + digit_run(s, e);
    &&& b > a
    &&& c == b || c > b + 1
    &&& e == c || d > e
    &&& d == s.len()
}

/// The literal `inf`.
pub open spec fn inf_token() -> Seq<u8> {
    seq![105u8, 110u8, 102u8]
}

/// The literal `-inf`.
pub open spec fn minus_inf_token() -> Seq<u8> {
    seq![45u8, 105u8, 110u8, 102u8]
}

/// The literal `nan`.
pub open spec fn nan_token() -> Seq<u8> {
    seq![110u8, 97u8, 110u8]
}

/// Whether `s` is the literal of a floating-point number: a signed decimal
/// literal or one of `inf`, `-inf`, `nan`.
pub open spec fn is_double_literal(s: Seq<u8>) -> bool {
    is_numeric_literal(s) || s == inf_token() || s == minus_inf_token() || s == nan_token()
}

/// A run of digits lies within the sequence and holds digits only.
pub proof fn lemma_digit_run_bounds(s: Seq<u8>, from: int)
    requires
        0 <= from <= s.len(),
    ensures
        0 <= digit_run(s, from) <= s.len() - from,
        forall|j: int| from <= j < from + digit_run(s, from) ==> is_digit(#[trigger] s[j]),
        from + digit_run(s, from) < s.len() ==> !is_digit(s[from + digit_run(s, from)]),
    decreases s.len() - from,
{
    if from < s.len() && is_digit(s[from]) {
        lemma_digit_run_bounds(s, from + 1);
    }
}

/// Digits from `from` up to `to`, and none at `to`, make a run of that
/// length.
pub proof fn lemma_digit_run_is(s: Seq<u8>, from: int, to: int)
    requires
        0 <= from <= to <= s.len(),
        forall|j: int| from <= j < to ==> is_digit(#[trigger] s[j]),
        to < s.len() ==> !is_digit(s[to]),
    ensures
        digit_run(s, from) == to - from,
    decreases to - from,
{
    if from < to {
        lemma_digit_run_is(s, from + 1, to);
    }
}

/// No literal holds a CR or an LF.
pub proof fn lemma_literal_has_no_break(s: Seq<u8>)
    requires
        is_double_literal(s),
    ensures
        no_break(s),
{
    if is_numeric_literal(s) {
        let a = integer_start(s);
        lemma_digit_run_bounds(s, a);
        let b = a + digit_run(s, a);
        if b < s.len() && s[b] == DOT {
            lemma_digit_run_bounds(s, b + 1);
        }
        let c = fraction_end(s, b);
        let e = exponent_start(s, c);
        if e > c {
            lemma_digit_run_bounds(s, e);
        }
    }
}

/// The end of the digits that begin at `from` in `input[start..end]`.
fn skip_digits(input: &[u8], start: usize, from: usize, end: usize) -> (r: usize)
    requires
        start <= from <= end <= input.len(),
    ensures
        from <= r <= end,
        r - from == digit_run(input@.subrange(start as int, end as int), from - start),
{
    let ghost s = input@.subrange(start as int, end as int);
    let mut i: usize = from;
    while i < end && 48 <= input[i] && input[i] <= 57
        invariant
            start <= from <= i <= end <= input.len(),
            s == input@.subrange(start as int, end as int),
            forall|j: int| from - start <= j < i - start ==> is_digit(#[trigger] s[j]),
        decreases end - i,
    {
        i += 1;
    }
    proof {
        lemma_digit_run_is(s, from - start, i - start);
    }
    i
}

/// Whether `input[start..end]` is the three bytes `a`, `b`, `c`.
fn is_token3(input: &[u8], start: usize, end: usize, a: u8, b: u8, c: u8) -> (r: bool)
    requires
        start <= end <= input.len(),
    ensures
        r == (input@.subrange(start as int, end as int) == seq![a, b, c]),
{
    let ghost s = input@.subrange(start as int, end as int);
    if end - start == 3 {
        let r = input[start] == a && input[start + 1] == b && input[start + 2] == c;
        assert(r ==> s =~= seq![a, b, c]);
        r
    } else {
        assert(seq![a, b, c].len() == 3);
        false
    }
}

/// Whether `input[start..end]` is the four bytes `a`, `b`, `c`, `d`.
fn is_token4(input: &[u8], start: usize, end: usize, a: u8, b: u8, c: u8, d: u8) -> (r: bool)
    requires
        start <= end <= input.len(),
    ensures
        r == (input@.subrange(start as int, end as int) == seq![a, b, c, d]),
{
    let ghost s = input@.subrange(start as int, end as int);
    if end - start == 4 {
        let r = input[start] == a && input[start + 1] == b && input[start + 2] == c && input[start
            + 3] == d;
        assert(r ==> s =~= seq![a, b, c, d]);
        r
    } else {
        assert(seq![a, b, c, d].len() == 4);
        false
    }
}

/// Whether `input[start..end]` is a signed decimal literal.
fn check_numeric_literal(input: &[u8], start: usize, end: usize) -> (r: bool)
    requires
        start <= end <= input.len(),
    ensures
        r == is_numeric_literal(input@.subrange(start as int, end as int)),
{
    let a: usize = if start < end && (input[start] == MINUS || input[start] == PLUS) {
        start + 1
    } else {
        start
    };
    let b = skip_digits(input, start, a, end);
    if b == a {
        return false;
    }
    let c: usize = if b < end && input[b] == DOT {
        let c = skip_digits(input, start, b + 1, end);
        if c == b + 1 {
            return false;
        }
        c
    } else {
        b
    };
    let e: usize = if c < end && (input[c] == LOWER_E || input[c] == UPPER_E) {
        if c + 1 < end && (input[c + 1] == MINUS || input[c + 1] == PLUS) {
            c + 2
        } else {
            c + 1
        }
    } else {
        c
    };
    let d = skip_digits(input, start, e, end);
    if e > c && d == e {
        return false;
    }
    d == end
}

/// Whether `input[start..end]` is the literal of a floating-point number.
pub fn check_double_literal(input: &[u8], start: usize, end: usize) -> (r: bool)
    requires
        start <= end <= input.len(),
    ensures
        r == is_double_literal(input@.subrange(start as int, end as int)),
{
    is_token3(input, start, end, 105, 110, 102) || is_token4(input, start, end, 45, 105, 110, 102)
        || is_token3(input, start, end, 110, 97, 110) || check_numeric_literal(input, start, end)
}

} // verus!
