//! Lines: a body free of CR and LF, closed by CR LF.

use vstd::prelude::*;
use crate::error::Error;

verus! {

/// Carriage return.
pub const CR: u8 = 13;

/// Line feed.
pub const LF: u8 = 10;

/// Whether `b` is one of the two bytes that may only stand in a terminator.
pub open spec fn is_break(b: u8) -> bool {
    b == CR || b == LF
}

/// Whether no byte of `s` is CR or LF.
pub open spec fn no_break(s: Seq<u8>) -> bool {
    forall|i: int| 0 <= i < s.len() ==> !is_break(#[trigger] s[i])
}

/// The index of the first CR or LF in `s`; its length where it holds none.
pub open spec fn first_break(s: Seq<u8>) -> int
    decreases s.len(),
{
    if s.len() == 0 || is_break(s[0]) {
        0
    } else {
        1 + first_break(s.skip(1))
    }
}

/// The line at the head of `s`.
///
/// `Ok(n)`: the body is the first `n` bytes and the terminator follows it, so
/// that the line takes `n + 2` bytes. A lone CR or LF is malformed as soon as
/// it is seen; a window that ends before the terminator needs more data.
pub open spec fn spec_line(s: Seq<u8>) -> Result<int, Error> {
    let i = first_break(s);
    if i >= s.len() {
        Err(Error::NeedMoreData)
    } else if s[i] != CR {
        Err(Error::MalformedGrammar)
    } else if i + 1 >= s.len() {
        Err(Error::NeedMoreData)
    } else if s[i + 1] != LF {
        Err(Error::MalformedGrammar)
    } else {
        Ok(i)
    }
}

/// `first_break` is within the sequence, nothing before it is a break, and
/// what stands at it, if anything, is one.
pub proof fn lemma_first_break_bounds(s: Seq<u8>)
    ensures
        0 <= first_break(s) <= s.len(),
        no_break(s.take(first_break(s))),
        first_break(s) < s.len() ==> is_break(s[first_break(s)]),
    decreases s.len(),
{
    if s.len() > 0 && !is_break(s[0]) {
        let t = s.skip(1);
        lemma_first_break_bounds(t);
        let n = first_break(s);
        assert forall|i: int| 0 <= i < s.take(n).len() implies !is_break(#[trigger] s.take(n)[i]) by {
            if i > 0 {
                assert(s.take(n)[i] == t.take(n - 1)[i - 1]);
            }
        }
    }
}

/// An index with no break before it and a break (or the end) at it is
/// `first_break`.
pub proof fn lemma_first_break_is(s: Seq<u8>, i: int)
    requires
        0 <= i <= s.len(),
        forall|j: int| 0 <= j < i ==> !is_break(#[trigger] s[j]),
        i < s.len() ==> is_break(s[i]),
    ensures
        first_break(s) == i,
    decreases i,
{
    if i > 0 {
        lemma_first_break_is(s.skip(1), i - 1);
    }
}

/// A body without breaks, followed by CR LF, reads back as that body,
/// whatever comes after.
pub proof fn lemma_line_of_body(body: Seq<u8>, rest: Seq<u8>)
    requires
        no_break(body),
    ensures
        spec_line(body + seq![CR, LF] + rest) == Ok::<int, Error>(body.len() as int),
{
    lemma_first_break_is(body + seq![CR, LF] + rest, body.len() as int);
}

/// What a window says of its line, every longer window says too, unless the
/// window only asked for more data.
pub proof fn lemma_line_prefix(s: Seq<u8>, k: int)
    requires
        0 <= k <= s.len(),
    ensures
        spec_line(s.take(k)) == Err::<int, Error>(Error::NeedMoreData) || spec_line(s.take(k))
            == spec_line(s),
        spec_line(s.take(k)) matches Ok(n) ==> n + 2 <= k,
{
    let p = s.take(k);
    lemma_first_break_bounds(p);
    let i = first_break(p);
    if i < k {
        assert forall|j: int| 0 <= j < i implies !is_break(#[trigger] s[j]) by {
            assert(p.take(i)[j] == s[j]);
        }
        lemma_first_break_is(s, i);
    }
}

/// Whether no byte of `text` is CR or LF.
pub fn has_no_break(text: &[u8]) -> (r: bool)
    ensures
        r == no_break(text@),
{
    let mut i: usize = 0;
    while i < text.len()
        invariant
            i <= text.len(),
            forall|j: int| 0 <= j < i ==> !is_break(#[trigger] text@[j]),
        decreases text.len() - i,
    {
        if text[i] == CR || text[i] == LF {
            return false;
        }
        i += 1;
    }
    true
}

/// Finds the line that begins at `start`.
///
/// Returns the index of its CR: the body is `input[start..r]` and the next
/// line begins at `r + 2`.
pub fn read_line(input: &[u8], start: usize) -> (r: Result<usize, Error>)
    requires
        start <= input.len(),
    ensures
        match r {
            Ok(end) => start <= end && end + 2 <= input.len() && spec_line(
                input@.skip(start as int),
            ) == Ok::<int, Error>(end - start),
            Err(e) => spec_line(input@.skip(start as int)) == Err::<int, Error>(e),
        },
{
    let ghost s = input@.skip(start as int);
    let mut i: usize = start;
    while i < input.len() && input[i] != CR && input[i] != LF
        invariant
            start <= i <= input.len(),
            s == input@.skip(start as int),
            forall|j: int| 0 <= j < i - start ==> !is_break(#[trigger] s[j]),
        decreases input.len() - i,
    {
        i += 1;
    }
    proof {
        lemma_first_break_is(s, i - start);
    }
    if i >= input.len() {
        Err(Error::NeedMoreData)
    } else if input[i] != CR {
        Err(Error::MalformedGrammar)
    } else if i + 1 >= input.len() {
        Err(Error::NeedMoreData)
    } else if input[i + 1] != LF {
        Err(Error::MalformedGrammar)
    } else {
        Ok(i)
    }
}

} // verus!
