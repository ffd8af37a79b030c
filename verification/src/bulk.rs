//! Decoders of the types that are a declared length and a payload.
//!
//! Each takes the input and the position after the tag, and gives the value
//! and the position after its terminator.

use vstd::prelude::*;
use crate::bytes::copy_range;
use crate::decimal::parse_signed;
use crate::error::Error;
use crate::grammar::decodes_as;
use crate::grammar::is_bulk_tag;
use crate::grammar::spec_bulk;
use crate::grammar::spec_header;
use crate::grammar::COLON;
use crate::grammar::TAG_BULK_ERROR;
use crate::grammar::TAG_BULK_STRING;
use crate::grammar::TAG_VERBATIM_STRING;
use crate::line::read_line;
use crate::line::CR;
use crate::line::LF;
use crate::value::Value;

verus! {

/// A declared length or count, as read.
#[derive(Clone, Copy, Debug, PartialEq, Eq, Structural)]
pub enum Length {
    /// The text `-1`, which stands for null.
    Null,
    /// A number that fits 64 bits.
    Count(u64),
    /// A number above `u64::MAX`.
    Huge,
}

impl Length {
    /// Whether this is what reading a header that declares `len` gives.
    pub open spec fn reads(self, len: Option<nat>) -> bool {
        match self {
            Length::Null => len is None,
            Length::Count(n) => len == Some(n as nat),
            Length::Huge => len matches Some(n) && n > u64::MAX,
        }
    }
}

/// Reads the line at `pos` that declares a length or a count: a signed
/// decimal that is `-1` or not negative.
pub fn parse_header(input: &[u8], pos: usize) -> (r: Result<(Length, usize), Error>)
    requires
        pos <= input.len(),
    ensures
        match r {
            Ok((len, next)) => {
                &&& pos < next <= input.len()
                &&& spec_header(input@.skip(pos as int)) matches Ok((declared, c))
                &&& len.reads(declared)
                &&& c == next - pos
            },
            Err(e) => spec_header(input@.skip(pos as int)) == Err::<(Option<nat>, int), Error>(e),
        },
{
    match read_line(input, pos) {
        Err(e) => Err(e),
        Ok(end) => {
            assert(input@.skip(pos as int).take(end - pos) =~= input@.subrange(
                pos as int,
                end as int,
            ));
            match parse_signed(input, pos, end) {
                None => Err(Error::MalformedGrammar),
                Some(number) => match number.magnitude {
                    Some(m) => if !number.negative || m == 0 {
                        Ok((Length::Count(m), end + 2))
                    } else if m == 1 {
                        Ok((Length::Null, end + 2))
                    } else {
                        Err(Error::MalformedGrammar)
                    },
                    None => if number.negative {
                        Err(Error::MalformedGrammar)
                    } else {
                        Ok((Length::Huge, end + 2))
                    },
                },
            }
        },
    }
}

/// Decodes the bulk value of `tag` after its tag.
fn parse_bulk(tag: u8, input: &[u8], pos: usize, cap: usize) -> (r: Result<(Value, usize), Error>)
    requires
        is_bulk_tag(tag),
        pos <= input.len(),
    ensures
        decodes_as(r, pos, input.len(), spec_bulk(tag, input@.skip(pos as int), cap as nat)),
{
    let ghost s = input@.skip(pos as int);
    match parse_header(input, pos) {
        Err(e) => Err(e),
        Ok((Length::Null, next)) => if tag == TAG_BULK_STRING {
            Ok((Value::Null, next))
        } else {
            Err(Error::MalformedGrammar)
        },
        Ok((Length::Huge, _)) => Err(Error::PayloadTooLarge),
        Ok((Length::Count(declared), next)) => {
            if declared > cap as u64 {
                return Err(Error::PayloadTooLarge);
            }
            if tag == TAG_VERBATIM_STRING && declared < 4 {
                return Err(Error::MalformedGrammar);
            }
            let len = declared as usize;
            let available = input.len() - next;
            if available < 2 || available - 2 < len {
                return Err(Error::NeedMoreData);
            }
            let end = next + len;
            if input[end] != CR || input[end + 1] != LF {
                return Err(Error::LengthMismatch);
            }
            let ghost payload = s.subrange(next - pos, end - pos);
            assert(payload =~= input@.subrange(next as int, end as int));
            if tag == TAG_BULK_STRING {
                Ok((Value::BulkString(copy_range(input, next, end)), end + 2))
            } else if tag == TAG_BULK_ERROR {
                Ok((Value::BulkError(copy_range(input, next, end)), end + 2))
            } else if input[next + 3] == COLON {
                let encoding: [u8; 3] = [input[next], input[next + 1], input[next + 2]];
                let text = copy_range(input, next + 4, end);
                assert(encoding@ =~= payload.take(3));
                assert(text@ =~= payload.skip(4));
                Ok((Value::VerbatimString(encoding, text), end + 2))
            } else {
                Err(Error::MalformedGrammar)
            }
        },
    }
}

/// Decodes a bulk string: the declared length, that many bytes, CR LF. The
/// length `-1` is null. A length above `cap` is refused before any byte of
/// the payload is looked at.
pub fn parse_bulk_string(input: &[u8], pos: usize, cap: usize) -> (r: Result<(Value, usize), Error>)
    requires
        pos <= input.len(),
    ensures
        decodes_as(
            r,
            pos,
            input.len(),
            spec_bulk(TAG_BULK_STRING, input@.skip(pos as int), cap as nat),
        ),
{
    parse_bulk(TAG_BULK_STRING, input, pos, cap)
}

/// Decodes a bulk error: the declared length, that many bytes, CR LF. It
/// has no null form.
pub fn parse_bulk_error(input: &[u8], pos: usize, cap: usize) -> (r: Result<(Value, usize), Error>)
    requires
        pos <= input.len(),
    ensures
        decodes_as(
            r,
            pos,
            input.len(),
            spec_bulk(TAG_BULK_ERROR, input@.skip(pos as int), cap as nat),
        ),
{
    parse_bulk(TAG_BULK_ERROR, input, pos, cap)
}

/// Decodes a verbatim string: the declared length, then three bytes of
/// encoding, a colon and the text, CR LF. It has no null form.
pub fn parse_verbatim_string(input: &[u8], pos: usize, cap: usize) -> (r: Result<
    (Value, usize),
    Error,
>)
    requires
        pos <= input.len(),
    ensures
        decodes_as(
            r,
            pos,
            input.len(),
            spec_bulk(TAG_VERBATIM_STRING, input@.skip(pos as int), cap as nat),
        ),
{
    parse_bulk(TAG_VERBATIM_STRING, input, pos, cap)
}

} // verus!
