//! Decoders of the types that are one line.
//!
//! Each takes the input and the position after the tag, and gives the value
//! and the position after its terminator.

use vstd::prelude::*;
use crate::bignum::BigNumber;
use crate::bytes::copy_range;
use crate::decimal::parse_signed;
use crate::double::check_double_literal;
use crate::error::Error;
use crate::grammar::decodes_as;
use crate::grammar::spec_scalar_line;
use crate::grammar::LOWER_F;
use crate::grammar::LOWER_T;
use crate::grammar::TAG_BIG_NUMBER;
use crate::grammar::TAG_BOOLEAN;
use crate::grammar::TAG_DOUBLE;
use crate::grammar::TAG_INTEGER;
use crate::grammar::TAG_NULL;
use crate::grammar::TAG_SIMPLE_ERROR;
use crate::grammar::TAG_SIMPLE_STRING;
use crate::line::read_line;
use crate::value::Value;

verus! {

/// The text of a line is the range of the input up to its CR.
proof fn lemma_text_is_range(input: Seq<u8>, pos: int, end: int)
    requires
        0 <= pos <= end <= input.len(),
    ensures
        input.skip(pos).take(end - pos) == input.subrange(pos, end),
{
}

/// Decodes a simple string: the bytes up to the first CR LF.
pub fn parse_simple_string(input: &[u8], pos: usize) -> (r: Result<(Value, usize), Error>)
    requires
        pos <= input.len(),
    ensures
        decodes_as(r, pos, input.len(), spec_scalar_line(TAG_SIMPLE_STRING, input@.skip(pos as int))),
{
    match read_line(input, pos) {
        Err(e) => Err(e),
        Ok(end) => {
            proof {
                lemma_text_is_range(input@, pos as int, end as int);
            }
            Ok((Value::SimpleString(copy_range(input, pos, end)), end + 2))
        },
    }
}

/// Decodes a simple error: the bytes up to the first CR LF.
pub fn parse_simple_error(input: &[u8], pos: usize) -> (r: Result<(Value, usize), Error>)
    requires
        pos <= input.len(),
    ensures
        decodes_as(r, pos, input.len(), spec_scalar_line(TAG_SIMPLE_ERROR, input@.skip(pos as int))),
{
    match read_line(input, pos) {
        Err(e) => Err(e),
        Ok(end) => {
            proof {
                lemma_text_is_range(input@, pos as int, end as int);
            }
            Ok((Value::SimpleError(copy_range(input, pos, end)), end + 2))
        },
    }
}

/// Decodes an integer: an optional `-` and digits. A number outside 64
/// bits is a numeric overflow.
pub fn parse_integer(input: &[u8], pos: usize) -> (r: Result<(Value, usize), Error>)
    requires
        pos <= input.len(),
    ensures
        decodes_as(r, pos, input.len(), spec_scalar_line(TAG_INTEGER, input@.skip(pos as int))),
{
    match read_line(input, pos) {
        Err(e) => Err(e),
        Ok(end) => {
            proof {
                lemma_text_is_range(input@, pos as int, end as int);
            }
            match parse_signed(input, pos, end) {
                None => Err(Error::MalformedGrammar),
                Some(number) => match number.to_i64() {
                    None => Err(Error::NumericOverflow),
                    Some(n) => Ok((Value::Integer(n), end + 2)),
                },
            }
        },
    }
}

/// Decodes null: an empty line.
pub fn parse_null(input: &[u8], pos: usize) -> (r: Result<(Value, usize), Error>)
    requires
        pos <= input.len(),
    ensures
        decodes_as(r, pos, input.len(), spec_scalar_line(TAG_NULL, input@.skip(pos as int))),
{
    match read_line(input, pos) {
        Err(e) => Err(e),
        Ok(end) => if end == pos {
            Ok((Value::Null, end + 2))
        } else {
            Err(Error::MalformedGrammar)
        },
    }
}

/// Decodes a boolean: the single byte `t` or `f`.
pub fn parse_boolean(input: &[u8], pos: usize) -> (r: Result<(Value, usize), Error>)
    requires
        pos <= input.len(),
    ensures
        decodes_as(r, pos, input.len(), spec_scalar_line(TAG_BOOLEAN, input@.skip(pos as int))),
{
    match read_line(input, pos) {
        Err(e) => Err(e),
        Ok(end) => {
            let ghost text = input@.skip(pos as int).take(end - pos);
            proof {
                if end - pos == 1 {
                    assert(text[0] == LOWER_T ==> text =~= seq![LOWER_T]);
                    assert(text[0] == LOWER_F ==> text =~= seq![LOWER_F]);
                }
            }
            if end - pos == 1 && input[pos] == LOWER_T {
                Ok((Value::Boolean(true), end + 2))
            } else if end - pos == 1 && input[pos] == LOWER_F {
                Ok((Value::Boolean(false), end + 2))
            } else {
                Err(Error::MalformedGrammar)
            }
        },
    }
}

/// Decodes a double: a signed decimal literal with optional fraction and
/// exponent, or one of `inf`, `-inf`, `nan`. The value keeps the literal.
pub fn parse_double(input: &[u8], pos: usize) -> (r: Result<(Value, usize), Error>)
    requires
        pos <= input.len(),
    ensures
        decodes_as(r, pos, input.len(), spec_scalar_line(TAG_DOUBLE, input@.skip(pos as int))),
{
    match read_line(input, pos) {
        Err(e) => Err(e),
        Ok(end) => {
            proof {
                lemma_text_is_range(input@, pos as int, end as int);
            }
            if check_double_literal(input, pos, end) {
                Ok((Value::Double(copy_range(input, pos, end)), end + 2))
            } else {
                Err(Error::MalformedGrammar)
            }
        },
    }
}

/// Decodes a big number: an optional sign and digits, of any length.
pub fn parse_big_number(input: &[u8], pos: usize) -> (r: Result<(Value, usize), Error>)
    requires
        pos <= input.len(),
    ensures
        decodes_as(r, pos, input.len(), spec_scalar_line(TAG_BIG_NUMBER, input@.skip(pos as int))),
{
    match read_line(input, pos) {
        Err(e) => Err(e),
        Ok(end) => {
            proof {
                lemma_text_is_range(input@, pos as int, end as int);
            }
            match BigNumber::parse(input, pos, end) {
                None => Err(Error::MalformedGrammar),
                Some(n) => Ok((Value::BigNumber(n), end + 2)),
            }
        },
    }
}

} // verus!
