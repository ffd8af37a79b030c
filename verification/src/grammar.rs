//! The wire grammar, as functions from bytes to what they decode to.
//!
//! Every function here reads from the head of a sequence and says how many
//! bytes the value takes, that more data is needed, or why the bytes are no
//! value. What follows the value in the sequence has no say.

use vstd::prelude::*;
use crate::bignum::is_literal;
use crate::bignum::literal_value;
use crate::decimal::is_signed_decimal;
use crate::decimal::signed_decimal_value;
use crate::double::is_double_literal;
use crate::error::Error;
use crate::line::spec_line;
use crate::line::CR;
use crate::line::LF;
use crate::value::Value;
use crate::value::ValueModel;

verus! {

/// `+`, the tag of a simple string.
pub const TAG_SIMPLE_STRING: u8 = 43;

/// `-`, the tag of a simple error.
pub const TAG_SIMPLE_ERROR: u8 = 45;

/// `:`, the tag of an integer.
pub const TAG_INTEGER: u8 = 58;

/// `$`, the tag of a bulk string.
pub const TAG_BULK_STRING: u8 = 36;

/// `*`, the tag of an array.
pub const TAG_ARRAY: u8 = 42;

/// `_`, the tag of null.
pub const TAG_NULL: u8 = 95;

/// `#`, the tag of a boolean.
pub const TAG_BOOLEAN: u8 = 35;

/// `,`, the tag of a double.
pub const TAG_DOUBLE: u8 = 44;

/// `(`, the tag of a big number.
pub const TAG_BIG_NUMBER: u8 = 40;

/// `!`, the tag of a bulk error.
pub const TAG_BULK_ERROR: u8 = 33;

/// `=`, the tag of a verbatim string.
pub const TAG_VERBATIM_STRING: u8 = 61;

/// `%`, the tag of a map.
pub const TAG_MAP: u8 = 37;

/// `~`, the tag of a set.
pub const TAG_SET: u8 = 126;

/// `>`, the tag of a push message.
pub const TAG_PUSH: u8 = 62;

/// `:`, which parts the encoding of a verbatim string from its text.
pub const COLON: u8 = 58;

/// `t`, the true boolean.
pub const LOWER_T: u8 = 116;

/// `f`, the false boolean.
pub const LOWER_F: u8 = 102;

/// How deep aggregates may nest, and how long a payload may be.
#[derive(Clone, Copy, Debug, PartialEq, Eq, Structural)]
pub struct Limits {
    /// The deepest nesting of aggregates that is decoded.
    pub max_depth: usize,
    /// The longest payload, in bytes as declared on the wire, that is
    /// decoded.
    pub max_payload: usize,
}

/// The nesting limit of [`Limits::default`].
pub const DEFAULT_MAX_DEPTH: usize = 64;

/// The payload cap of [`Limits::default`]: 512 MiB.
pub const DEFAULT_MAX_PAYLOAD: usize = 536870912;

impl Limits {
    /// The limits that are used where none are given.
    pub open spec fn spec_default() -> Limits {
        Limits { max_depth: DEFAULT_MAX_DEPTH, max_payload: DEFAULT_MAX_PAYLOAD }
    }

    /// Limits with the given nesting depth and payload cap.
    pub fn new(max_depth: usize, max_payload: usize) -> (r: Limits)
        ensures
            r == (Limits { max_depth, max_payload }),
    {
        Limits { max_depth, max_payload }
    }
}

impl Default for Limits {
    fn default() -> (r: Limits)
        ensures
            r == Limits::spec_default(),
    {
        Limits { max_depth: DEFAULT_MAX_DEPTH, max_payload: DEFAULT_MAX_PAYLOAD }
    }
}

/// Whether `tag` names a type that is one line.
pub open spec fn is_scalar_tag(tag: u8) -> bool {
    ||| tag == TAG_SIMPLE_STRING
    ||| tag == TAG_SIMPLE_ERROR
    ||| tag == TAG_INTEGER
    ||| tag == TAG_NULL
    ||| tag == TAG_BOOLEAN
    ||| tag == TAG_DOUBLE
    ||| tag == TAG_BIG_NUMBER
}

/// Whether `tag` names a type with a length-prefixed payload.
pub open spec fn is_bulk_tag(tag: u8) -> bool {
    tag == TAG_BULK_STRING || tag == TAG_BULK_ERROR || tag == TAG_VERBATIM_STRING
}

/// Whether `tag` names a type that is a count and that many values.
pub open spec fn is_aggregate_tag(tag: u8) -> bool {
    tag == TAG_ARRAY || tag == TAG_MAP || tag == TAG_SET || tag == TAG_PUSH
}

/// What the text of an integer line decodes to.
pub open spec fn spec_integer(text: Seq<u8>) -> Result<ValueModel, Error> {
    if !is_signed_decimal(text) {
        Err(Error::MalformedGrammar)
    } else if !(i64::MIN <= signed_decimal_value(text) <= i64::MAX) {
        Err(Error::NumericOverflow)
    } else {
        Ok(ValueModel::Integer(signed_decimal_value(text) as i64))
    }
}

/// What the text of a boolean line decodes to.
pub open spec fn spec_boolean(text: Seq<u8>) -> Result<ValueModel, Error> {
    if text == seq![LOWER_T] {
        Ok(ValueModel::Boolean(true))
    } else if text == seq![LOWER_F] {
        Ok(ValueModel::Boolean(false))
    } else {
        Err(Error::MalformedGrammar)
    }
}

/// What the text of a line decodes to under a scalar tag.
pub open spec fn spec_scalar(tag: u8, text: Seq<u8>) -> Result<ValueModel, Error>
    recommends
        is_scalar_tag(tag),
{
    if tag == TAG_SIMPLE_STRING {
        Ok(ValueModel::SimpleString(text))
    } else if tag == TAG_SIMPLE_ERROR {
        Ok(ValueModel::SimpleError(text))
    } else if tag == TAG_INTEGER {
        spec_integer(text)
    } else if tag == TAG_NULL {
        if text.len() == 0 {
            Ok(ValueModel::Null)
        } else {
            Err(Error::MalformedGrammar)
        }
    } else if tag == TAG_BOOLEAN {
        spec_boolean(text)
    } else if tag == TAG_DOUBLE {
        if is_double_literal(text) {
            Ok(ValueModel::Double(text))
        } else {
            Err(Error::MalformedGrammar)
        }
    } else {
        if is_literal(text) {
            Ok(ValueModel::BigNumber(literal_value(text)))
        } else {
            Err(Error::MalformedGrammar)
        }
    }
}

/// A scalar after its tag: one line, read under `tag`.
pub open spec fn spec_scalar_line(tag: u8, s: Seq<u8>) -> Result<(ValueModel, int), Error>
    recommends
        is_scalar_tag(tag),
{
    match spec_line(s) {
        Err(e) => Err(e),
        Ok(n) => match spec_scalar(tag, s.take(n)) {
            Err(e) => Err(e),
            Ok(v) => Ok((v, n + 2)),
        },
    }
}

/// What the text of a length or count decodes to: `None` for `-1`, which
/// stands for null. Any other negative number is malformed.
pub open spec fn spec_length(text: Seq<u8>) -> Result<Option<nat>, Error> {
    if !is_signed_decimal(text) {
        Err(Error::MalformedGrammar)
    } else if signed_decimal_value(text) == -1 {
        Ok(None)
    } else if signed_decimal_value(text) < 0 {
        Err(Error::MalformedGrammar)
    } else {
        Ok(Some(signed_decimal_value(text) as nat))
    }
}

/// The line that declares a length or a count, and how many bytes it takes.
pub open spec fn spec_header(s: Seq<u8>) -> Result<(Option<nat>, int), Error> {
    match spec_line(s) {
        Err(e) => Err(e),
        Ok(n) => match spec_length(s.take(n)) {
            Err(e) => Err(e),
            Ok(len) => Ok((len, n + 2)),
        },
    }
}

/// What a payload decodes to under a bulk tag. The payload of a verbatim
/// string is three bytes of encoding, a colon and the text.
pub open spec fn spec_payload(tag: u8, payload: Seq<u8>) -> Result<ValueModel, Error>
    recommends
        is_bulk_tag(tag),
        tag == TAG_VERBATIM_STRING ==> payload.len() >= 4,
{
    if tag == TAG_BULK_STRING {
        Ok(ValueModel::BulkString(payload))
    } else if tag == TAG_BULK_ERROR {
        Ok(ValueModel::BulkError(payload))
    } else if payload[3] == COLON {
        Ok(ValueModel::VerbatimString(payload.take(3), payload.skip(4)))
    } else {
        Err(Error::MalformedGrammar)
    }
}

/// A bulk value after its tag: the declared length, that many bytes, and
/// CR LF. Only a bulk string may declare `-1`, and is null then. A length
/// above `cap` is refused as soon as it is read.
pub open spec fn spec_bulk(tag: u8, s: Seq<u8>, cap: nat) -> Result<(ValueModel, int), Error>
    recommends
        is_bulk_tag(tag),
{
    match spec_header(s) {
        Err(e) => Err(e),
        Ok((None, c)) => if tag == TAG_BULK_STRING {
            Ok((ValueModel::Null, c))
        } else {
            Err(Error::MalformedGrammar)
        },
        Ok((Some(len), c)) => if len > cap {
            Err(Error::PayloadTooLarge)
        } else if tag == TAG_VERBATIM_STRING && len < 4 {
            Err(Error::MalformedGrammar)
        } else if s.len() < c + len + 2 {
            Err(Error::NeedMoreData)
        } else if s[c + len] != CR || s[c + len + 1] != LF {
            Err(Error::LengthMismatch)
        } else {
            match spec_payload(tag, s.subrange(c, c + len)) {
                Err(e) => Err(e),
                Ok(v) => Ok((v, c + len + 2)),
            }
        },
    }
}

/// The aggregate that `tag` makes of `items`.
pub open spec fn aggregate_of(tag: u8, items: Seq<ValueModel>) -> ValueModel
    recommends
        tag == TAG_ARRAY || tag == TAG_SET || tag == TAG_PUSH,
{
    if tag == TAG_ARRAY {
        ValueModel::Array(items)
    } else if tag == TAG_SET {
        ValueModel::SetOf(items)
    } else {
        ValueModel::Push(items)
    }
}

/// The value at the head of `s`, with aggregates nested at most `depth`
/// deep and payloads of at most `cap` bytes, and how many bytes it takes.
pub open spec fn spec_value(s: Seq<u8>, depth: nat, cap: nat) -> Result<(ValueModel, int), Error>
    decreases depth, 0nat, 1nat,
{
    if s.len() == 0 {
        Err(Error::NeedMoreData)
    } else {
        let tag = s[0];
        let after = if is_scalar_tag(tag) {
            spec_scalar_line(tag, s.skip(1))
        } else if is_bulk_tag(tag) {
            spec_bulk(tag, s.skip(1), cap)
        } else if is_aggregate_tag(tag) {
            spec_aggregate(tag, s.skip(1), depth, cap)
        } else {
            Err(Error::UnknownTypeTag)
        };
        match after {
            Err(e) => Err(e),
            Ok((v, c)) => Ok((v, c + 1)),
        }
    }
}

/// An aggregate after its tag: the declared count and that many values (a
/// map: that many pairs of values). The count `-1` is null. An aggregate
/// needs one level of `depth` for itself, whatever it holds.
pub open spec fn spec_aggregate(tag: u8, s: Seq<u8>, depth: nat, cap: nat) -> Result<
    (ValueModel, int),
    Error,
>
    recommends
        is_aggregate_tag(tag),
    decreases depth, 0nat, 0nat,
{
    match spec_header(s) {
        Err(e) => Err(e),
        Ok((None, c)) => Ok((ValueModel::Null, c)),
        Ok((Some(count), c)) => if depth == 0 {
            Err(Error::RecursionLimitExceeded)
        } else if count > u64::MAX {
            Err(Error::NumericOverflow)
        } else if tag == TAG_MAP {
            match spec_pairs(s.skip(c), count, (depth - 1) as nat, cap) {
                Err(e) => Err(e),
                Ok((pairs, k)) => Ok((ValueModel::MapOf(pairs), c + k)),
            }
        } else {
            match spec_items(s.skip(c), count, (depth - 1) as nat, cap) {
                Err(e) => Err(e),
                Ok((items, k)) => Ok((aggregate_of(tag, items), c + k)),
            }
        },
    }
}

/// The first `n` values of `s`, one after the other.
pub open spec fn spec_items(s: Seq<u8>, n: nat, depth: nat, cap: nat) -> Result<
    (Seq<ValueModel>, int),
    Error,
>
    decreases depth, n, 2nat,
{
    if n == 0 {
        Ok((Seq::empty(), 0))
    } else {
        match spec_items(s, (n - 1) as nat, depth, cap) {
            Err(e) => Err(e),
            Ok((items, c)) => match spec_value(s.skip(c), depth, cap) {
                Err(e) => Err(e),
                Ok((v, k)) => Ok((items.push(v), c + k)),
            },
        }
    }
}

/// The first `n` pairs of values of `s`, one after the other.
pub open spec fn spec_pairs(s: Seq<u8>, n: nat, depth: nat, cap: nat) -> Result<
    (Seq<(ValueModel, ValueModel)>, int),
    Error,
>
    decreases depth, n, 2nat,
{
    if n == 0 {
        Ok((Seq::empty(), 0))
    } else {
        match spec_pairs(s, (n - 1) as nat, depth, cap) {
            Err(e) => Err(e),
            Ok((pairs, c)) => match spec_value(s.skip(c), depth, cap) {
                Err(e) => Err(e),
                Ok((key, k)) => match spec_value(s.skip(c + k), depth, cap) {
                    Err(e) => Err(e),
                    Ok((value, j)) => Ok((pairs.push((key, value)), c + k + j)),
                },
            },
        }
    }
}

/// Whether the outcome `r` of decoding at `pos` in an input of `len` bytes
/// is what the grammar says: the value with that model and the position
/// after it, or the same error.
pub open spec fn decodes_as(
    r: Result<(Value, usize), Error>,
    pos: usize,
    len: usize,
    expected: Result<(ValueModel, int), Error>,
) -> bool {
    match r {
        Ok((v, next)) => expected == Ok::<(ValueModel, int), Error>((v@, next - pos)) && pos < next
            <= len,
        Err(e) => expected == Err::<(ValueModel, int), Error>(e),
    }
}

/// The value at the head of `s` under `limits`, and how many bytes it takes.
pub open spec fn spec_parse(s: Seq<u8>, limits: Limits) -> Result<(ValueModel, int), Error> {
    spec_value(s, limits.max_depth as nat, limits.max_payload as nat)
}

} // verus!
