//! The encoder: from a value to its bytes on the wire.

use vstd::prelude::*;
use crate::bignum::BigNumber;
use crate::bytes::append;
use crate::decimal::decimal_digits;
use crate::decimal::push_decimal;
use crate::decimal::push_signed;
use crate::decimal::signed_decimal_text;
use crate::error::Error;
use crate::grammar::spec_parse;
use crate::grammar::Limits;
use crate::grammar::COLON;
use crate::grammar::LOWER_F;
use crate::grammar::LOWER_T;
use crate::grammar::TAG_ARRAY;
use crate::grammar::TAG_BIG_NUMBER;
use crate::grammar::TAG_BOOLEAN;
use crate::grammar::TAG_BULK_ERROR;
use crate::grammar::TAG_BULK_STRING;
use crate::grammar::TAG_DOUBLE;
use crate::grammar::TAG_INTEGER;
use crate::grammar::TAG_MAP;
use crate::grammar::TAG_NULL;
use crate::grammar::TAG_PUSH;
use crate::grammar::TAG_SET;
use crate::grammar::TAG_SIMPLE_ERROR;
use crate::grammar::TAG_SIMPLE_STRING;
use crate::grammar::TAG_VERBATIM_STRING;
use crate::line::CR;
use crate::line::LF;
use crate::roundtrip::lemma_round_trip;
use crate::value::lemma_view_of_items;
use crate::value::lemma_view_of_pairs;
use crate::value::models;
use crate::value::pair_models;
use crate::value::Value;
use crate::value::ValueModel;

verus! {

/// The terminator of every line.
pub open spec fn crlf() -> Seq<u8> {
    seq![CR, LF]
}

/// A line: the tag, the text and the terminator.
pub open spec fn spec_encode_line(tag: u8, text: Seq<u8>) -> Seq<u8> {
    seq![tag] + text + crlf()
}

/// A header: the tag, the number in decimal and the terminator.
pub open spec fn spec_encode_header(tag: u8, n: nat) -> Seq<u8> {
    spec_encode_line(tag, decimal_digits(n))
}

/// A bulk value: the header with the length of the payload, the payload and
/// the terminator.
pub open spec fn spec_encode_bulk(tag: u8, payload: Seq<u8>) -> Seq<u8> {
    spec_encode_header(tag, payload.len()) + payload + crlf()
}

/// The payload of a verbatim string: the encoding, a colon and the text.
pub open spec fn verbatim_payload(encoding: Seq<u8>, text: Seq<u8>) -> Seq<u8> {
    encoding + seq![COLON] + text
}

/// The bytes of `v` on the wire.
pub open spec fn spec_encode(v: ValueModel) -> Seq<u8>
    decreases v,
{
    match v {
        ValueModel::SimpleString(t) => spec_encode_line(TAG_SIMPLE_STRING, t),
        ValueModel::SimpleError(t) => spec_encode_line(TAG_SIMPLE_ERROR, t),
        ValueModel::Integer(n) => spec_encode_line(TAG_INTEGER, signed_decimal_text(n as int)),
        ValueModel::BulkString(b) => spec_encode_bulk(TAG_BULK_STRING, b),
        ValueModel::Array(items) => spec_encode_header(TAG_ARRAY, items.len()) + spec_encode_items(
            items,
        ),
        ValueModel::Null => spec_encode_line(TAG_NULL, Seq::empty()),
        ValueModel::Boolean(b) => spec_encode_line(
            TAG_BOOLEAN,
            seq![if b {
                LOWER_T
            } else {
                LOWER_F
            }],
        ),
        ValueModel::Double(t) => spec_encode_line(TAG_DOUBLE, t),
        ValueModel::BigNumber(n) => spec_encode_line(TAG_BIG_NUMBER, signed_decimal_text(n)),
        ValueModel::BulkError(b) => spec_encode_bulk(TAG_BULK_ERROR, b),
        ValueModel::VerbatimString(e, t) => spec_encode_bulk(
            TAG_VERBATIM_STRING,
            verbatim_payload(e, t),
        ),
        ValueModel::MapOf(pairs) => spec_encode_header(TAG_MAP, pairs.len()) + spec_encode_pairs(
            pairs,
        ),
        ValueModel::SetOf(items) => spec_encode_header(TAG_SET, items.len()) + spec_encode_items(
            items,
        ),
        ValueModel::Push(items) => spec_encode_header(TAG_PUSH, items.len()) + spec_encode_items(
            items,
        ),
    }
}

/// The bytes of `items`, one after the other in their order.
pub open spec fn spec_encode_items(items: Seq<ValueModel>) -> Seq<u8>
    decreases items,
{
    if items.len() == 0 {
        Seq::empty()
    } else {
        spec_encode_items(items.drop_last()) + spec_encode(items.last())
    }
}

/// The bytes of `pairs`, key before value, one pair after the other in
/// their order.
pub open spec fn spec_encode_pairs(pairs: Seq<(ValueModel, ValueModel)>) -> Seq<u8>
    decreases pairs,
{
    if pairs.len() == 0 {
        Seq::empty()
    } else {
        spec_encode_pairs(pairs.drop_last()) + spec_encode(pairs.last().0) + spec_encode(
            pairs.last().1,
        )
    }
}

/// Appends a line: the tag, the text and the terminator.
fn encode_line(tag: u8, text: &[u8], out: &mut Vec<u8>)
    ensures
        final(out)@ == old(out)@ + spec_encode_line(tag, text@),
{
    out.push(tag);
    append(out, text);
    out.push(CR);
    out.push(LF);
}

/// Appends a header: the tag, the number in decimal and the terminator.
fn encode_header(tag: u8, n: u128, out: &mut Vec<u8>)
    ensures
        final(out)@ == old(out)@ + spec_encode_header(tag, n as nat),
{
    out.push(tag);
    push_decimal(out, n);
    out.push(CR);
    out.push(LF);
}

/// Appends a bulk value: the header with the length of the payload, the
/// payload and the terminator.
fn encode_bulk(tag: u8, payload: &[u8], out: &mut Vec<u8>)
    ensures
        final(out)@ == old(out)@ + spec_encode_bulk(tag, payload@),
{
    encode_header(tag, payload.len() as u128, out);
    append(out, payload);
    out.push(CR);
    out.push(LF);
}

/// Appends the simple string `text`.
pub fn encode_simple_string(text: &[u8], out: &mut Vec<u8>)
    ensures
        final(out)@ == old(out)@ + spec_encode(ValueModel::SimpleString(text@)),
{
    encode_line(TAG_SIMPLE_STRING, text, out)
}

/// Appends the simple error `text`.
pub fn encode_simple_error(text: &[u8], out: &mut Vec<u8>)
    ensures
        final(out)@ == old(out)@ + spec_encode(ValueModel::SimpleError(text@)),
{
    encode_line(TAG_SIMPLE_ERROR, text, out)
}

/// Appends the integer `n`.
pub fn encode_integer(n: i64, out: &mut Vec<u8>)
    ensures
        final(out)@ == old(out)@ + spec_encode(ValueModel::Integer(n)),
{
    out.push(TAG_INTEGER);
    push_signed(out, n);
    out.push(CR);
    out.push(LF);
}

/// Appends the bulk string `payload`.
pub fn encode_bulk_string(payload: &[u8], out: &mut Vec<u8>)
    ensures
        final(out)@ == old(out)@ + spec_encode(ValueModel::BulkString(payload@)),
{
    encode_bulk(TAG_BULK_STRING, payload, out)
}

/// Appends null.
pub fn encode_null(out: &mut Vec<u8>)
    ensures
        final(out)@ == old(out)@ + spec_encode(ValueModel::Null),
{
    out.push(TAG_NULL);
    out.push(CR);
    out.push(LF);
}

/// Appends the boolean `b`.
pub fn encode_boolean(b: bool, out: &mut Vec<u8>)
    ensures
        final(out)@ == old(out)@ + spec_encode(ValueModel::Boolean(b)),
{
    out.push(TAG_BOOLEAN);
    out.push(if b {
        LOWER_T
    } else {
        LOWER_F
    });
    out.push(CR);
    out.push(LF);
}

/// Appends the double whose literal is `literal`.
pub fn encode_double(literal: &[u8], out: &mut Vec<u8>)
    ensures
        final(out)@ == old(out)@ + spec_encode(ValueModel::Double(literal@)),
{
    encode_line(TAG_DOUBLE, literal, out)
}

/// Appends the big number `n`.
pub fn encode_big_number(n: &BigNumber, out: &mut Vec<u8>)
    ensures
        final(out)@ == old(out)@ + spec_encode(ValueModel::BigNumber(n@)),
{
    out.push(TAG_BIG_NUMBER);
    n.write(out);
    out.push(CR);
    out.push(LF);
}

/// Appends the bulk error `payload`.
pub fn encode_bulk_error(payload: &[u8], out: &mut Vec<u8>)
    ensures
        final(out)@ == old(out)@ + spec_encode(ValueModel::BulkError(payload@)),
{
    encode_bulk(TAG_BULK_ERROR, payload, out)
}

/// Appends the verbatim string of `text` in `encoding`.
pub fn encode_verbatim_string(encoding: &[u8; 3], text: &[u8], out: &mut Vec<u8>)
    ensures
        final(out)@ == old(out)@ + spec_encode(ValueModel::VerbatimString(encoding@, text@)),
{
    encode_header(TAG_VERBATIM_STRING, text.len() as u128 + 4, out);
    out.push(encoding[0]);
    out.push(encoding[1]);
    out.push(encoding[2]);
    out.push(COLON);
    append(out, text);
    out.push(CR);
    out.push(LF);
}

/// Appends the values of `items`, one after the other in their order.
fn encode_items(items: &Vec<Value>, out: &mut Vec<u8>)
    ensures
        final(out)@ == old(out)@ + spec_encode_items(models(items@)),
    decreases items, 0nat,
{
    let ghost all = models(items@);
    let ghost before = out@;
    let mut i: usize = 0;
    while i < items.len()
        invariant
            i <= items.len(),
            all == models(items@),
            out@ == before + spec_encode_items(all.take(i as int)),
        decreases items.len() - i,
    {
        encode_into(&items[i], out);
        proof {
            let next = all.take(i + 1);
            assert(next.drop_last() =~= all.take(i as int));
        }
        i += 1;
    }
    assert(all.take(items.len() as int) =~= all);
}

/// Appends the pairs of `pairs`, key before value, one pair after the other
/// in their order.
fn encode_pairs(pairs: &Vec<(Value, Value)>, out: &mut Vec<u8>)
    ensures
        final(out)@ == old(out)@ + spec_encode_pairs(pair_models(pairs@)),
    decreases pairs, 0nat,
{
    let ghost all = pair_models(pairs@);
    let ghost before = out@;
    let mut i: usize = 0;
    while i < pairs.len()
        invariant
            i <= pairs.len(),
            all == pair_models(pairs@),
            out@ == before + spec_encode_pairs(all.take(i as int)),
        decreases pairs.len() - i,
    {
        encode_into(&pairs[i].0, out);
        encode_into(&pairs[i].1, out);
        proof {
            let next = all.take(i + 1);
            assert(next.drop_last() =~= all.take(i as int));
        }
        i += 1;
    }
    assert(all.take(pairs.len() as int) =~= all);
}

/// Appends the array of `items`: the count, then the values in their order.
pub fn encode_array(items: &Vec<Value>, out: &mut Vec<u8>)
    ensures
        final(out)@ == old(out)@ + spec_encode(ValueModel::Array(models(items@))),
    decreases items, 1nat,
{
    encode_header(TAG_ARRAY, items.len() as u128, out);
    encode_items(items, out);
}

/// Appends the map of `pairs`: the count of pairs, then each key and its
/// value in their order.
pub fn encode_map(pairs: &Vec<(Value, Value)>, out: &mut Vec<u8>)
    ensures
        final(out)@ == old(out)@ + spec_encode(ValueModel::MapOf(pair_models(pairs@))),
    decreases pairs, 1nat,
{
    encode_header(TAG_MAP, pairs.len() as u128, out);
    encode_pairs(pairs, out);
}

/// Appends the set of `items`: the count, then the values in their order.
pub fn encode_set(items: &Vec<Value>, out: &mut Vec<u8>)
    ensures
        final(out)@ == old(out)@ + spec_encode(ValueModel::SetOf(models(items@))),
    decreases items, 1nat,
{
    encode_header(TAG_SET, items.len() as u128, out);
    encode_items(items, out);
}

/// Appends the push message of `items`: the count, then the values in their
/// order.
pub fn encode_push(items: &Vec<Value>, out: &mut Vec<u8>)
    ensures
        final(out)@ == old(out)@ + spec_encode(ValueModel::Push(models(items@))),
    decreases items, 1nat,
{
    encode_header(TAG_PUSH, items.len() as u128, out);
    encode_items(items, out);
}

/// Appends the bytes of `v` to `out`.
pub fn encode_into(v: &Value, out: &mut Vec<u8>)
    ensures
        final(out)@ == old(out)@ + spec_encode(v@),
    decreases v, 0nat,
{
    match v {
        Value::SimpleString(text) => encode_simple_string(text.as_slice(), out),
        Value::SimpleError(text) => encode_simple_error(text.as_slice(), out),
        Value::Integer(n) => encode_integer(*n, out),
        Value::BulkString(payload) => encode_bulk_string(payload.as_slice(), out),
        Value::Array(items) => {
            proof {
                lemma_view_of_items(*items);
            }
            encode_array(items, out)
        },
        Value::Null => encode_null(out),
        Value::Boolean(b) => encode_boolean(*b, out),
        Value::Double(literal) => encode_double(literal.as_slice(), out),
        Value::BigNumber(n) => encode_big_number(n, out),
        Value::BulkError(payload) => encode_bulk_error(payload.as_slice(), out),
        Value::VerbatimString(encoding, text) => encode_verbatim_string(
            encoding,
            text.as_slice(),
            out,
        ),
        Value::MapOf(pairs) => {
            proof {
                lemma_view_of_pairs(*pairs);
            }
            encode_map(pairs, out)
        },
        Value::SetOf(items) => {
            proof {
                lemma_view_of_items(*items);
            }
            encode_set(items, out)
        },
        Value::Push(items) => {
            proof {
                lemma_view_of_items(*items);
            }
            encode_push(items, out)
        },
    }
}

/// The bytes of `v` on the wire.
///
/// Under any limits that `v` is representable within, the bytes decode as
/// `v` again, with nothing left over.
pub fn encode(v: &Value) -> (r: Vec<u8>)
    ensures
        r@ == spec_encode(v@),
        forall|limits: Limits|
            v@.representable(limits.max_depth as nat, limits.max_payload as nat) ==> #[trigger] spec_parse(
                r@,
                limits,
            ) == Ok::<(ValueModel, int), Error>((v@, r@.len() as int)),
{
    let mut out: Vec<u8> = Vec::new();
    encode_into(v, &mut out);
    proof {
        assert forall|limits: Limits|
            v@.representable(
                limits.max_depth as nat,
                limits.max_payload as nat,
            ) implies #[trigger] spec_parse(out@, limits) == Ok::<(ValueModel, int), Error>(
            (v@, out@.len() as int),
        ) by {
            lemma_round_trip(v@, limits);
        }
    }
    out
}

} // verus!
