//! Decoding what the encoder wrote gives the value back.

use vstd::prelude::*;
use crate::bignum::is_literal;
use crate::bignum::literal_value;
use crate::decimal::decimal_digits;
use crate::decimal::is_signed_decimal;
use crate::decimal::lemma_digits_of_value;
use crate::decimal::signed_decimal_text;
use crate::decimal::signed_decimal_value;
use crate::double::lemma_literal_has_no_break;
use crate::encode::crlf;
use crate::encode::spec_encode;
use crate::encode::spec_encode_bulk;
use crate::encode::spec_encode_header;
use crate::encode::spec_encode_items;
use crate::encode::spec_encode_line;
use crate::encode::spec_encode_pairs;
use crate::encode::verbatim_payload;
use crate::error::Error;
use crate::grammar::aggregate_of;
use crate::grammar::is_bulk_tag;
use crate::grammar::is_scalar_tag;
use crate::grammar::spec_header;
use crate::grammar::spec_items;
use crate::grammar::spec_pairs;
use crate::grammar::spec_parse;
use crate::grammar::spec_payload;
use crate::grammar::spec_scalar;
use crate::grammar::spec_value;
use crate::grammar::Limits;
use crate::grammar::LOWER_F;
use crate::grammar::LOWER_T;
use crate::grammar::TAG_ARRAY;
use crate::grammar::TAG_BIG_NUMBER;
use crate::grammar::TAG_BOOLEAN;
use crate::grammar::TAG_BULK_ERROR;
use crate::grammar::TAG_BULK_STRING;
use crate::grammar::TAG_DOUBLE;
use crate::grammar::TAG_INTEGER;
use crate::grammar::TAG_MAP;
use crate::grammar::TAG_NULL;
use crate::grammar::TAG_PUSH;
use crate::grammar::TAG_SET;
use crate::grammar::TAG_SIMPLE_ERROR;
use crate::grammar::TAG_SIMPLE_STRING;
use crate::grammar::TAG_VERBATIM_STRING;
use crate::line::lemma_line_of_body;
use crate::line::no_break;
use crate::line::spec_line;
use crate::line::CR;
use crate::line::LF;
use crate::value::ValueModel;

verus! {

/// The digits of a number read back as that number, both as a signed
/// decimal and as a big-number literal, and hold no CR or LF.
pub proof fn lemma_digits_read_back(n: nat)
    ensures
        is_signed_decimal(decimal_digits(n)),
        signed_decimal_value(decimal_digits(n)) == n,
        is_literal(decimal_digits(n)),
        literal_value(decimal_digits(n)) == n,
        no_break(decimal_digits(n)),
{
    lemma_digits_of_value(n);
}

/// The signed decimal of an integer reads back as that integer, both as a
/// signed decimal and as a big-number literal, and holds no CR or LF.
pub proof fn lemma_signed_text_reads_back(n: int)
    ensures
        is_signed_decimal(signed_decimal_text(n)),
        signed_decimal_value(signed_decimal_text(n)) == n,
        is_literal(signed_decimal_text(n)),
        literal_value(signed_decimal_text(n)) == n,
        no_break(signed_decimal_text(n)),
{
    let t = signed_decimal_text(n);
    if n < 0 {
        let d = decimal_digits((-n) as nat);
        lemma_digits_read_back((-n) as nat);
        assert(t.skip(1) =~= d);
    } else {
        lemma_digits_read_back(n as nat);
    }
}

/// A line that was written reads back: the tag leads, the text is the line
/// after it, and `rest` follows the terminator.
pub proof fn lemma_line_reads_back(tag: u8, text: Seq<u8>, rest: Seq<u8>)
    requires
        no_break(text),
    ensures
        ({
            let s = spec_encode_line(tag, text) + rest;
            &&& s.len() == text.len() + 3 + rest.len()
            &&& s[0] == tag
            &&& spec_line(s.skip(1)) == Ok::<int, Error>(text.len() as int)
            &&& s.skip(1).take(text.len() as int) == text
            &&& s.skip(1).skip(text.len() as int + 2) == rest
        }),
{
    let s = spec_encode_line(tag, text) + rest;
    lemma_line_of_body(text, rest);
    assert(s.skip(1) =~= text + seq![CR, LF] + rest);
}

/// A header that was written reads back as the number it declares.
pub proof fn lemma_header_reads_back(tag: u8, n: nat, rest: Seq<u8>)
    ensures
        ({
            let s = spec_encode_header(tag, n) + rest;
            let c = decimal_digits(n).len() as int + 2;
            &&& s.len() == c + 1 + rest.len()
            &&& s[0] == tag
            &&& spec_header(s.skip(1)) == Ok::<(Option<nat>, int), Error>((Some(n), c))
            &&& s.skip(1).skip(c) == rest
        }),
{
    lemma_digits_read_back(n);
    lemma_line_reads_back(tag, decimal_digits(n), rest);
}

/// A scalar that was written reads back.
proof fn lemma_scalar_reads_back(tag: u8, text: Seq<u8>, v: ValueModel, rest: Seq<u8>, depth: nat, cap: nat)
    requires
        is_scalar_tag(tag),
        no_break(text),
        spec_scalar(tag, text) == Ok::<ValueModel, Error>(v),
    ensures
        spec_value(spec_encode_line(tag, text) + rest, depth, cap) == Ok::<(ValueModel, int), Error>(
            (v, spec_encode_line(tag, text).len() as int),
        ),
{
    lemma_line_reads_back(tag, text, rest);
}

/// A bulk value that was written reads back.
proof fn lemma_bulk_reads_back(tag: u8, payload: Seq<u8>, v: ValueModel, rest: Seq<u8>, depth: nat, cap: nat)
    requires
        is_bulk_tag(tag),
        payload.len() <= cap,
        tag == TAG_VERBATIM_STRING ==> payload.len() >= 4,
        spec_payload(tag, payload) == Ok::<ValueModel, Error>(v),
    ensures
        spec_value(spec_encode_bulk(tag, payload) + rest, depth, cap) == Ok::<(ValueModel, int), Error>(
            (v, spec_encode_bulk(tag, payload).len() as int),
        ),
{
    let s = spec_encode_bulk(tag, payload) + rest;
    let after = payload + crlf() + rest;
    assert(s =~= spec_encode_header(tag, payload.len()) + after);
    lemma_header_reads_back(tag, payload.len(), after);
    let c = decimal_digits(payload.len()).len() as int + 2;
    let body = s.skip(1);
    let n = payload.len() as int;
    assert(body.subrange(c, c + n) =~= payload);
}

/// Any value that is representable within `depth` and `cap` decodes, from
/// the bytes that encode it and whatever follows them, as itself and takes
/// exactly those bytes.
pub proof fn lemma_value_reads_back(v: ValueModel, rest: Seq<u8>, depth: nat, cap: nat)
    requires
        v.representable(depth, cap),
    ensures
        spec_value(spec_encode(v) + rest, depth, cap) == Ok::<(ValueModel, int), Error>(
            (v, spec_encode(v).len() as int),
        ),
    decreases depth, 1nat,
{
    match v {
        ValueModel::SimpleString(t) => {
            lemma_scalar_reads_back(TAG_SIMPLE_STRING, t, v, rest, depth, cap);
        },
        ValueModel::SimpleError(t) => {
            lemma_scalar_reads_back(TAG_SIMPLE_ERROR, t, v, rest, depth, cap);
        },
        ValueModel::Integer(n) => {
            lemma_signed_text_reads_back(n as int);
            lemma_scalar_reads_back(TAG_INTEGER, signed_decimal_text(n as int), v, rest, depth, cap);
        },
        ValueModel::BulkString(b) => {
            lemma_bulk_reads_back(TAG_BULK_STRING, b, v, rest, depth, cap);
        },
        ValueModel::Array(items) => {
            lemma_aggregate_reads_back(TAG_ARRAY, items, rest, depth, cap);
        },
        ValueModel::Null => {
            lemma_scalar_reads_back(TAG_NULL, Seq::empty(), v, rest, depth, cap);
        },
        ValueModel::Boolean(b) => {
            let text = seq![if b {
                LOWER_T
            } else {
                LOWER_F
            }];
            lemma_scalar_reads_back(TAG_BOOLEAN, text, v, rest, depth, cap);
        },
        ValueModel::Double(t) => {
            lemma_literal_has_no_break(t);
            lemma_scalar_reads_back(TAG_DOUBLE, t, v, rest, depth, cap);
        },
        ValueModel::BigNumber(n) => {
            lemma_signed_text_reads_back(n);
            lemma_scalar_reads_back(TAG_BIG_NUMBER, signed_decimal_text(n), v, rest, depth, cap);
        },
        ValueModel::BulkError(b) => {
            lemma_bulk_reads_back(TAG_BULK_ERROR, b, v, rest, depth, cap);
        },
        ValueModel::VerbatimString(e, t) => {
            let payload = verbatim_payload(e, t);
            assert(payload.take(3) =~= e);
            assert(payload.skip(4) =~= t);
            lemma_bulk_reads_back(TAG_VERBATIM_STRING, payload, v, rest, depth, cap);
        },
        ValueModel::MapOf(pairs) => {
            let s = spec_encode(v) + rest;
            let after = spec_encode_pairs(pairs) + rest;
            assert(s =~= spec_encode_header(TAG_MAP, pairs.len()) + after);
            lemma_header_reads_back(TAG_MAP, pairs.len(), after);
            lemma_pairs_read_back(pairs, rest, (depth - 1) as nat, cap);
        },
        ValueModel::SetOf(items) => {
            lemma_aggregate_reads_back(TAG_SET, items, rest, depth, cap);
        },
        ValueModel::Push(items) => {
            lemma_aggregate_reads_back(TAG_PUSH, items, rest, depth, cap);
        },
    }
}

/// An array, a set or a push message that was written reads back.
proof fn lemma_aggregate_reads_back(tag: u8, items: Seq<ValueModel>, rest: Seq<u8>, depth: nat, cap: nat)
    requires
        tag == TAG_ARRAY || tag == TAG_SET || tag == TAG_PUSH,
        ValueModel::all_representable(items, depth, cap),
    ensures
        spec_value(spec_encode(aggregate_of(tag, items)) + rest, depth, cap) == Ok::<
            (ValueModel, int),
            Error,
        >((aggregate_of(tag, items), spec_encode(aggregate_of(tag, items)).len() as int)),
    decreases depth, 0nat,
{
    let v = aggregate_of(tag, items);
    let s = spec_encode(v) + rest;
    let after = spec_encode_items(items) + rest;
    assert(s =~= spec_encode_header(tag, items.len()) + after);
    lemma_header_reads_back(tag, items.len(), after);
    lemma_items_read_back(items, rest, (depth - 1) as nat, cap);
}

/// Values that were written one after the other read back in their order.
pub proof fn lemma_items_read_back(items: Seq<ValueModel>, rest: Seq<u8>, depth: nat, cap: nat)
    requires
        forall|i: int| 0 <= i < items.len() ==> (#[trigger] items[i]).representable(depth, cap),
    ensures
        spec_items(spec_encode_items(items) + rest, items.len(), depth, cap) == Ok::<
            (Seq<ValueModel>, int),
            Error,
        >((items, spec_encode_items(items).len() as int)),
    decreases depth, items.len() + 1,
{
    if items.len() > 0 {
        let init = items.drop_last();
        let last = items.last();
        let s = spec_encode_items(items) + rest;
        let tail = spec_encode(last) + rest;
        assert(s =~= spec_encode_items(init) + tail);
        lemma_items_read_back(init, tail, depth, cap);
        let c = spec_encode_items(init).len() as int;
        assert(s.skip(c) =~= tail);
        lemma_value_reads_back(last, rest, depth, cap);
        assert(init.push(last) =~= items);
    } else {
        assert(items =~= Seq::<ValueModel>::empty());
    }
}

/// Pairs that were written one after the other read back in their order.
pub proof fn lemma_pairs_read_back(
    pairs: Seq<(ValueModel, ValueModel)>,
    rest: Seq<u8>,
    depth: nat,
    cap: nat,
)
    requires
        forall|i: int|
            0 <= i < pairs.len() ==> (#[trigger] pairs[i]).0.representable(depth, cap)
                && pairs[i].1.representable(depth, cap),
    ensures
        spec_pairs(spec_encode_pairs(pairs) + rest, pairs.len(), depth, cap) == Ok::<
            (Seq<(ValueModel, ValueModel)>, int),
            Error,
        >((pairs, spec_encode_pairs(pairs).len() as int)),
    decreases depth, pairs.len() + 1,
{
    if pairs.len() > 0 {
        let init = pairs.drop_last();
        let last = pairs.last();
        let s = spec_encode_pairs(pairs) + rest;
        let value_tail = spec_encode(last.1) + rest;
        let key_tail = spec_encode(last.0) + value_tail;
        assert(s =~= spec_encode_pairs(init) + key_tail);
        lemma_pairs_read_back(init, key_tail, depth, cap);
        let c = spec_encode_pairs(init).len() as int;
        let k = spec_encode(last.0).len() as int;
        assert(s.skip(c) =~= key_tail);
        assert(s.skip(c + k) =~= value_tail);
        lemma_value_reads_back(last.0, value_tail, depth, cap);
        lemma_value_reads_back(last.1, rest, depth, cap);
        assert(init.push(last) =~= pairs);
    } else {
        assert(pairs =~= Seq::<(ValueModel, ValueModel)>::empty());
    }
}

/// Round trip: a value that is representable within the limits decodes,
/// from the bytes that encode it, as itself, with nothing left over.
pub proof fn lemma_round_trip(v: ValueModel, limits: Limits)
    requires
        v.representable(limits.max_depth as nat, limits.max_payload as nat),
    ensures
        spec_parse(spec_encode(v), limits) == Ok::<(ValueModel, int), Error>(
            (v, spec_encode(v).len() as int),
        ),
{
    lemma_value_reads_back(v, Seq::empty(), limits.max_depth as nat, limits.max_payload as nat);
}

/// No two values that are representable within the same limits have the
/// same bytes.
pub proof fn lemma_encoding_is_injective(v: ValueModel, w: ValueModel, limits: Limits)
    requires
        v.representable(limits.max_depth as nat, limits.max_payload as nat),
        w.representable(limits.max_depth as nat, limits.max_payload as nat),
        spec_encode(v) == spec_encode(w),
    ensures
        v == w,
{
    lemma_round_trip(v, limits);
    lemma_round_trip(w, limits);
}

} // verus!
