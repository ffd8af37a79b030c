//! The tag dispatcher and the decoders of aggregates.

use vstd::prelude::*;
use vstd::slice::slice_subrange;
use crate::bulk::parse_bulk_error;
use crate::bulk::parse_bulk_string;
use crate::bulk::parse_header;
use crate::bulk::parse_verbatim_string;
use crate::bulk::Length;
use crate::error::Error;
use crate::grammar::decodes_as;
use crate::grammar::is_aggregate_tag;
use crate::grammar::spec_aggregate;
use crate::grammar::spec_items;
use crate::grammar::spec_pairs;
use crate::grammar::spec_parse;
use crate::grammar::spec_value;
use crate::grammar::Limits;
use crate::grammar::DEFAULT_MAX_DEPTH;
use crate::grammar::DEFAULT_MAX_PAYLOAD;
use crate::grammar::TAG_ARRAY;
use crate::grammar::TAG_BIG_NUMBER;
use crate::grammar::TAG_BOOLEAN;
use crate::grammar::TAG_BULK_ERROR;
use crate::grammar::TAG_BULK_STRING;
use crate::grammar::TAG_DOUBLE;
use crate::grammar::TAG_INTEGER;
use crate::grammar::TAG_MAP;
use crate::grammar::TAG_NULL;
use crate::grammar::TAG_PUSH;
use crate::grammar::TAG_SET;
use crate::grammar::TAG_SIMPLE_ERROR;
use crate::grammar::TAG_SIMPLE_STRING;
use crate::grammar::TAG_VERBATIM_STRING;
use crate::limits::lemma_decoded_is_representable;
use crate::scalar::parse_big_number;
use crate::scalar::parse_boolean;
use crate::scalar::parse_double;
use crate::scalar::parse_integer;
use crate::scalar::parse_null;
use crate::scalar::parse_simple_error;
use crate::scalar::parse_simple_string;
use crate::value::lemma_view_of_items;
use crate::value::lemma_view_of_pairs;
use crate::value::models;
use crate::value::pair_models;
use crate::value::Value;
use crate::value::ValueModel;

verus! {

/// Once one of the values fails, so does every longer run of values.
pub proof fn lemma_items_fail(s: Seq<u8>, m: nat, n: nat, depth: nat, cap: nat)
    requires
        m <= n,
        spec_items(s, m, depth, cap) is Err,
    ensures
        spec_items(s, n, depth, cap) == spec_items(s, m, depth, cap),
    decreases n - m,
{
    if m < n {
        lemma_items_fail(s, m, (n - 1) as nat, depth, cap);
    }
}

/// Once one of the pairs fails, so does every longer run of pairs.
pub proof fn lemma_pairs_fail(s: Seq<u8>, m: nat, n: nat, depth: nat, cap: nat)
    requires
        m <= n,
        spec_pairs(s, m, depth, cap) is Err,
    ensures
        spec_pairs(s, n, depth, cap) == spec_pairs(s, m, depth, cap),
    decreases n - m,
{
    if m < n {
        lemma_pairs_fail(s, m, (n - 1) as nat, depth, cap);
    }
}

/// Decodes the value that begins at `pos`: reads its tag and hands the rest
/// to the decoder of its type. Aggregates may nest `depth` deep below here,
/// and payloads may hold `cap` bytes.
pub fn parse_at(input: &[u8], pos: usize, depth: usize, cap: usize) -> (r: Result<
    (Value, usize),
    Error,
>)
    requires
        pos <= input.len(),
    ensures
        decodes_as(r, pos, input.len(), spec_value(input@.skip(pos as int), depth as nat, cap as nat)),
    decreases depth, 3nat,
{
    if pos >= input.len() {
        return Err(Error::NeedMoreData);
    }
    let tag = input[pos];
    let body = pos + 1;
    assert(input@.skip(pos as int).skip(1) =~= input@.skip(body as int));
    if tag == TAG_SIMPLE_STRING {
        parse_simple_string(input, body)
    } else if tag == TAG_SIMPLE_ERROR {
        parse_simple_error(input, body)
    } else if tag == TAG_INTEGER {
        parse_integer(input, body)
    } else if tag == TAG_BULK_STRING {
        parse_bulk_string(input, body, cap)
    } else if tag == TAG_ARRAY {
        parse_array(input, body, depth, cap)
    } else if tag == TAG_NULL {
        parse_null(input, body)
    } else if tag == TAG_BOOLEAN {
        parse_boolean(input, body)
    } else if tag == TAG_DOUBLE {
        parse_double(input, body)
    } else if tag == TAG_BIG_NUMBER {
        parse_big_number(input, body)
    } else if tag == TAG_BULK_ERROR {
        parse_bulk_error(input, body, cap)
    } else if tag == TAG_VERBATIM_STRING {
        parse_verbatim_string(input, body, cap)
    } else if tag == TAG_MAP {
        parse_map(input, body, depth, cap)
    } else if tag == TAG_SET {
        parse_set(input, body, depth, cap)
    } else if tag == TAG_PUSH {
        parse_push(input, body, depth, cap)
    } else {
        Err(Error::UnknownTypeTag)
    }
}

/// Decodes `count` values, one after the other, from `pos` on.
fn parse_items(input: &[u8], pos: usize, count: u64, depth: usize, cap: usize) -> (r: Result<
    (Vec<Value>, usize),
    Error,
>)
    requires
        pos <= input.len(),
    ensures
        match r {
            Ok((items, next)) => pos <= next <= input.len() && spec_items(
                input@.skip(pos as int),
                count as nat,
                depth as nat,
                cap as nat,
            ) == Ok::<(Seq<ValueModel>, int), Error>((models(items@), next - pos)),
            Err(e) => spec_items(input@.skip(pos as int), count as nat, depth as nat, cap as nat)
                == Err::<(Seq<ValueModel>, int), Error>(e),
        },
    decreases depth, 4nat,
{
    let ghost s = input@.skip(pos as int);
    let mut items: Vec<Value> = Vec::new();
    let mut p: usize = pos;
    let mut i: u64 = 0;
    assert(models(items@) =~= Seq::<ValueModel>::empty());
    while i < count
        invariant
            pos <= p <= input.len(),
            i <= count,
            s == input@.skip(pos as int),
            spec_items(s, i as nat, depth as nat, cap as nat) == Ok::<(Seq<ValueModel>, int), Error>(
                (models(items@), p - pos),
            ),
        decreases count - i,
    {
        assert(s.skip(p - pos) =~= input@.skip(p as int));
        match parse_at(input, p, depth, cap) {
            Err(e) => {
                proof {
                    lemma_items_fail(s, (i + 1) as nat, count as nat, depth as nat, cap as nat);
                }
                return Err(e);
            },
            Ok((v, next)) => {
                let ghost before = items@;
                items.push(v);
                assert(models(items@) =~= models(before).push(v@));
                p = next;
                i += 1;
            },
        }
    }
    Ok((items, p))
}

/// Decodes `count` pairs of values, one after the other, from `pos` on.
fn parse_pairs(input: &[u8], pos: usize, count: u64, depth: usize, cap: usize) -> (r: Result<
    (Vec<(Value, Value)>, usize),
    Error,
>)
    requires
        pos <= input.len(),
    ensures
        match r {
            Ok((pairs, next)) => pos <= next <= input.len() && spec_pairs(
                input@.skip(pos as int),
                count as nat,
                depth as nat,
                cap as nat,
            ) == Ok::<(Seq<(ValueModel, ValueModel)>, int), Error>(
                (pair_models(pairs@), next - pos),
            ),
            Err(e) => spec_pairs(input@.skip(pos as int), count as nat, depth as nat, cap as nat)
                == Err::<(Seq<(ValueModel, ValueModel)>, int), Error>(e),
        },
    decreases depth, 4nat,
{
    let ghost s = input@.skip(pos as int);
    let mut pairs: Vec<(Value, Value)> = Vec::new();
    let mut p: usize = pos;
    let mut i: u64 = 0;
    assert(pair_models(pairs@) =~= Seq::<(ValueModel, ValueModel)>::empty());
    while i < count
        invariant
            pos <= p <= input.len(),
            i <= count,
            s == input@.skip(pos as int),
            spec_pairs(s, i as nat, depth as nat, cap as nat) == Ok::<
                (Seq<(ValueModel, ValueModel)>, int),
                Error,
            >((pair_models(pairs@), p - pos)),
        decreases count - i,
    {
        assert(s.skip(p - pos) =~= input@.skip(p as int));
        match parse_at(input, p, depth, cap) {
            Err(e) => {
                proof {
                    lemma_pairs_fail(s, (i + 1) as nat, count as nat, depth as nat, cap as nat);
                }
                return Err(e);
            },
            Ok((key, middle)) => {
                assert(s.skip(middle - pos) =~= input@.skip(middle as int));
                match parse_at(input, middle, depth, cap) {
                    Err(e) => {
                        proof {
                            lemma_pairs_fail(
                                s,
                                (i + 1) as nat,
                                count as nat,
                                depth as nat,
                                cap as nat,
                            );
                        }
                        return Err(e);
                    },
                    Ok((value, next)) => {
                        let ghost before = pairs@;
                        let ghost pair = (key@, value@);
                        pairs.push((key, value));
                        assert(pair_models(pairs@) =~= pair_models(before).push(pair));
                        p = next;
                        i += 1;
                    },
                }
            },
        }
    }
    Ok((pairs, p))
}

/// Decodes the aggregate of `tag` after its tag.
fn parse_aggregate(tag: u8, input: &[u8], pos: usize, depth: usize, cap: usize) -> (r: Result<
    (Value, usize),
    Error,
>)
    requires
        is_aggregate_tag(tag),
        pos <= input.len(),
    ensures
        decodes_as(
            r,
            pos,
            input.len(),
            spec_aggregate(tag, input@.skip(pos as int), depth as nat, cap as nat),
        ),
    decreases depth, 1nat,
{
    let ghost s = input@.skip(pos as int);
    match parse_header(input, pos) {
        Err(e) => Err(e),
        Ok((Length::Null, next)) => Ok((Value::Null, next)),
        Ok((declared, next)) => {
            if depth == 0 {
                return Err(Error::RecursionLimitExceeded);
            }
            assert(s.skip(next - pos) =~= input@.skip(next as int));
            match declared {
                Length::Count(count) => if tag == TAG_MAP {
                    match parse_pairs(input, next, count, depth - 1, cap) {
                        Err(e) => Err(e),
                        Ok((pairs, end)) => {
                            proof {
                                lemma_view_of_pairs(pairs);
                            }
                            Ok((Value::MapOf(pairs), end))
                        },
                    }
                } else {
                    match parse_items(input, next, count, depth - 1, cap) {
                        Err(e) => Err(e),
                        Ok((items, end)) => {
                            proof {
                                lemma_view_of_items(items);
                            }
                            if tag == TAG_ARRAY {
                                Ok((Value::Array(items), end))
                            } else if tag == TAG_SET {
                                Ok((Value::SetOf(items), end))
                            } else {
                                Ok((Value::Push(items), end))
                            }
                        },
                    }
                },
                _ => Err(Error::NumericOverflow),
            }
        },
    }
}

/// Decodes an array: the declared count and that many values. The count
/// `-1` is null. Fails with `RecursionLimitExceeded` where `depth` is zero.
pub fn parse_array(input: &[u8], pos: usize, depth: usize, cap: usize) -> (r: Result<
    (Value, usize),
    Error,
>)
    requires
        pos <= input.len(),
    ensures
        decodes_as(
            r,
            pos,
            input.len(),
            spec_aggregate(TAG_ARRAY, input@.skip(pos as int), depth as nat, cap as nat),
        ),
    decreases depth, 2nat,
{
    parse_aggregate(TAG_ARRAY, input, pos, depth, cap)
}

/// Decodes a map: the declared count and that many pairs of key and value,
/// in wire order. The count `-1` is null.
pub fn parse_map(input: &[u8], pos: usize, depth: usize, cap: usize) -> (r: Result<
    (Value, usize),
    Error,
>)
    requires
        pos <= input.len(),
    ensures
        decodes_as(
            r,
            pos,
            input.len(),
            spec_aggregate(TAG_MAP, input@.skip(pos as int), depth as nat, cap as nat),
        ),
    decreases depth, 2nat,
{
    parse_aggregate(TAG_MAP, input, pos, depth, cap)
}

/// Decodes a set: the declared count and that many values, duplicates and
/// all. The count `-1` is null.
pub fn parse_set(input: &[u8], pos: usize, depth: usize, cap: usize) -> (r: Result<
    (Value, usize),
    Error,
>)
    requires
        pos <= input.len(),
    ensures
        decodes_as(
            r,
            pos,
            input.len(),
            spec_aggregate(TAG_SET, input@.skip(pos as int), depth as nat, cap as nat),
        ),
    decreases depth, 2nat,
{
    parse_aggregate(TAG_SET, input, pos, depth, cap)
}

/// Decodes a push message: the declared count and that many values. The
/// count `-1` is null.
pub fn parse_push(input: &[u8], pos: usize, depth: usize, cap: usize) -> (r: Result<
    (Value, usize),
    Error,
>)
    requires
        pos <= input.len(),
    ensures
        decodes_as(
            r,
            pos,
            input.len(),
            spec_aggregate(TAG_PUSH, input@.skip(pos as int), depth as nat, cap as nat),
        ),
    decreases depth, 2nat,
{
    parse_aggregate(TAG_PUSH, input, pos, depth, cap)
}

/// Decodes the value at the head of `input` under `limits`, and gives it
/// with the bytes that follow it.
pub fn parse_value_with<'a>(input: &'a [u8], limits: &Limits) -> (r: Result<
    (&'a [u8], Value),
    Error,
>)
    ensures
        match r {
            Ok((rest, v)) => {
                &&& rest.len() < input.len()
                &&& spec_parse(input@, *limits) == Ok::<(ValueModel, int), Error>(
                    (v@, input.len() - rest.len()),
                )
                &&& rest@ == input@.skip(input.len() - rest.len())
                &&& v@.representable(limits.max_depth as nat, limits.max_payload as nat)
            },
            Err(e) => spec_parse(input@, *limits) == Err::<(ValueModel, int), Error>(e),
        },
{
    assert(input@.skip(0) =~= input@);
    proof {
        lemma_decoded_is_representable(
            input@,
            limits.max_depth as nat,
            limits.max_payload as nat,
        );
    }
    match parse_at(input, 0, limits.max_depth, limits.max_payload) {
        Err(e) => Err(e),
        Ok((v, next)) => {
            let rest = slice_subrange(input, next, input.len());
            Ok((rest, v))
        },
    }
}

/// Decodes the value at the head of `input` under the default limits, and
/// gives it with the bytes that follow it.
pub fn parse_value<'a>(input: &'a [u8]) -> (r: Result<(&'a [u8], Value), Error>)
    ensures
        match r {
            Ok((rest, v)) => {
                &&& rest.len() < input.len()
                &&& spec_parse(input@, Limits::spec_default()) == Ok::<(ValueModel, int), Error>(
                    (v@, input.len() - rest.len()),
                )
                &&& rest@ == input@.skip(input.len() - rest.len())
                &&& v@.representable(DEFAULT_MAX_DEPTH as nat, DEFAULT_MAX_PAYLOAD as nat)
            },
            Err(e) => spec_parse(input@, Limits::spec_default()) == Err::<(ValueModel, int), Error>(
                e,
            ),
        },
{
    let limits = Limits::default();
    parse_value_with(input, &limits)
}

} // verus!
