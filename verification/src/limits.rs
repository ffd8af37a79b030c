//! What the limits promise: nothing that is decoded exceeds them, and what
//! exceeds them fails with the error that says so.

use vstd::prelude::*;
use crate::encode::spec_encode;
use crate::encode::spec_encode_header;
use crate::encode::spec_encode_items;
use crate::error::Error;
use crate::grammar::is_aggregate_tag;
use crate::grammar::is_bulk_tag;
use crate::grammar::spec_aggregate;
use crate::grammar::spec_header;
use crate::grammar::spec_items;
use crate::grammar::spec_pairs;
use crate::grammar::spec_parse;
use crate::grammar::spec_value;
use crate::grammar::Limits;
use crate::grammar::TAG_ARRAY;
use crate::grammar::TAG_MAP;
use crate::line::lemma_first_break_bounds;
use crate::roundtrip::lemma_header_reads_back;
use crate::roundtrip::lemma_round_trip;
use crate::value::ValueModel;
use crate::window::lemma_items_bounds;
use crate::window::lemma_pairs_bounds;

verus! {

/// Whatever decodes is representable within the depth and the cap that it
/// was decoded under.
pub proof fn lemma_decoded_is_representable(s: Seq<u8>, depth: nat, cap: nat)
    ensures
        spec_value(s, depth, cap) matches Ok((v, _)) ==> v.representable(depth, cap),
    decreases depth, 1nat,
{
    if s.len() > 0 {
        let tag = s[0];
        let body = s.skip(1);
        lemma_first_break_bounds(body);
        if is_aggregate_tag(tag) {
            lemma_aggregate_is_representable(tag, body, depth, cap);
        }
    }
}

/// An aggregate that decodes is representable.
proof fn lemma_aggregate_is_representable(tag: u8, s: Seq<u8>, depth: nat, cap: nat)
    requires
        is_aggregate_tag(tag),
    ensures
        spec_aggregate(tag, s, depth, cap) matches Ok((v, _)) ==> v.representable(depth, cap),
    decreases depth, 0nat,
{
    if let Ok((Some(count), c)) = spec_header(s) {
        if depth > 0 {
            let below = (depth - 1) as nat;
            lemma_items_are_representable(s.skip(c), count, below, cap);
            lemma_items_bounds(s.skip(c), count, below, cap);
            lemma_pairs_are_representable(s.skip(c), count, below, cap);
            lemma_pairs_bounds(s.skip(c), count, below, cap);
            if count <= u64::MAX && tag != TAG_MAP {
                if let Ok((items, _)) = spec_items(s.skip(c), count, below, cap) {
                    assert(ValueModel::all_representable(items, depth, cap));
                }
            }
        }
    }
}

/// Every value of a run that decodes is representable.
pub proof fn lemma_items_are_representable(s: Seq<u8>, n: nat, depth: nat, cap: nat)
    ensures
        spec_items(s, n, depth, cap) matches Ok((items, _)) ==> forall|i: int|
            0 <= i < items.len() ==> (#[trigger] items[i]).representable(depth, cap),
    decreases depth, n + 2,
{
    if n > 0 {
        lemma_items_are_representable(s, (n - 1) as nat, depth, cap);
        if let Ok((_, c)) = spec_items(s, (n - 1) as nat, depth, cap) {
            lemma_decoded_is_representable(s.skip(c), depth, cap);
        }
    }
}

/// Every key and value of a run of pairs that decodes is representable.
pub proof fn lemma_pairs_are_representable(s: Seq<u8>, n: nat, depth: nat, cap: nat)
    ensures
        spec_pairs(s, n, depth, cap) matches Ok((pairs, _)) ==> forall|i: int|
            0 <= i < pairs.len() ==> (#[trigger] pairs[i]).0.representable(depth, cap)
                && pairs[i].1.representable(depth, cap),
    decreases depth, n + 2,
{
    if n > 0 {
        lemma_pairs_are_representable(s, (n - 1) as nat, depth, cap);
        if let Ok((_, c)) = spec_pairs(s, (n - 1) as nat, depth, cap) {
            lemma_decoded_is_representable(s.skip(c), depth, cap);
            if let Ok((_, k)) = spec_value(s.skip(c), depth, cap) {
                lemma_decoded_is_representable(s.skip(c + k), depth, cap);
            }
        }
    }
}

/// What was decoded, encoded and decoded again is the same value.
pub proof fn lemma_decoded_round_trips(s: Seq<u8>, limits: Limits)
    requires
        spec_parse(s, limits) is Ok,
    ensures
        ({
            let v = spec_parse(s, limits)->Ok_0.0;
            spec_parse(spec_encode(v), limits) == Ok::<(ValueModel, int), Error>(
                (v, spec_encode(v).len() as int),
            )
        }),
{
    lemma_decoded_is_representable(s, limits.max_depth as nat, limits.max_payload as nat);
    lemma_round_trip(spec_parse(s, limits)->Ok_0.0, limits);
}

/// `v` inside `n` arrays of one element, each inside the next.
pub open spec fn nested(v: ValueModel, n: nat) -> ValueModel
    decreases n,
{
    if n == 0 {
        v
    } else {
        ValueModel::Array(seq![nested(v, (n - 1) as nat)])
    }
}

/// Arrays nested deeper than the limit fail with `RecursionLimitExceeded`,
/// whatever they hold at their core and whatever follows them.
pub proof fn lemma_nesting_beyond_limit(v: ValueModel, n: nat, rest: Seq<u8>, depth: nat, cap: nat)
    requires
        n > depth,
    ensures
        spec_value(spec_encode(nested(v, n)) + rest, depth, cap) == Err::<(ValueModel, int), Error>(
            Error::RecursionLimitExceeded,
        ),
    decreases depth,
{
    let inner = nested(v, (n - 1) as nat);
    let items = seq![inner];
    let s = spec_encode(nested(v, n)) + rest;
    let after = spec_encode(inner) + rest;
    assert(spec_encode_items(items.drop_last()) =~= Seq::<u8>::empty());
    assert(s =~= spec_encode_header(TAG_ARRAY, 1) + after);
    lemma_header_reads_back(TAG_ARRAY, 1, after);
    if depth > 0 {
        let below = (depth - 1) as nat;
        lemma_nesting_beyond_limit(v, (n - 1) as nat, rest, below, cap);
        assert(spec_items(after, 0, below, cap) == Ok::<(Seq<ValueModel>, int), Error>(
            (Seq::empty(), 0),
        ));
        assert(after.skip(0) =~= after);
    }
}

/// A bulk value that declares more than the cap fails with
/// `PayloadTooLarge` on its header alone: whether any of the payload has
/// arrived or not.
pub proof fn lemma_oversized_payload(tag: u8, declared: nat, rest: Seq<u8>, depth: nat, cap: nat)
    requires
        is_bulk_tag(tag),
        declared > cap,
    ensures
        spec_value(spec_encode_header(tag, declared) + rest, depth, cap) == Err::<
            (ValueModel, int),
            Error,
        >(Error::PayloadTooLarge),
{
    lemma_header_reads_back(tag, declared, rest);
}

} // verus!
