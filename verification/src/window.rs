//! What a window of the input says of its first value, every longer window
//! says too.
//!
//! A decoder that is fed a stream sees a prefix of it. These laws are what
//! makes retrying on a longer prefix sound: a value or a fatal error that
//! was found once is found again, unchanged, and a prefix of a value never
//! decodes to anything but a request for more data.

use vstd::prelude::*;
use crate::error::Error;
use crate::grammar::is_aggregate_tag;
use crate::grammar::is_bulk_tag;
use crate::grammar::is_scalar_tag;
use crate::grammar::spec_aggregate;
use crate::grammar::spec_bulk;
use crate::grammar::spec_header;
use crate::grammar::spec_items;
use crate::grammar::spec_pairs;
use crate::grammar::spec_parse;
use crate::grammar::spec_scalar_line;
use crate::grammar::spec_value;
use crate::grammar::Limits;
use crate::line::lemma_first_break_bounds;
use crate::line::lemma_line_prefix;
use crate::line::spec_line;
use crate::value::ValueModel;

verus! {

/// A line lies within its window.
pub proof fn lemma_line_bounds(s: Seq<u8>)
    ensures
        spec_line(s) matches Ok(n) ==> 0 <= n && n + 2 <= s.len(),
{
    lemma_first_break_bounds(s);
}

/// A value lies within its window and takes at least one byte.
pub proof fn lemma_value_bounds(s: Seq<u8>, depth: nat, cap: nat)
    ensures
        spec_value(s, depth, cap) matches Ok((_, c)) ==> 0 < c <= s.len(),
    decreases depth, 1nat,
{
    if s.len() > 0 {
        let tag = s[0];
        let body = s.skip(1);
        lemma_line_bounds(body);
        if is_aggregate_tag(tag) && !is_scalar_tag(tag) && !is_bulk_tag(tag) {
            lemma_aggregate_bounds(tag, body, depth, cap);
        }
    }
}

/// An aggregate lies within its window.
proof fn lemma_aggregate_bounds(tag: u8, s: Seq<u8>, depth: nat, cap: nat)
    ensures
        spec_aggregate(tag, s, depth, cap) matches Ok((_, c)) ==> 0 < c <= s.len(),
    decreases depth, 0nat,
{
    lemma_line_bounds(s);
    if let Ok((Some(count), c)) = spec_header(s) {
        if depth > 0 {
            lemma_items_bounds(s.skip(c), count, (depth - 1) as nat, cap);
            lemma_pairs_bounds(s.skip(c), count, (depth - 1) as nat, cap);
        }
    }
}

/// A run of values lies within its window, and holds as many values as were
/// asked for.
pub proof fn lemma_items_bounds(s: Seq<u8>, n: nat, depth: nat, cap: nat)
    ensures
        spec_items(s, n, depth, cap) matches Ok((items, c)) ==> 0 <= c <= s.len() && items.len()
            == n,
    decreases depth, n + 2,
{
    if n > 0 {
        lemma_items_bounds(s, (n - 1) as nat, depth, cap);
        if let Ok((_, c)) = spec_items(s, (n - 1) as nat, depth, cap) {
            lemma_value_bounds(s.skip(c), depth, cap);
        }
    }
}

/// A run of pairs lies within its window, and holds as many pairs as were
/// asked for.
pub proof fn lemma_pairs_bounds(s: Seq<u8>, n: nat, depth: nat, cap: nat)
    ensures
        spec_pairs(s, n, depth, cap) matches Ok((pairs, c)) ==> 0 <= c <= s.len() && pairs.len()
            == n,
    decreases depth, n + 2,
{
    if n > 0 {
        lemma_pairs_bounds(s, (n - 1) as nat, depth, cap);
        if let Ok((_, c)) = spec_pairs(s, (n - 1) as nat, depth, cap) {
            lemma_value_bounds(s.skip(c), depth, cap);
            if let Ok((_, k)) = spec_value(s.skip(c), depth, cap) {
                lemma_value_bounds(s.skip(c + k), depth, cap);
            }
        }
    }
}

/// What the first `k` bytes say of a header, all of `s` says too, unless
/// they only ask for more data.
pub proof fn lemma_header_prefix(s: Seq<u8>, k: int)
    requires
        0 <= k <= s.len(),
    ensures
        spec_header(s.take(k)) == Err::<(Option<nat>, int), Error>(Error::NeedMoreData)
            || spec_header(s.take(k)) == spec_header(s),
{
    lemma_line_prefix(s, k);
    lemma_line_bounds(s.take(k));
    if let Ok(n) = spec_line(s.take(k)) {
        assert(s.take(k).take(n) =~= s.take(n));
    }
}

/// What the first `k` bytes say of a scalar, all of `s` says too, unless
/// they only ask for more data.
pub proof fn lemma_scalar_line_prefix(tag: u8, s: Seq<u8>, k: int)
    requires
        0 <= k <= s.len(),
    ensures
        spec_scalar_line(tag, s.take(k)) == Err::<(ValueModel, int), Error>(Error::NeedMoreData)
            || spec_scalar_line(tag, s.take(k)) == spec_scalar_line(tag, s),
{
    lemma_line_prefix(s, k);
    lemma_line_bounds(s.take(k));
    if let Ok(n) = spec_line(s.take(k)) {
        assert(s.take(k).take(n) =~= s.take(n));
    }
}

/// What the first `k` bytes say of a bulk value, all of `s` says too,
/// unless they only ask for more data.
pub proof fn lemma_bulk_prefix(tag: u8, s: Seq<u8>, k: int, cap: nat)
    requires
        0 <= k <= s.len(),
    ensures
        spec_bulk(tag, s.take(k), cap) == Err::<(ValueModel, int), Error>(Error::NeedMoreData)
            || spec_bulk(tag, s.take(k), cap) == spec_bulk(tag, s, cap),
{
    let p = s.take(k);
    lemma_header_prefix(s, k);
    lemma_line_bounds(p);
    if let Ok((Some(len), c)) = spec_header(p) {
        if p.len() >= c + len + 2 {
            assert(p.subrange(c, c + len) =~= s.subrange(c, c + len));
        }
    }
}

/// What the first `k` bytes say of their first value, all of `s` says too,
/// unless they only ask for more data.
pub proof fn lemma_value_prefix(s: Seq<u8>, k: int, depth: nat, cap: nat)
    requires
        0 <= k <= s.len(),
    ensures
        spec_value(s.take(k), depth, cap) == Err::<(ValueModel, int), Error>(Error::NeedMoreData)
            || spec_value(s.take(k), depth, cap) == spec_value(s, depth, cap),
    decreases depth, 1nat,
{
    let p = s.take(k);
    if k > 0 {
        let tag = s[0];
        assert(p.skip(1) =~= s.skip(1).take(k - 1));
        if is_scalar_tag(tag) {
            lemma_scalar_line_prefix(tag, s.skip(1), k - 1);
        } else if is_bulk_tag(tag) {
            lemma_bulk_prefix(tag, s.skip(1), k - 1, cap);
        } else if is_aggregate_tag(tag) {
            lemma_aggregate_prefix(tag, s.skip(1), k - 1, depth, cap);
        }
    }
}

/// What the first `k` bytes say of an aggregate, all of `s` says too,
/// unless they only ask for more data.
proof fn lemma_aggregate_prefix(tag: u8, s: Seq<u8>, k: int, depth: nat, cap: nat)
    requires
        0 <= k <= s.len(),
    ensures
        spec_aggregate(tag, s.take(k), depth, cap) == Err::<(ValueModel, int), Error>(
            Error::NeedMoreData,
        ) || spec_aggregate(tag, s.take(k), depth, cap) == spec_aggregate(tag, s, depth, cap),
    decreases depth, 0nat,
{
    let p = s.take(k);
    lemma_header_prefix(s, k);
    lemma_line_bounds(p);
    if let Ok((Some(count), c)) = spec_header(p) {
        if depth > 0 {
            assert(p.skip(c) =~= s.skip(c).take(k - c));
            lemma_items_prefix(s.skip(c), k - c, count, (depth - 1) as nat, cap);
            lemma_pairs_prefix(s.skip(c), k - c, count, (depth - 1) as nat, cap);
        }
    }
}

/// What the first `k` bytes say of their first `n` values, all of `s` says
/// too, unless they only ask for more data.
pub proof fn lemma_items_prefix(s: Seq<u8>, k: int, n: nat, depth: nat, cap: nat)
    requires
        0 <= k <= s.len(),
    ensures
        spec_items(s.take(k), n, depth, cap) == Err::<(Seq<ValueModel>, int), Error>(
            Error::NeedMoreData,
        ) || spec_items(s.take(k), n, depth, cap) == spec_items(s, n, depth, cap),
    decreases depth, n + 2,
{
    let p = s.take(k);
    if n > 0 {
        let m = (n - 1) as nat;
        lemma_items_prefix(s, k, m, depth, cap);
        lemma_items_bounds(p, m, depth, cap);
        if let Ok((_, c)) = spec_items(p, m, depth, cap) {
            assert(p.skip(c) =~= s.skip(c).take(k - c));
            lemma_value_prefix(s.skip(c), k - c, depth, cap);
        }
    }
}

/// What the first `k` bytes say of their first `n` pairs, all of `s` says
/// too, unless they only ask for more data.
pub proof fn lemma_pairs_prefix(s: Seq<u8>, k: int, n: nat, depth: nat, cap: nat)
    requires
        0 <= k <= s.len(),
    ensures
        spec_pairs(s.take(k), n, depth, cap) == Err::<(Seq<(ValueModel, ValueModel)>, int), Error>(
            Error::NeedMoreData,
        ) || spec_pairs(s.take(k), n, depth, cap) == spec_pairs(s, n, depth, cap),
    decreases depth, n + 2,
{
    let p = s.take(k);
    if n > 0 {
        let m = (n - 1) as nat;
        lemma_pairs_prefix(s, k, m, depth, cap);
        lemma_pairs_bounds(p, m, depth, cap);
        if let Ok((_, c)) = spec_pairs(p, m, depth, cap) {
            assert(p.skip(c) =~= s.skip(c).take(k - c));
            lemma_value_prefix(s.skip(c), k - c, depth, cap);
            lemma_value_bounds(p.skip(c), depth, cap);
            if let Ok((_, j)) = spec_value(p.skip(c), depth, cap) {
                assert(p.skip(c + j) =~= s.skip(c + j).take(k - c - j));
                lemma_value_prefix(s.skip(c + j), k - c - j, depth, cap);
            }
        }
    }
}

/// A value that was decoded from a window is decoded from every longer
/// window, and takes the same bytes.
pub proof fn lemma_value_stays(s: Seq<u8>, more: Seq<u8>, limits: Limits)
    requires
        spec_parse(s, limits) is Ok,
    ensures
        spec_parse(s + more, limits) == spec_parse(s, limits),
{
    assert((s + more).take(s.len() as int) =~= s);
    lemma_value_prefix(s + more, s.len() as int, limits.max_depth as nat, limits.max_payload as nat);
}

/// A fatal error that was found in a window is found in every longer
/// window.
pub proof fn lemma_failure_stays(s: Seq<u8>, more: Seq<u8>, limits: Limits)
    requires
        spec_parse(s, limits) matches Err(e) && e.fatal(),
    ensures
        spec_parse(s + more, limits) == spec_parse(s, limits),
{
    assert((s + more).take(s.len() as int) =~= s);
    lemma_value_prefix(s + more, s.len() as int, limits.max_depth as nat, limits.max_payload as nat);
}

/// Every window that ends inside a value asks for more data: it decodes to
/// no other value and to no error.
pub proof fn lemma_part_needs_more(s: Seq<u8>, k: int, limits: Limits)
    requires
        spec_parse(s, limits) matches Ok((_, c)) && 0 <= k < c,
    ensures
        spec_parse(s.take(k), limits) == Err::<(ValueModel, int), Error>(Error::NeedMoreData),
{
    lemma_value_bounds(s, limits.max_depth as nat, limits.max_payload as nat);
    lemma_value_prefix(s, k, limits.max_depth as nat, limits.max_payload as nat);
    lemma_value_bounds(s.take(k), limits.max_depth as nat, limits.max_payload as nat);
}

} // verus!
