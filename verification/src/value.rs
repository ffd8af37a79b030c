//! The values of the protocol and their mathematical model.

use vstd::prelude::*;
use vstd::slice::slice_to_vec;
use crate::bignum::BigNumber;
use crate::double::check_double_literal;
use crate::double::is_double_literal;
use crate::grammar::Limits;
use crate::line::has_no_break;
use crate::line::no_break;

verus! {

/// What a [`Value`] is, as mathematics: bytes are sequences, a big number is
/// an integer, and aggregates are sequences of models.
pub enum ValueModel {
    /// The text of the line.
    SimpleString(Seq<u8>),
    /// The text of the line.
    SimpleError(Seq<u8>),
    /// The number.
    Integer(i64),
    /// The payload.
    BulkString(Seq<u8>),
    /// The elements, in wire order.
    Array(Seq<ValueModel>),
    /// The absent value.
    Null,
    /// The truth value.
    Boolean(bool),
    /// The literal.
    Double(Seq<u8>),
    /// The number.
    BigNumber(int),
    /// The payload.
    BulkError(Seq<u8>),
    /// The encoding and the text.
    VerbatimString(Seq<u8>, Seq<u8>),
    /// The pairs of key and value, in wire order.
    MapOf(Seq<(ValueModel, ValueModel)>),
    /// The elements, in wire order.
    SetOf(Seq<ValueModel>),
    /// The elements, in wire order.
    Push(Seq<ValueModel>),
}

impl ValueModel {
    /// Whether the value can be written and read back within the limits:
    /// its line texts hold no CR or LF, its floating-point literal is one,
    /// the encoding of a verbatim string has three bytes, every payload is
    /// within `cap` bytes as declared on the wire, every count fits 64 bits,
    /// and aggregates nest at most `depth` deep.
    pub open spec fn representable(self, depth: nat, cap: nat) -> bool
        decreases depth, 1nat,
    {
        match self {
            ValueModel::SimpleString(t) => no_break(t),
            ValueModel::SimpleError(t) => no_break(t),
            ValueModel::Integer(_) => true,
            ValueModel::BulkString(b) => b.len() <= cap,
            ValueModel::Array(items) => Self::all_representable(items, depth, cap),
            ValueModel::Null => true,
            ValueModel::Boolean(_) => true,
            ValueModel::Double(t) => is_double_literal(t),
            ValueModel::BigNumber(_) => true,
            ValueModel::BulkError(b) => b.len() <= cap,
            ValueModel::VerbatimString(e, t) => e.len() == 3 && 4 + t.len() <= cap,
            ValueModel::MapOf(pairs) => {
                &&& depth > 0
                &&& pairs.len() <= u64::MAX
                &&& forall|i: int|
                    0 <= i < pairs.len() ==> (#[trigger] pairs[i]).0.representable(
                        (depth - 1) as nat,
                        cap,
                    ) && pairs[i].1.representable((depth - 1) as nat, cap)
            },
            ValueModel::SetOf(items) => Self::all_representable(items, depth, cap),
            ValueModel::Push(items) => Self::all_representable(items, depth, cap),
        }
    }

    /// Whether `items` can be the elements of an aggregate that is
    /// representable at `depth`.
    pub open spec fn all_representable(items: Seq<ValueModel>, depth: nat, cap: nat) -> bool
        decreases depth, 0nat,
    {
        &&& depth > 0
        &&& items.len() <= u64::MAX
        &&& forall|i: int|
            0 <= i < items.len() ==> (#[trigger] items[i]).representable((depth - 1) as nat, cap)
    }
}

/// One value of the protocol.
///
/// Texts and payloads are owned copies, never borrowed from the bytes that
/// they were decoded from. Aggregates keep their elements in wire order; a
/// set keeps its duplicates.
#[derive(Debug, PartialEq)]
pub enum Value {
    /// A line of text without CR or LF.
    SimpleString(Vec<u8>),
    /// An error message: a line of text without CR or LF.
    SimpleError(Vec<u8>),
    /// A signed 64-bit integer.
    Integer(i64),
    /// A binary-safe payload.
    BulkString(Vec<u8>),
    /// An ordered sequence of values.
    Array(Vec<Value>),
    /// The absent value.
    Null,
    /// A truth value.
    Boolean(bool),
    /// A floating-point number, held as its literal: a signed decimal with
    /// optional fraction and exponent, or one of `inf`, `-inf`, `nan`.
    Double(Vec<u8>),
    /// An integer of any magnitude.
    BigNumber(BigNumber),
    /// An error message as a binary-safe payload.
    BulkError(Vec<u8>),
    /// A payload with the three bytes that name its encoding.
    VerbatimString([u8; 3], Vec<u8>),
    /// An ordered sequence of key and value pairs.
    MapOf(Vec<(Value, Value)>),
    /// An ordered sequence of values; duplicates are kept.
    SetOf(Vec<Value>),
    /// An out-of-band message from the server: an ordered sequence of values.
    Push(Vec<Value>),
}

/// The model of `v`.
pub open spec fn model_of(v: Value) -> ValueModel
    decreases v,
{
    match v {
        Value::SimpleString(t) => ValueModel::SimpleString(t@),
        Value::SimpleError(t) => ValueModel::SimpleError(t@),
        Value::Integer(n) => ValueModel::Integer(n),
        Value::BulkString(b) => ValueModel::BulkString(b@),
        Value::Array(items) => ValueModel::Array(
            Seq::new(
                items@.len(),
                |i: int|
                    if 0 <= i < items@.len() {
                        model_of(items@[i])
                    } else {
                        ValueModel::Null
                    },
            ),
        ),
        Value::Null => ValueModel::Null,
        Value::Boolean(b) => ValueModel::Boolean(b),
        Value::Double(t) => ValueModel::Double(t@),
        Value::BigNumber(n) => ValueModel::BigNumber(n@),
        Value::BulkError(b) => ValueModel::BulkError(b@),
        Value::VerbatimString(e, t) => ValueModel::VerbatimString(e@, t@),
        Value::MapOf(pairs) => ValueModel::MapOf(
            Seq::new(
                pairs@.len(),
                |i: int|
                    if 0 <= i < pairs@.len() {
                        (model_of(pairs@[i].0), model_of(pairs@[i].1))
                    } else {
                        (ValueModel::Null, ValueModel::Null)
                    },
            ),
        ),
        Value::SetOf(items) => ValueModel::SetOf(
            Seq::new(
                items@.len(),
                |i: int|
                    if 0 <= i < items@.len() {
                        model_of(items@[i])
                    } else {
                        ValueModel::Null
                    },
            ),
        ),
        Value::Push(items) => ValueModel::Push(
            Seq::new(
                items@.len(),
                |i: int|
                    if 0 <= i < items@.len() {
                        model_of(items@[i])
                    } else {
                        ValueModel::Null
                    },
            ),
        ),
    }
}

impl View for Value {
    type V = ValueModel;

    open spec fn view(&self) -> ValueModel {
        model_of(*self)
    }
}

/// The models of a sequence of values, in order.
pub open spec fn models(items: Seq<Value>) -> Seq<ValueModel> {
    Seq::new(items.len(), |i: int| items[i]@)
}

/// The models of a sequence of pairs, in order.
pub open spec fn pair_models(pairs: Seq<(Value, Value)>) -> Seq<(ValueModel, ValueModel)> {
    Seq::new(pairs.len(), |i: int| (pairs[i].0@, pairs[i].1@))
}

/// The view of an aggregate is the sequence of its elements' views.
pub proof fn lemma_view_of_items(items: Vec<Value>)
    ensures
        Value::Array(items)@ == ValueModel::Array(models(items@)),
        Value::SetOf(items)@ == ValueModel::SetOf(models(items@)),
        Value::Push(items)@ == ValueModel::Push(models(items@)),
{
    assert(Value::Array(items)@->Array_0 =~= models(items@));
}

/// The view of a map is the sequence of its pairs' views.
pub proof fn lemma_view_of_pairs(pairs: Vec<(Value, Value)>)
    ensures
        Value::MapOf(pairs)@ == ValueModel::MapOf(pair_models(pairs@)),
{
    assert(Value::MapOf(pairs)@->MapOf_0 =~= pair_models(pairs@));
}

/// A copy of `items`, value by value.
fn clone_items(items: &Vec<Value>) -> (r: Vec<Value>)
    ensures
        models(r@) == models(items@),
    decreases items, 0nat,
{
    let mut r: Vec<Value> = Vec::new();
    let mut i: usize = 0;
    while i < items.len()
        invariant
            i <= items.len(),
            r.len() == i,
            forall|j: int| 0 <= j < i ==> r@[j]@ == items@[j]@,
        decreases items.len() - i,
    {
        r.push(clone_value(&items[i]));
        i += 1;
    }
    r
}

/// A copy of `pairs`, pair by pair.
fn clone_pairs(pairs: &Vec<(Value, Value)>) -> (r: Vec<(Value, Value)>)
    ensures
        pair_models(r@) == pair_models(pairs@),
    decreases pairs, 0nat,
{
    let mut r: Vec<(Value, Value)> = Vec::new();
    let mut i: usize = 0;
    while i < pairs.len()
        invariant
            i <= pairs.len(),
            r.len() == i,
            forall|j: int| 0 <= j < i ==> r@[j].0@ == pairs@[j].0@ && r@[j].1@ == pairs@[j].1@,
        decreases pairs.len() - i,
    {
        let key = clone_value(&pairs[i].0);
        let value = clone_value(&pairs[i].1);
        r.push((key, value));
        i += 1;
    }
    r
}

/// A copy of `v` that shares nothing with it.
fn clone_value(v: &Value) -> (r: Value)
    ensures
        r@ == v@,
    decreases v, 0nat,
{
    match v {
        Value::SimpleString(t) => Value::SimpleString(slice_to_vec(t.as_slice())),
        Value::SimpleError(t) => Value::SimpleError(slice_to_vec(t.as_slice())),
        Value::Integer(n) => Value::Integer(*n),
        Value::BulkString(b) => Value::BulkString(slice_to_vec(b.as_slice())),
        Value::Array(items) => {
            let copy = clone_items(items);
            proof {
                lemma_view_of_items(*items);
                lemma_view_of_items(copy);
            }
            Value::Array(copy)
        },
        Value::Null => Value::Null,
        Value::Boolean(b) => Value::Boolean(*b),
        Value::Double(t) => Value::Double(slice_to_vec(t.as_slice())),
        Value::BigNumber(n) => Value::BigNumber(n.clone()),
        Value::BulkError(b) => Value::BulkError(slice_to_vec(b.as_slice())),
        Value::VerbatimString(e, t) => Value::VerbatimString(*e, slice_to_vec(t.as_slice())),
        Value::MapOf(pairs) => {
            let copy = clone_pairs(pairs);
            proof {
                lemma_view_of_pairs(*pairs);
                lemma_view_of_pairs(copy);
            }
            Value::MapOf(copy)
        },
        Value::SetOf(items) => {
            let copy = clone_items(items);
            proof {
                lemma_view_of_items(*items);
                lemma_view_of_items(copy);
            }
            Value::SetOf(copy)
        },
        Value::Push(items) => {
            let copy = clone_items(items);
            proof {
                lemma_view_of_items(*items);
                lemma_view_of_items(copy);
            }
            Value::Push(copy)
        },
    }
}

impl Clone for Value {
    fn clone(&self) -> (r: Self)
        ensures
            r@ == self@,
    {
        clone_value(self)
    }
}

/// Whether `items` can be the elements of an aggregate that is
/// representable at `depth`.
fn all_fit(items: &Vec<Value>, depth: usize, cap: usize) -> (r: bool)
    ensures
        r == ValueModel::all_representable(models(items@), depth as nat, cap as nat),
    decreases items, 0nat,
{
    if depth == 0 {
        return false;
    }
    let mut i: usize = 0;
    while i < items.len()
        invariant
            i <= items.len(),
            depth > 0,
            forall|j: int|
                0 <= j < i ==> (#[trigger] models(items@)[j]).representable(
                    (depth - 1) as nat,
                    cap as nat,
                ),
        decreases items.len() - i,
    {
        assert(models(items@)[i as int] == items@[i as int]@);
        if !fits_within(&items[i], depth - 1, cap) {
            return false;
        }
        i += 1;
    }
    true
}

/// Whether `pairs` can be the pairs of a map that is representable at
/// `depth`.
fn all_pairs_fit(pairs: &Vec<(Value, Value)>, depth: usize, cap: usize) -> (r: bool)
    ensures
        r == ValueModel::MapOf(pair_models(pairs@)).representable(depth as nat, cap as nat),
    decreases pairs, 0nat,
{
    if depth == 0 {
        return false;
    }
    let mut i: usize = 0;
    while i < pairs.len()
        invariant
            i <= pairs.len(),
            depth > 0,
            forall|j: int|
                0 <= j < i ==> (#[trigger] pair_models(pairs@)[j]).0.representable(
                    (depth - 1) as nat,
                    cap as nat,
                ) && pair_models(pairs@)[j].1.representable((depth - 1) as nat, cap as nat),
        decreases pairs.len() - i,
    {
        assert(pair_models(pairs@)[i as int] == (pairs@[i as int].0@, pairs@[i as int].1@));
        if !fits_within(&pairs[i].0, depth - 1, cap) || !fits_within(&pairs[i].1, depth - 1, cap) {
            return false;
        }
        i += 1;
    }
    true
}

/// Whether `v` is representable within `depth` and `cap`.
fn fits_within(v: &Value, depth: usize, cap: usize) -> (r: bool)
    ensures
        r == v@.representable(depth as nat, cap as nat),
    decreases v, 0nat,
{
    match v {
        Value::SimpleString(t) => has_no_break(t.as_slice()),
        Value::SimpleError(t) => has_no_break(t.as_slice()),
        Value::Integer(_) => true,
        Value::BulkString(b) => b.len() <= cap,
        Value::Array(items) => {
            proof {
                lemma_view_of_items(*items);
            }
            all_fit(items, depth, cap)
        },
        Value::Null => true,
        Value::Boolean(_) => true,
        Value::Double(t) => {
            assert(t@.subrange(0, t@.len() as int) =~= t@);
            check_double_literal(t.as_slice(), 0, t.len())
        },
        Value::BigNumber(_) => true,
        Value::BulkError(b) => b.len() <= cap,
        Value::VerbatimString(_, t) => cap >= 4 && t.len() <= cap - 4,
        Value::MapOf(pairs) => {
            proof {
                lemma_view_of_pairs(*pairs);
            }
            all_pairs_fit(pairs, depth, cap)
        },
        Value::SetOf(items) => {
            proof {
                lemma_view_of_items(*items);
            }
            all_fit(items, depth, cap)
        },
        Value::Push(items) => {
            proof {
                lemma_view_of_items(*items);
            }
            all_fit(items, depth, cap)
        },
    }
}

impl Value {
    /// Whether the value is representable within `limits`: whether a
    /// decoder under these limits gives it back from the bytes that encode
    /// it.
    pub fn fits(&self, limits: &Limits) -> (r: bool)
        ensures
            r == self@.representable(limits.max_depth as nat, limits.max_payload as nat),
    {
        fits_within(self, limits.max_depth, limits.max_payload)
    }
}

} // verus!
