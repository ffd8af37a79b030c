//! The incremental driver: decoding from input that arrives in chunks.
//!
//! The driver keeps what has arrived and was not decoded yet. On each chunk
//! it tries again from the first pending byte; what it gives does not depend
//! on where the chunks were cut.

use vstd::prelude::*;
use crate::cursor::ByteCursor;
use crate::decode::parse_at;
use crate::error::Error;
use crate::grammar::spec_parse;
use crate::grammar::Limits;
use crate::value::Value;
use crate::value::ValueModel;
use crate::window::lemma_failure_stays;
use crate::window::lemma_part_needs_more;
use crate::window::lemma_value_bounds;
use crate::window::lemma_value_stays;

verus! {

/// Where a driver stands.
#[derive(Clone, Copy, Debug, PartialEq, Eq, Structural)]
pub enum Phase {
    /// Nothing is pending: the next byte to arrive is a tag.
    AwaitingTag,
    /// The beginning of a value is pending and its end has not arrived.
    ParsingBody,
    /// The last chunk completed a value.
    Complete,
    /// A fatal error was met. Nothing is decoded any more.
    Failed,
}

/// What feeding a chunk gave, as mathematics.
pub enum StepModel {
    NeedMoreData,
    Value(ValueModel),
    Failed(Error),
}

/// What feeding a chunk gave.
#[derive(Debug, PartialEq)]
pub enum Step {
    /// No value is complete yet. The pending bytes are kept.
    NeedMoreData,
    /// A value was completed. Its bytes are no longer pending.
    Value(Value),
    /// The pending bytes are not the beginning of any value, now or with
    /// whatever may follow.
    Failed(Error),
}

impl View for Step {
    type V = StepModel;

    open spec fn view(&self) -> StepModel {
        match self {
            Step::NeedMoreData => StepModel::NeedMoreData,
            Step::Value(v) => StepModel::Value(v@),
            Step::Failed(e) => StepModel::Failed(*e),
        }
    }
}

/// What a [`Driver`] is, as mathematics.
pub struct DriverModel {
    /// The bytes that arrived and were not decoded yet.
    pub pending: Seq<u8>,
    /// The limits that values are decoded under.
    pub limits: Limits,
    /// The fatal error that was met, if any.
    pub failure: Option<Error>,
    /// Whether the last chunk completed a value.
    pub complete: bool,
}

impl DriverModel {
    /// The driver before any chunk.
    pub open spec fn start(limits: Limits) -> DriverModel {
        DriverModel { pending: Seq::empty(), limits, failure: None, complete: false }
    }

    /// What holds of every driver: a failure is fatal, and a failed driver
    /// keeps no bytes.
    pub open spec fn wf(self) -> bool {
        self.failure matches Some(e) ==> e.fatal() && self.pending.len() == 0 && !self.complete
    }

    /// Where the driver stands.
    pub open spec fn phase(self) -> Phase {
        if self.failure is Some {
            Phase::Failed
        } else if self.complete {
            Phase::Complete
        } else if self.pending.len() == 0 {
            Phase::AwaitingTag
        } else {
            Phase::ParsingBody
        }
    }

    /// The driver after `chunk`, and what the chunk gave.
    ///
    /// A failed driver stays as it is and gives its failure again. Any
    /// other appends the chunk to its pending bytes and decodes from their
    /// head: a value leaves the pending bytes, a request for more data
    /// keeps them, a fatal error drops them for good.
    pub open spec fn feed(self, chunk: Seq<u8>) -> (DriverModel, StepModel) {
        if let Some(e) = self.failure {
            (self, StepModel::Failed(e))
        } else {
            let all = self.pending + chunk;
            match spec_parse(all, self.limits) {
                Ok((v, c)) => (
                    DriverModel { pending: all.skip(c), complete: true, ..self },
                    StepModel::Value(v),
                ),
                Err(e) => if e == Error::NeedMoreData {
                    (
                        DriverModel { pending: all, complete: false, ..self },
                        StepModel::NeedMoreData,
                    )
                } else {
                    (
                        DriverModel {
                            pending: Seq::empty(),
                            failure: Some(e),
                            complete: false,
                            ..self
                        },
                        StepModel::Failed(e),
                    )
                },
            }
        }
    }

    /// The driver after `chunks`, fed in their order.
    pub open spec fn feed_all(self, chunks: Seq<Seq<u8>>) -> DriverModel
        decreases chunks.len(),
    {
        if chunks.len() == 0 {
            self
        } else {
            self.feed_all(chunks.drop_last()).feed(chunks.last()).0
        }
    }
}

/// The bytes of `chunks`, one chunk after the other.
pub open spec fn joined(chunks: Seq<Seq<u8>>) -> Seq<u8>
    decreases chunks.len(),
{
    if chunks.len() == 0 {
        Seq::empty()
    } else {
        joined(chunks.drop_last()) + chunks.last()
    }
}

/// Feeding keeps a driver well formed, and tells its phase: `Complete`
/// after a value, `Failed` after a failure, and after a request for more
/// data `AwaitingTag` or `ParsingBody` as nothing or something is pending.
pub proof fn lemma_feed_keeps_wf(d: DriverModel, chunk: Seq<u8>)
    requires
        d.wf(),
    ensures
        d.feed(chunk).0.wf(),
        d.feed(chunk).0.limits == d.limits,
        d.feed(chunk).1 is Value <==> d.feed(chunk).0.phase() == Phase::Complete,
        d.feed(chunk).1 is Failed <==> d.feed(chunk).0.phase() == Phase::Failed,
        d.feed(chunk).1 matches StepModel::Failed(e) ==> e.fatal(),
{
}

/// A failed driver decodes nothing more, whatever it is fed.
pub proof fn lemma_failed_is_final(d: DriverModel, chunk: Seq<u8>)
    requires
        d.failure is Some,
    ensures
        d.feed(chunk).0 == d,
        d.feed(chunk).1 == StepModel::Failed(d.failure->0),
{
}

/// Where a chunk is cut in two, the first piece either asks for more data,
/// and the second piece then gives what the whole chunk gives and leaves
/// the driver as the whole chunk leaves it; or it gives what the whole chunk
/// gives, and leaves the second piece pending behind what the whole chunk
/// leaves pending.
pub proof fn lemma_feed_in_two(d: DriverModel, a: Seq<u8>, b: Seq<u8>)
    requires
        d.wf(),
    ensures
        ({
            let (whole, step) = d.feed(a + b);
            let (first, step1) = d.feed(a);
            &&& step1 is NeedMoreData ==> first.feed(b) == (whole, step)
            &&& !(step1 is NeedMoreData) ==> step1 == step
            &&& step1 is Value ==> first.pending + b == whole.pending
            &&& step1 is Failed ==> first == whole
        }),
{
    if d.failure is None {
        let all = d.pending + a;
        assert(all + b =~= d.pending + (a + b));
        match spec_parse(all, d.limits) {
            Ok((v, c)) => {
                lemma_value_stays(all, b, d.limits);
                lemma_value_bounds(all, d.limits.max_depth as nat, d.limits.max_payload as nat);
            },
            Err(e) => {
                if e != Error::NeedMoreData {
                    lemma_failure_stays(all, b, d.limits);
                }
            },
        }
    }
}

/// Chunk-split invariance: where `s` is the bytes of one value, a fresh
/// driver that is fed `s` cut at any index `k` gives that value once, as it
/// does when fed `s` whole, and is left with nothing pending either way.
pub proof fn lemma_chunk_split(s: Seq<u8>, k: int, limits: Limits)
    requires
        0 <= k <= s.len(),
        spec_parse(s, limits) matches Ok((_, c)) && c == s.len(),
    ensures
        ({
            let v = spec_parse(s, limits)->Ok_0.0;
            let (whole, step) = DriverModel::start(limits).feed(s);
            let (first, step1) = DriverModel::start(limits).feed(s.take(k));
            let (second, step2) = first.feed(s.skip(k));
            &&& step == StepModel::Value(v)
            &&& whole.pending.len() == 0
            &&& k < s.len() ==> step1 is NeedMoreData && step2 == step && second == whole
            &&& k == s.len() ==> step1 == step && step2 is NeedMoreData && second.pending
                == whole.pending
        }),
{
    assert(s.take(k) + s.skip(k) =~= s);
    lemma_feed_in_two(DriverModel::start(limits), s.take(k), s.skip(k));
}

/// While the chunks that were fed end inside a value, each of them asks
/// for more data, and the driver keeps exactly their bytes.
pub proof fn lemma_parts_need_more(s: Seq<u8>, chunks: Seq<Seq<u8>>, limits: Limits)
    requires
        spec_parse(s, limits) matches Ok((_, c)) && joined(chunks).len() < c,
        joined(chunks) == s.take(joined(chunks).len() as int),
    ensures
        DriverModel::start(limits).feed_all(chunks).pending == joined(chunks),
        DriverModel::start(limits).feed_all(chunks).failure is None,
        DriverModel::start(limits).feed_all(chunks).limits == limits,
        forall|i: int|
            0 <= i < chunks.len() ==> (#[trigger] DriverModel::start(limits).feed_all(
                chunks.take(i),
            )).feed(chunks[i]).1 is NeedMoreData,
    decreases chunks.len(),
{
    let start = DriverModel::start(limits);
    if chunks.len() > 0 {
        let init = chunks.drop_last();
        let k = joined(chunks).len() as int;
        let k0 = joined(init).len() as int;
        lemma_value_bounds(s, limits.max_depth as nat, limits.max_payload as nat);
        assert(joined(init) =~= s.take(k).take(k0));
        assert(s.take(k).take(k0) =~= s.take(k0));
        lemma_parts_need_more(s, init, limits);
        lemma_part_needs_more(s, k, limits);
        assert forall|i: int| 0 <= i < chunks.len() implies (#[trigger] start.feed_all(
            chunks.take(i),
        )).feed(chunks[i]).1 is NeedMoreData by {
            if i < init.len() {
                assert(init.take(i) =~= chunks.take(i));
            }
        }
    }
}

/// Chunk-split invariance for any number of chunks: where the chunks make
/// up the bytes of one value and the last of them is not empty, every chunk
/// but the last asks for more data, and the last gives the value and
/// leaves nothing pending.
pub proof fn lemma_any_chunks(s: Seq<u8>, chunks: Seq<Seq<u8>>, limits: Limits)
    requires
        spec_parse(s, limits) matches Ok((_, c)) && c == s.len(),
        chunks.len() > 0,
        chunks.last().len() > 0,
        joined(chunks) == s,
    ensures
        forall|i: int|
            0 <= i < chunks.len() - 1 ==> (#[trigger] DriverModel::start(limits).feed_all(
                chunks.take(i),
            )).feed(chunks[i]).1 is NeedMoreData,
        ({
            let v = spec_parse(s, limits)->Ok_0.0;
            let (after, step) = DriverModel::start(limits).feed_all(chunks.drop_last()).feed(
                chunks.last(),
            );
            step == StepModel::Value(v) && after.pending.len() == 0
        }),
{
    let start = DriverModel::start(limits);
    let init = chunks.drop_last();
    let k0 = joined(init).len() as int;
    assert(joined(init) =~= s.take(k0));
    lemma_parts_need_more(s, init, limits);
    assert forall|i: int| 0 <= i < chunks.len() - 1 implies (#[trigger] start.feed_all(
        chunks.take(i),
    )).feed(chunks[i]).1 is NeedMoreData by {
        assert(init.take(i) =~= chunks.take(i));
    }
}

/// A decoder for input that arrives in chunks of any size.
///
/// One driver serves one connection. It holds no resource but its buffer.
#[derive(Debug)]
pub struct Driver {
    cursor: ByteCursor,
    limits: Limits,
    failure: Option<Error>,
    complete: bool,
}

impl View for Driver {
    type V = DriverModel;

    closed spec fn view(&self) -> DriverModel {
        DriverModel {
            pending: self.cursor@,
            limits: self.limits,
            failure: self.failure,
            complete: self.complete,
        }
    }
}

impl Driver {
    #[verifier::type_invariant]
    closed spec fn inv(self) -> bool {
        self@.wf()
    }

    /// A driver that has seen no byte yet.
    pub fn new(limits: Limits) -> (r: Driver)
        ensures
            r@ == DriverModel::start(limits),
    {
        Driver { cursor: ByteCursor::new(), limits, failure: None, complete: false }
    }

    /// Takes the next chunk of the input and decodes from the head of what
    /// is pending.
    ///
    /// Gives at most one value. Where the chunk held the bytes of more, they
    /// stay pending, and [`Driver::poll`] gives the next.
    pub fn feed(&mut self, chunk: &[u8]) -> (step: Step)
        ensures
            (final(self)@, step@) == old(self)@.feed(chunk@),
            final(self)@.wf(),
    {
        proof {
            use_type_invariant(&*self);
        }
        if let Some(e) = self.failure {
            return Step::Failed(e);
        }
        let mut cursor = ByteCursor::new();
        std::mem::swap(&mut self.cursor, &mut cursor);
        cursor.append(chunk);
        let pending = cursor.pending();
        assert(pending@.skip(0) =~= pending@);
        match parse_at(pending, 0, self.limits.max_depth, self.limits.max_payload) {
            Ok((v, next)) => {
                cursor.advance(next);
                self.cursor = cursor;
                self.complete = true;
                Step::Value(v)
            },
            Err(Error::NeedMoreData) => {
                self.cursor = cursor;
                self.complete = false;
                Step::NeedMoreData
            },
            Err(e) => {
                self.complete = false;
                self.failure = Some(e);
                Step::Failed(e)
            },
        }
    }

    /// Decodes from the head of what is pending, without new input.
    pub fn poll(&mut self) -> (step: Step)
        ensures
            (final(self)@, step@) == old(self)@.feed(Seq::empty()),
            final(self)@.wf(),
    {
        let nothing: Vec<u8> = Vec::new();
        self.feed(nothing.as_slice())
    }

    /// Where the driver stands.
    pub fn phase(&self) -> (r: Phase)
        ensures
            r == self@.phase(),
    {
        if self.failure.is_some() {
            Phase::Failed
        } else if self.complete {
            Phase::Complete
        } else if self.cursor.pending_len() == 0 {
            Phase::AwaitingTag
        } else {
            Phase::ParsingBody
        }
    }

    /// The fatal error that was met, if any.
    pub fn failure(&self) -> (r: Option<Error>)
        ensures
            r == self@.failure,
            r matches Some(e) ==> e.fatal(),
    {
        proof {
            use_type_invariant(self);
        }
        self.failure
    }

    /// How many bytes arrived and were not decoded yet.
    pub fn pending_len(&self) -> (r: usize)
        ensures
            r == self@.pending.len(),
    {
        self.cursor.pending_len()
    }

    /// The limits that values are decoded under.
    pub fn limits(&self) -> (r: Limits)
        ensures
            r == self@.limits,
    {
        self.limits
    }
}

} // verus!
