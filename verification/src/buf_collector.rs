//! A buffering adapter in front of a block-wise document collector.
//!
//! Downstream collectors prefer to receive document ids in blocks. This
//! adapter stages ids handed to it one by one and passes them down a full
//! block at a time; ids handed to it already as a block bypass the staging
//! buffer and go straight down. A downstream error is propagated, and the
//! staging buffer is not reset by a failed handoff.

use vstd::prelude::*;

use crate::DocId;

verus! {

/// Number of document ids staged before they are handed downstream.
pub const DOC_BLOCK_SIZE: usize = 64;

/// A consumer of document ids, fed block by block. Its model,
/// `collected()`, is the sequence of every id it has consumed, in order.
pub trait SegmentAggregationCollector: Sized {
    /// The error a consumer may report.
    type Error;

    /// All document ids this collector has consumed so far, in order.
    spec fn collected(&self) -> Seq<DocId>;

    /// Consumes one block of document ids; a failed call consumes nothing.
    fn collect_block(&mut self, docs: &[DocId]) -> (r: Result<(), Self::Error>)
        ensures
            r is Ok ==> final(self).collected() == old(self).collected() + docs@,
            r is Err ==> final(self).collected() == old(self).collected(),
    ;

    /// Flushes whatever this collector itself may be buffering; consumes
    /// nothing new either way.
    fn flush(&mut self) -> (r: Result<(), Self::Error>)
        ensures
            final(self).collected() == old(self).collected(),
    ;
}

/// Buffers document ids and invokes the wrapped collector one full block
/// at a time.
#[derive(Clone)]
pub struct BufAggregationCollector<C> {
    collector: C,
    staged_docs: Vec<DocId>,
}

impl<C: SegmentAggregationCollector> BufAggregationCollector<C> {
    /// The ids staged here, not yet handed downstream: exactly those
    /// accepted one by one since the last successful full-block handoff.
    pub closed spec fn staged(&self) -> Seq<DocId> {
        self.staged_docs@
    }

    /// The ids the wrapped collector has consumed.
    pub closed spec fn downstream(&self) -> Seq<DocId> {
        self.collector.collected()
    }

    /// The staging buffer is short of a full block, so one more id fits. A
    /// failed handoff leaves a full buffer behind, and `collect` may not be
    /// called again on it — the next staged id would have nowhere to go.
    pub open spec fn wf(&self) -> bool {
        self.staged().len() < DOC_BLOCK_SIZE
    }

    /// Wraps `collector`, with nothing staged yet.
    pub fn new(collector: C) -> (r: Self)
        ensures
            r.wf(),
            r.staged() == Seq::<DocId>::empty(),
            r.downstream() == collector.collected(),
    {
        BufAggregationCollector { collector, staged_docs: Vec::new() }
    }

    /// The wrapped collector.
    pub fn collector(&self) -> (c: &C)
        ensures
            c.collected() == self.downstream(),
    {
        &self.collector
    }

    /// Accepts one document id. Below a full block it is only staged and
    /// the downstream collector is not invoked; the id that completes a
    /// block sends the whole block downstream in one call and resets the
    /// staging buffer. A downstream error leaves everything staged.
    pub fn collect(&mut self, doc: DocId) -> (r: Result<(), C::Error>)
        requires
            old(self).wf(),
        ensures
            old(self).staged().len() + 1 < DOC_BLOCK_SIZE ==> r is Ok && final(self).staged()
                == old(self).staged().push(doc) && final(self).downstream() == old(self).downstream(),
            r is Ok ==> final(self).wf(),
            old(self).staged().len() + 1 == DOC_BLOCK_SIZE && r is Ok ==> final(self).staged()
                == Seq::<DocId>::empty() && final(self).downstream() == old(self).downstream()
                + old(self).staged().push(doc),
            r is Err ==> final(self).staged() == old(self).staged().push(doc) && final(self).downstream() == old(self).downstream(),
    {
        self.staged_docs.push(doc);
        if self.staged_docs.len() == DOC_BLOCK_SIZE {
            match self.collector.collect_block(self.staged_docs.as_slice()) {
                Ok(()) => {
                    self.staged_docs.clear();
                    Ok(())
                },
                Err(e) => Err(e),
            }
        } else {
            Ok(())
        }
    }

    /// Hands a whole block of ids straight downstream. The block bypasses
    /// the staging buffer entirely: whatever is staged stays staged and is
    /// not ordered with respect to `docs`.
    pub fn collect_block(&mut self, docs: &[DocId]) -> (r: Result<(), C::Error>)
        ensures
            final(self).staged() == old(self).staged(),
            r is Ok ==> final(self).downstream() == old(self).downstream() + docs@,
            r is Err ==> final(self).downstream() == old(self).downstream(),
    {
        self.collector.collect_block(docs)
    }

    /// Takes the wrapped collector back out, to hand its accumulated
    /// results on. Anything still staged here is not included: callers
    /// flush first.
    pub fn into_inner(self) -> (c: C)
        ensures
            c.collected() == self.downstream(),
    {
        self.collector
    }

    /// Hands every staged id downstream and flushes the wrapped collector.
    /// A downstream error comes back either before the staged ids went
    /// down, everything unchanged, or after, with the staging buffer
    /// already reset.
    pub fn flush(&mut self) -> (r: Result<(), C::Error>)
        requires
            old(self).wf(),
        ensures
            final(self).wf(),
            r is Ok ==> final(self).staged() == Seq::<DocId>::empty() && final(self).downstream()
                == old(self).downstream() + old(self).staged(),
            r is Err ==> (final(self).staged() == old(self).staged() && final(self).downstream()
                == old(self).downstream()) || (final(self).staged() == Seq::<DocId>::empty()
                && final(self).downstream() == old(self).downstream() + old(self).staged()),
    {
        match self.collector.collect_block(self.staged_docs.as_slice()) {
            Ok(()) => {},
            Err(e) => {
                return Err(e);
            },
        }
        self.staged_docs.clear();
        self.collector.flush()
    }
}

/// The simplest downstream consumer: records every id it is given, in
/// order, and never fails. Its `collected()` model is exactly the recorded
/// sequence.
pub struct RecordingCollector {
    docs: Vec<DocId>,
}

impl RecordingCollector {
    /// A collector that has consumed nothing yet.
    pub fn new() -> (r: Self)
        ensures
            r.collected() == Seq::<DocId>::empty(),
    {
        RecordingCollector { docs: Vec::new() }
    }

    /// Every id consumed so far, in order.
    pub fn docs(&self) -> (v: &Vec<DocId>)
        ensures
            v@ == self.collected(),
    {
        &self.docs
    }
}

impl SegmentAggregationCollector for RecordingCollector {
    type Error = ();

    closed spec fn collected(&self) -> Seq<DocId> {
        self.docs@
    }

    fn collect_block(&mut self, docs: &[DocId]) -> (r: Result<(), ()>) {
        self.docs.extend_from_slice(docs);
        Ok(())
    }

    fn flush(&mut self) -> (r: Result<(), ()>) {
        Ok(())
    }
}

} // verus!
