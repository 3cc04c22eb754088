//! The delete log and its consumer cursors.
//!
//! The queue is conceptually a multi-consumer broadcast channel: every
//! cursor receives every operation, in push order. Operations accumulate in
//! a pending buffer; a cursor that reaches the end of the materialized log
//! triggers a flush, which turns the buffer into a new immutable block and
//! links it as the successor of the previous tail block.
//!
//! Blocks are kept in an arena owned by the queue, addressed by monotonically
//! increasing block ids, together with an explicit count of the cursors
//! positioned on each block. A cursor is a strong reference to its block:
//! blocks stay retained from the earliest block that still carries a cursor
//! up to the tail, and everything before that is reclaimed. The queue itself
//! holds only a weak position (the id of the latest block), so with no
//! cursors at all the whole chain is reclaimed and a fresh one is started on
//! demand. Because the reference counts live in the arena, creating and
//! retiring cursors goes through the queue: [`DeleteCursor::fork`] stands in
//! for cloning and [`DeleteCursor::release`] for dropping, and every cursor
//! operation takes the queue it belongs to. The contracts assume the cursor
//! is registered — its block's count is at least one — which holds of every
//! cursor that `cursor()` or `fork` produced and `release` has not consumed.

use vstd::prelude::*;

use crate::operation::DeleteOperation;
use crate::Opstamp;

verus! {

/// An immutable run of operations, plus the count of cursors positioned on
/// it. Its successor, once materialized, is the slot with the next block id;
/// a tail block's successor is not resolved yet.
struct Block<T> {
    operations: Vec<DeleteOperation<T>>,
    cursor_count: usize,
    /// Offset in the queue's history of `operations[0]`.
    start: Ghost<nat>,
}

/// The delete log: an append-only sequence of operations, consumed through
/// independent [`DeleteCursor`]s.
pub struct DeleteQueue<T> {
    /// Retained blocks; `blocks[i]` has block id `first_id + i`.
    blocks: Vec<Block<T>>,
    /// Block id of `blocks[0]`; blocks with smaller ids were reclaimed.
    first_id: usize,
    /// Operations pushed but not yet materialized into a block.
    pending: Vec<DeleteOperation<T>>,
    /// Every operation ever pushed, in push order.
    history: Ghost<Seq<DeleteOperation<T>>>,
}

/// A consumer's position in the log: a block id and an offset within that
/// block. Each cursor advances independently.
pub struct DeleteCursor {
    block: usize,
    pos: usize,
}

/// Total number of cursors registered on the given blocks.
spec fn counts_sum<T>(s: Seq<Block<T>>) -> nat
    decreases s.len(),
{
    if s.len() == 0 {
        0
    } else {
        (counts_sum(s.drop_last()) + s.last().cursor_count) as nat
    }
}

/// Each block's cursor count is at most the total.
proof fn lemma_sum_one<T>(s: Seq<Block<T>>, i: int)
    requires
        0 <= i < s.len(),
    ensures
        counts_sum(s) >= s[i].cursor_count,
    decreases s.len(),
{
    if i < s.len() - 1 {
        lemma_sum_one(s.drop_last(), i);
        assert(s.drop_last()[i] == s[i]);
    }
}

/// Replacing one block changes the total by the difference of the counts.
proof fn lemma_sum_update<T>(s: Seq<Block<T>>, i: int, v: Block<T>)
    requires
        0 <= i < s.len(),
    ensures
        counts_sum(s.update(i, v)) == counts_sum(s) - s[i].cursor_count + v.cursor_count,
    decreases s.len(),
{
    if i == s.len() - 1 {
        assert(s.update(i, v).drop_last() =~= s.drop_last());
        assert(s.update(i, v).last() == v);
    } else {
        lemma_sum_update(s.drop_last(), i, v);
        assert(s.update(i, v).drop_last() =~= s.drop_last().update(i, v));
        assert(s.update(i, v).last() == s.last());
        assert(s.drop_last()[i] == s[i]);
    }
}

/// Appending a block adds its count to the total.
proof fn lemma_sum_push<T>(s: Seq<Block<T>>, v: Block<T>)
    ensures
        counts_sum(s.push(v)) == counts_sum(s) + v.cursor_count,
{
    assert(s.push(v).drop_last() =~= s);
    assert(s.push(v).last() == v);
}

/// Dropping the first block removes its count from the total.
proof fn lemma_sum_remove_first<T>(s: Seq<Block<T>>)
    requires
        s.len() > 0,
    ensures
        counts_sum(s.subrange(1, s.len() as int)) == counts_sum(s) - s[0].cursor_count,
    decreases s.len(),
{
    if s.len() == 1 {
        assert(s.subrange(1, 1) =~= Seq::<Block<T>>::empty());
        assert(counts_sum(s.subrange(1, 1)) == 0);
        assert(s.drop_last() =~= Seq::<Block<T>>::empty());
        assert(counts_sum(s) == counts_sum(s.drop_last()) + s.last().cursor_count);
    } else {
        let t = s.subrange(1, s.len() as int);
        lemma_sum_remove_first(s.drop_last());
        assert(t.drop_last() =~= s.drop_last().subrange(1, s.len() - 1));
        assert(t.last() == s.last());
        assert(s.drop_last()[0] == s[0]);
        assert(counts_sum(t) == counts_sum(t.drop_last()) + t.last().cursor_count);
        assert(counts_sum(s) == counts_sum(s.drop_last()) + s.last().cursor_count);
    }
}

impl<T> DeleteQueue<T> {
    /// Every operation ever pushed, in push order. Cursors observe
    /// contiguous runs of this sequence.
    pub closed spec fn history(&self) -> Seq<DeleteOperation<T>> {
        self.history@
    }

    /// How many operations have been materialized into blocks. The rest,
    /// `history()[flushed()..]`, are still pending.
    pub closed spec fn flushed(&self) -> nat {
        (self.history@.len() - self.pending@.len()) as nat
    }

    /// Id of the earliest retained block.
    pub closed spec fn first_block_id(&self) -> nat {
        self.first_id as nat
    }

    /// Id the next materialized block will get; ids of retained blocks are
    /// `first_block_id() <= b < next_block_id()`.
    pub closed spec fn next_block_id(&self) -> nat {
        (self.first_id + self.blocks@.len()) as nat
    }

    /// Number of retained (not yet reclaimed) blocks.
    pub closed spec fn num_blocks(&self) -> nat {
        self.blocks@.len()
    }

    /// Whether block `b` is currently retained.
    pub open spec fn retained(&self, b: nat) -> bool {
        self.first_block_id() <= b < self.next_block_id()
    }

    /// Offset in the history of the first operation of retained block `b`.
    pub closed spec fn block_start(&self, b: nat) -> nat {
        self.blocks@[b - self.first_id].start@
    }

    /// Offset in the history just past the last operation of retained block
    /// `b`.
    pub open spec fn block_end(&self, b: nat) -> nat {
        self.block_start(b) + self.block_ops(b).len()
    }

    /// The operations of retained block `b`.
    pub closed spec fn block_ops(&self, b: nat) -> Seq<DeleteOperation<T>> {
        self.blocks@[b - self.first_id].operations@
    }

    /// Number of cursors registered on block `b` (0 if `b` is not retained).
    pub closed spec fn count(&self, b: nat) -> nat {
        if self.retained(b) {
            self.blocks@[b - self.first_id].cursor_count as nat
        } else {
            0
        }
    }

    /// Total number of registered cursors, over all blocks.
    pub closed spec fn cursors(&self) -> nat {
        counts_sum(self.blocks@)
    }

    /// Structural invariants of the arena, except for the reclamation
    /// invariant on the earliest block.
    spec fn inv_core(&self) -> bool {
        let n = self.blocks@.len();
        &&& self.pending@.len() <= self.history@.len()
        &&& self.pending@ == self.history@.subrange(
            self.flushed() as int,
            self.history@.len() as int,
        )
        &&& forall|i: int|
            0 <= i < n ==> (#[trigger] self.blocks@[i]).operations@ == self.history@.subrange(
                self.blocks@[i].start@ as int,
                (self.blocks@[i].start@ + self.blocks@[i].operations@.len()) as int,
            )
        &&& forall|i: int|
            #![trigger self.blocks@[i], self.blocks@[i + 1]]
            0 <= i < n - 1 ==> self.blocks@[i].start@ + self.blocks@[i].operations@.len()
                == self.blocks@[i + 1].start@
        &&& n > 0 ==> self.blocks@[n - 1].start@ + self.blocks@[n - 1].operations@.len()
            == self.flushed()
        &&& forall|i: int|
            0 <= i < n ==> (#[trigger] self.blocks@[i]).start@ + self.blocks@[i].operations@.len()
                <= self.flushed()
        &&& forall|i: int| 1 <= i < n ==> (#[trigger] self.blocks@[i]).operations@.len() > 0
        &&& self.first_id + n <= usize::MAX
        &&& counts_sum(self.blocks@) <= usize::MAX
    }

    /// Well-formedness: the arena invariants, and the reclamation invariant
    /// that the earliest retained block still carries at least one cursor —
    /// history with no surviving reference is not retained.
    pub closed spec fn wf(&self) -> bool {
        &&& self.inv_core()
        &&& self.num_blocks() > 0 ==> self.blocks@[0].cursor_count > 0
    }

    /// Whether one more block can be materialized without exhausting the
    /// block id space. This always holds in practice; it is a machine limit,
    /// not a property of the log.
    pub open spec fn can_materialize(&self) -> bool {
        self.flushed() < self.history().len() ==> self.next_block_id() < usize::MAX
    }

    /// Creates a new, empty delete queue.
    pub fn new() -> (q: Self)
        ensures
            q.wf(),
            q.history() == Seq::<DeleteOperation<T>>::empty(),
            q.flushed() == 0,
            q.num_blocks() == 0,
            q.next_block_id() == 0,
            q.cursors() == 0,
    {
        let q = DeleteQueue {
            blocks: Vec::new(),
            first_id: 0,
            pending: Vec::new(),
            history: Ghost(Seq::empty()),
        };
        proof {
            assert(q.pending@ =~= q.history@.subrange(
                q.flushed() as int,
                q.history@.len() as int,
            ));
        }
        q
    }

    /// Appends a new delete operation to the log. The operation is buffered:
    /// it is materialized (and becomes visible to cursors) on the next
    /// flush. Pushing never fails and never disturbs any block or cursor.
    pub fn push(&mut self, delete_operation: DeleteOperation<T>)
        requires
            old(self).wf(),
        ensures
            final(self).wf(),
            final(self).history() == old(self).history().push(delete_operation),
            final(self).flushed() == old(self).flushed(),
            final(self).cursors() == old(self).cursors(),
            blocks_unchanged(old(self), final(self)),
    {
        let ghost pre = *self;
        self.history = Ghost(self.history@.push(delete_operation));
        self.pending.push(delete_operation);
        proof {
            assert(self.pending@ =~= self.history@.subrange(
                self.flushed() as int,
                self.history@.len() as int,
            ));
            assert forall|i: int| 0 <= i < self.blocks@.len() implies (#[trigger] self.blocks@[i]).operations@
                == self.history@.subrange(
                self.blocks@[i].start@ as int,
                (self.blocks@[i].start@ + self.blocks@[i].operations@.len()) as int,
            ) by {
                assert(self.blocks@[i].operations@ == pre.history@.subrange(
                    self.blocks@[i].start@ as int,
                    (self.blocks@[i].start@ + self.blocks@[i].operations@.len()) as int,
                ));
                assert(self.blocks@[i].start@ + self.blocks@[i].operations@.len()
                    <= pre.history@.len());
                assert(self.history@.subrange(
                    self.blocks@[i].start@ as int,
                    (self.blocks@[i].start@ + self.blocks@[i].operations@.len()) as int,
                ) =~= pre.history@.subrange(
                    self.blocks@[i].start@ as int,
                    (self.blocks@[i].start@ + self.blocks@[i].operations@.len()) as int,
                ));
            }
        }
    }

    /// Materializes the pending operations, if any, into a new immutable
    /// tail block. Returns the id of the new block, or `None` if nothing was
    /// pending (not an error: there is simply no successor yet).
    fn flush(&mut self) -> (r: Option<usize>)
        requires
            old(self).wf(),
            old(self).num_blocks() > 0,
            old(self).can_materialize(),
        ensures
            final(self).wf(),
            final(self).history() == old(self).history(),
            final(self).first_block_id() == old(self).first_block_id(),
            final(self).cursors() == old(self).cursors(),
            old(self).flushed() == old(self).history().len() ==> r is None && *final(self) == *old(self),
            old(self).flushed() < old(self).history().len() ==> {
                &&& r == Some((old(self).next_block_id() as usize))
                &&& final(self).flushed() == old(self).history().len()
                &&& final(self).next_block_id() == old(self).next_block_id() + 1
                &&& final(self).block_start(old(self).next_block_id()) == old(self).flushed()
                &&& final(self).block_ops(old(self).next_block_id()) == old(self).history().subrange(
                    old(self).flushed() as int,
                    old(self).history().len() as int,
                )
                &&& final(self).count(old(self).next_block_id()) == 0
            },
            forall|b: nat|
                #[trigger] old(self).retained(b) ==> final(self).block_start(b) == old(self).block_start(b) && final(self).block_ops(b) == old(self).block_ops(b) && final(self).count(b) == old(self).count(b),
    {
        if self.pending.len() == 0 {
            return None;
        }
        let ghost pre = *self;
        let new_id = self.first_id + self.blocks.len();
        let ghost start = pre.flushed();
        let mut operations: Vec<DeleteOperation<T>> = Vec::new();
        core::mem::swap(&mut operations, &mut self.pending);
        self.blocks.push(
            Block { operations, cursor_count: 0, start: Ghost(start) },
        );
        proof {
            lemma_sum_push(pre.blocks@, self.blocks@.last());
            assert(self.blocks@.drop_last() =~= pre.blocks@);
            assert(self.pending@ =~= self.history@.subrange(
                self.flushed() as int,
                self.history@.len() as int,
            ));
            assert(forall|i: int|
                0 <= i < pre.blocks@.len() ==> self.blocks@[i] == pre.blocks@[i]);
            assert forall|b: nat| #[trigger] pre.retained(b) implies self.block_start(b)
                == pre.block_start(b) && self.block_ops(b) == pre.block_ops(b) && self.count(b)
                == pre.count(b) by {
                assert(self.blocks@[b - self.first_id] == pre.blocks@[b - pre.first_id]);
            }
        }
        Some(new_id)
    }

    /// Drops the longest prefix of blocks that no registered cursor is
    /// positioned on: once every cursor has moved past a block (and the
    /// blocks before it), nothing references it any more and it is
    /// reclaimed. The queue itself only weakly remembers the tail.
    fn reclaim(&mut self)
        requires
            old(self).inv_core(),
        ensures
            final(self).wf(),
            final(self).history() == old(self).history(),
            final(self).flushed() == old(self).flushed(),
            final(self).next_block_id() == old(self).next_block_id(),
            final(self).cursors() == old(self).cursors(),
            old(self).first_block_id() <= final(self).first_block_id(),
            forall|b: nat|
                #[trigger] final(self).retained(b) ==> old(self).retained(b) && final(self).block_start(b) == old(self).block_start(b) && final(self).block_ops(b) == old(self).block_ops(b) && final(self).count(b) == old(self).count(b),
            forall|b: nat|
                old(self).retained(b) && #[trigger] old(self).count(b) > 0 ==> final(self).retained(b),
            forall|b: nat|
                old(self).retained(b) && !final(self).retained(b) ==> #[trigger] old(self).count(b)
                    == 0,
    {
        let ghost pre = *self;
        while self.blocks.len() > 0 && self.blocks[0].cursor_count == 0
            invariant
                self.inv_core(),
                self.history@ == pre.history@,
                self.pending@ == pre.pending@,
                self.next_block_id() == pre.next_block_id(),
                self.cursors() == pre.cursors(),
                pre.first_block_id() <= self.first_block_id(),
                shrunk_from(pre, *self),
            decreases self.blocks@.len(),
        {
            let ghost mid = *self;
            self.blocks.remove(0);
            self.first_id = self.first_id + 1;
            proof {
                assert(self.blocks@ =~= mid.blocks@.subrange(1, mid.blocks@.len() as int));
                lemma_sum_remove_first(mid.blocks@);
                assert forall|i: int| 0 <= i < self.blocks@.len() implies #[trigger] self.blocks@[i]
                    == mid.blocks@[i + 1] by {
                    assert(self.blocks@ == mid.blocks@.subrange(0, 0) + mid.blocks@.subrange(
                        1,
                        mid.blocks@.len() as int,
                    ));
                }
                assert(mid.count(mid.first_block_id()) == 0);
                assert(mid.block_start(mid.first_block_id()) == pre.block_start(
                    mid.first_block_id(),
                ));
                assert(pre.count(mid.first_block_id()) == 0);
                assert forall|b: nat| #[trigger] self.retained(b) implies pre.retained(b)
                    && self.block_start(b) == pre.block_start(b) && self.block_ops(b)
                    == pre.block_ops(b) && self.count(b) == pre.count(b) by {
                    assert(self.blocks@[b - self.first_id] == mid.blocks@[b - mid.first_id]);
                    assert(mid.retained(b));
                    assert(mid.block_start(b) == pre.block_start(b));
                }
                assert forall|b: nat| pre.retained(b) && !(#[trigger] self.retained(b)) implies pre
                    .count(b) == 0 by {
                    if mid.retained(b) {
                        assert(b == mid.first_block_id());
                    }
                }
                assert(self.flushed() == pre.flushed());
                assert(shrunk_from(pre, *self));
            }
        }
    }

    /// Moves one registered cursor from block `from` to block `to`, then
    /// reclaims whatever prefix of the chain this leaves unreferenced.
    fn move_cursor(&mut self, from: usize, to: usize)
        requires
            old(self).wf(),
            old(self).retained(from as nat),
            old(self).retained(to as nat),
            old(self).count(from as nat) >= 1,
            from != to,
        ensures
            final(self).wf(),
            final(self).history() == old(self).history(),
            final(self).flushed() == old(self).flushed(),
            final(self).next_block_id() == old(self).next_block_id(),
            final(self).cursors() == old(self).cursors(),
            old(self).first_block_id() <= final(self).first_block_id(),
            forall|b: nat|
                #[trigger] final(self).retained(b) ==> old(self).retained(b) && final(self).block_start(b) == old(self).block_start(b) && final(self).block_ops(b) == old(self).block_ops(b) && final(self).count(b) == step_count(
                    old(self),
                    from as nat,
                    to as nat,
                    b,
                ),
            forall|b: nat|
                #[trigger] old(self).retained(b) && step_count(
                    old(self),
                    from as nat,
                    to as nat,
                    b,
                ) > 0 ==> final(self).retained(b),
            forall|b: nat|
                #[trigger] old(self).retained(b) && !final(self).retained(b) ==> step_count(
                    old(self),
                    from as nat,
                    to as nat,
                    b,
                ) == 0,
    {
        let ghost pre = *self;
        let from_idx = from - self.first_id;
        let c = self.blocks[from_idx].cursor_count;
        self.blocks[from_idx].cursor_count = c - 1;
        let ghost q2 = *self;
        proof {
            lemma_sum_update(pre.blocks@, from_idx as int, self.blocks@[from_idx as int]);
        }
        let to_idx = to - self.first_id;
        let c2 = self.blocks[to_idx].cursor_count;
        proof {
            lemma_sum_one(q2.blocks@, to_idx as int);
        }
        self.blocks[to_idx].cursor_count = c2 + 1;
        let ghost q3 = *self;
        proof {
            lemma_sum_update(q2.blocks@, to_idx as int, self.blocks@[to_idx as int]);
            assert forall|b: nat| q3.retained(b) implies q3.block_start(b) == pre.block_start(b)
                && q3.block_ops(b) == pre.block_ops(b) && q3.count(b) == step_count(
                &pre,
                from as nat,
                to as nat,
                b,
            ) by {
                if b != from as nat && b != to as nat {
                    assert(q3.blocks@[b - q3.first_id] == pre.blocks@[b - pre.first_id]);
                }
            }
        }
        self.reclaim();
        proof {
            assert forall|b: nat| #[trigger] self.retained(b) implies pre.retained(b)
                && self.block_start(b) == pre.block_start(b) && self.block_ops(b)
                == pre.block_ops(b) && self.count(b) == step_count(
                &pre,
                from as nat,
                to as nat,
                b,
            ) by {
                assert(q3.retained(b) && self.count(b) == q3.count(b));
            }
            assert forall|b: nat| #[trigger] pre.retained(b) && step_count(
                &pre,
                from as nat,
                to as nat,
                b,
            ) > 0 implies self.retained(b) by {
                assert(q3.count(b) == step_count(&pre, from as nat, to as nat, b));
            }
        }
    }

    /// Resolves the successor of block `b`. The fast path finds the
    /// successor already materialized and changes nothing; otherwise `b` is
    /// the tail and a flush is attempted. The resolution is monotonic: a
    /// successor, once returned, is permanent, and every caller that asks
    /// for the successor of `b` gets the same block.
    fn next_block(&mut self, b: usize) -> (r: Option<usize>)
        requires
            old(self).wf(),
            old(self).retained(b as nat),
            old(self).can_materialize(),
        ensures
            final(self).wf(),
            final(self).history() == old(self).history(),
            final(self).cursors() == old(self).cursors(),
            r is None <==> (b as nat + 1 == old(self).next_block_id() && old(self).flushed()
                == old(self).history().len()),
            r is None ==> *final(self) == *old(self),
            r is Some ==> r == Some((b + 1) as usize) && final(self).retained(b as nat + 1),
            b as nat + 1 < old(self).next_block_id() ==> *final(self) == *old(self),
            b as nat + 1 == old(self).next_block_id() && old(self).flushed() < old(self).history().len() ==> {
                &&& final(self).flushed() == old(self).history().len()
                &&& final(self).next_block_id() == old(self).next_block_id() + 1
                &&& final(self).block_start(b as nat + 1) == old(self).flushed()
                &&& final(self).block_ops(b as nat + 1) == old(self).history().subrange(
                    old(self).flushed() as int,
                    old(self).history().len() as int,
                )
                &&& final(self).count(b as nat + 1) == 0
            },
            final(self).first_block_id() == old(self).first_block_id(),
            forall|b2: nat|
                #[trigger] old(self).retained(b2) ==> final(self).block_start(b2) == old(self).block_start(b2) && final(self).block_ops(b2) == old(self).block_ops(b2) && final(self).count(b2) == old(self).count(b2),
    {
        if b - self.first_id + 1 < self.blocks.len() {
            // The successor is already materialized: nothing to do.
            Some(b + 1)
        } else {
            // `b` is the tail: ask for the pending operations.
            self.flush()
        }
    }

    /// Returns the id of the latest block, creating an empty one if none is
    /// retained (the queue only remembers its tail weakly, so after all
    /// cursors are gone a fresh chain is started). The new block carries no
    /// cursor yet; the caller registers one.
    fn get_last_block(&mut self) -> (b: usize)
        requires
            old(self).wf(),
            old(self).num_blocks() == 0 ==> old(self).next_block_id() < usize::MAX,
        ensures
            final(self).inv_core(),
            final(self).history() == old(self).history(),
            final(self).flushed() == old(self).flushed(),
            final(self).cursors() == old(self).cursors(),
            old(self).num_blocks() > 0 ==> *final(self) == *old(self),
            final(self).num_blocks() > 0,
            b as nat == final(self).next_block_id() - 1,
            final(self).retained(b as nat),
            old(self).num_blocks() == 0 ==> {
                &&& final(self).next_block_id() == old(self).next_block_id() + 1
                &&& final(self).first_block_id() == old(self).first_block_id()
                &&& final(self).block_start(b as nat) == old(self).flushed()
                &&& final(self).block_ops(b as nat) == Seq::<DeleteOperation<T>>::empty()
                &&& final(self).count(b as nat) == 0
            },
    {
        if self.blocks.len() > 0 {
            self.first_id + self.blocks.len() - 1
        } else {
            let id = self.first_id;
            let ghost start = self.flushed();
            self.blocks.push(
                Block { operations: Vec::new(), cursor_count: 0, start: Ghost(start) },
            );
            proof {
                lemma_sum_push(old(self).blocks@, self.blocks@.last());
                assert(self.blocks@.drop_last() =~= old(self).blocks@);
                assert(self.blocks@[0].operations@ =~= self.history@.subrange(
                    start as int,
                    (start + self.blocks@[0].operations@.len()) as int,
                ));
                assert(self.block_ops(id as nat) =~= Seq::<DeleteOperation<T>>::empty());
            }
            id
        }
    }

    /// Creates a new cursor positioned at the end of the latest block: it
    /// observes none of the already materialized operations, and every
    /// operation materialized from now on, in push order. Pending
    /// operations, not yet materialized, will be observed too.
    pub fn cursor(&mut self) -> (c: DeleteCursor)
        requires
            old(self).wf(),
            old(self).cursors() < usize::MAX,
            old(self).num_blocks() == 0 ==> old(self).next_block_id() < usize::MAX,
        ensures
            final(self).wf(),
            final(self).history() == old(self).history(),
            final(self).flushed() == old(self).flushed(),
            final(self).cursors() == old(self).cursors() + 1,
            c.wf(final(self)),
            c.off(final(self)) == old(self).flushed(),
            c.block_id() == final(self).next_block_id() - 1,
            final(self).first_block_id() == old(self).first_block_id(),
            old(self).num_blocks() > 0 ==> final(self).next_block_id() == old(self).next_block_id(),
            old(self).num_blocks() == 0 ==> final(self).next_block_id() == old(self).next_block_id() + 1,
            old(self).num_blocks() == 0 ==> final(self).block_ops(c.block_id()) == Seq::<
                DeleteOperation<T>,
            >::empty() && final(self).block_start(c.block_id()) == old(self).flushed(),
            forall|b: nat|
                #[trigger] old(self).retained(b) ==> final(self).block_start(b) == old(self).block_start(b) && final(self).block_ops(b) == old(self).block_ops(b),
            forall|b: nat|
                final(self).count(b) == old(self).count(b) + (if b == c.block_id() {
                    1nat
                } else {
                    0nat
                }),
    {
        let b = self.get_last_block();
        let ghost mid = *self;
        let idx = b - self.first_id;
        let len = self.blocks[idx].operations.len();
        let count = self.blocks[idx].cursor_count;
        proof {
            lemma_sum_one(mid.blocks@, idx as int);
        }
        self.blocks[idx].cursor_count = count + 1;
        proof {
            lemma_sum_update(mid.blocks@, idx as int, self.blocks@[idx as int]);
            assert forall|b2: nat| self.retained(b2) && b2 != b as nat implies self.blocks@[b2
                - self.first_id] == mid.blocks@[b2 - mid.first_id] by {
            }
        }
        DeleteCursor { block: b, pos: len }
    }

    /// Number of blocks currently retained. Consumed and released history
    /// is reclaimed, so this does not grow with the length of the log, only
    /// with its unconsumed part.
    pub fn retained_blocks(&self) -> (n: usize)
        ensures
            n as nat == self.num_blocks(),
    {
        self.blocks.len()
    }
}

impl DeleteCursor {
    /// Id of the block this cursor is positioned on.
    pub closed spec fn block_id(&self) -> nat {
        self.block as nat
    }

    /// Offset of this cursor within its block.
    pub closed spec fn pos(&self) -> nat {
        self.pos as nat
    }

    /// The cursor points into a retained block of `q`, at or before its end.
    pub open spec fn wf<T>(&self, q: &DeleteQueue<T>) -> bool {
        &&& q.retained(self.block_id())
        &&& self.pos() <= q.block_ops(self.block_id()).len()
    }

    /// The cursor's logical position: the offset in `q.history()` of the
    /// next operation it observes.
    pub open spec fn off<T>(&self, q: &DeleteQueue<T>) -> nat {
        q.block_start(self.block_id()) + self.pos()
    }

    /// If the current block has been entirely consumed, try to move to its
    /// successor (resolving it, which may flush). Returns `true` if the
    /// cursor now points at an operation, `false` if it has caught up with
    /// the live tail of the log.
    fn load_block_if_required<T>(&mut self, queue: &mut DeleteQueue<T>) -> (r: bool)
        requires
            old(queue).wf(),
            old(self).wf(old(queue)),
            old(queue).count(old(self).block_id()) >= 1,
            old(queue).can_materialize(),
        ensures
            final(queue).wf(),
            final(self).wf(final(queue)),
            cursor_step(old(queue), old(self).block_id(), final(self).block_id(), final(queue)),
            final(queue).count(final(self).block_id()) >= 1,
            final(self).off(final(queue)) == old(self).off(old(queue)),
            r <==> old(self).off(old(queue)) < old(queue).history().len(),
            r ==> final(self).pos() < final(queue).block_ops(final(self).block_id()).len(),
            !r ==> *final(self) == *old(self) && *final(queue) == *old(queue),
            old(self).pos() < old(queue).block_ops(old(self).block_id()).len() ==> *final(self)
                == *old(self) && *final(queue) == *old(queue),
    {
        let ghost pre = *queue;
        let ghost from = self.block as nat;
        let idx = self.block - queue.first_id;
        let len = queue.blocks[idx].operations.len();
        if self.pos < len {
            proof {
                assert(self.off(queue) < queue.block_end(from));
            }
            return true;
        }
        match queue.next_block(self.block) {
            Some(next) => {
                let ghost q1 = *queue;
                let ghost to = next as nat;
                proof {
                    if to < pre.next_block_id() {
                        // The successor was already materialized: the chain
                        // invariant places it right after the current block.
                        assert(pre.blocks@[from - pre.first_id].start@
                            + pre.blocks@[from - pre.first_id].operations@.len()
                            == pre.blocks@[from - pre.first_id + 1].start@);
                        assert(pre.blocks@[from - pre.first_id + 1].operations@.len() > 0);
                        assert(pre.block_end(from) == pre.block_start(to));
                        assert(pre.block_ops(to).len() > 0);
                    }
                    assert(q1.count(from) == pre.count(from));
                }
                queue.move_cursor(self.block, next);
                self.block = next;
                self.pos = 0;
                proof {
                    assert(queue.retained(to)) by {
                        assert(step_count(&q1, from, to, to) > 0);
                    }
                    assert forall|b: nat|
                        #[trigger] step_count(&q1, from, to, b) == step_count(
                        &pre,
                        from,
                        to,
                        b,
                    ) by {
                        if pre.retained(b) {
                            assert(q1.count(b) == pre.count(b));
                        } else if q1.retained(b) {
                            assert(q1.count(b) == 0);
                        }
                    }
                    assert(cursor_step(&pre, from, to, queue));
                }
                true
            }
            None => {
                proof {
                    assert(self.off(queue) == queue.block_end(from));
                }
                false
            }
        }
    }

    /// Returns the operation at the cursor's position without advancing,
    /// resolving the next block first if the current one is exhausted.
    /// `None` means the cursor has caught up with the live tail: not an
    /// error, the call can simply be retried once more operations exist.
    pub fn get<'a, T>(&mut self, queue: &'a mut DeleteQueue<T>) -> (r: Option<
        &'a DeleteOperation<T>,
    >)
        requires
            old(queue).wf(),
            old(self).wf(old(queue)),
            old(queue).count(old(self).block_id()) >= 1,
            old(queue).can_materialize(),
        ensures
            final(queue).wf(),
            final(self).wf(final(queue)),
            cursor_step(old(queue), old(self).block_id(), final(self).block_id(), final(queue)),
            final(queue).count(final(self).block_id()) >= 1,
            final(self).off(final(queue)) == old(self).off(old(queue)),
            r is Some <==> old(self).off(old(queue)) < old(queue).history().len(),
            r is None ==> final(self).off(final(queue)) == final(queue).history().len(),
            r matches Some(op) ==> *op == final(queue).history()[old(self).off(old(queue)) as int],
    {
        if self.load_block_if_required(queue) {
            let idx = self.block - queue.first_id;
            proof {
                assert(queue.block_ops(self.block as nat) == queue.history().subrange(
                    queue.block_start(self.block as nat) as int,
                    queue.block_end(self.block as nat) as int,
                ));
            }
            Some(&queue.blocks[idx].operations[self.pos])
        } else {
            None
        }
    }

    /// Advances to the next operation. Returns `true` if and only if there
    /// was an operation at the cursor's position to move past; the cursor's
    /// position never moves backwards.
    pub fn advance<T>(&mut self, queue: &mut DeleteQueue<T>) -> (r: bool)
        requires
            old(queue).wf(),
            old(self).wf(old(queue)),
            old(queue).count(old(self).block_id()) >= 1,
            old(queue).can_materialize(),
        ensures
            final(queue).wf(),
            final(self).wf(final(queue)),
            cursor_step(old(queue), old(self).block_id(), final(self).block_id(), final(queue)),
            final(queue).count(final(self).block_id()) >= 1,
            r <==> old(self).off(old(queue)) < old(queue).history().len(),
            r ==> final(self).off(final(queue)) == old(self).off(old(queue)) + 1,
            !r ==> final(self).off(final(queue)) == old(self).off(old(queue)),
            !r ==> *final(self) == *old(self) && *final(queue) == *old(queue),
    {
        if self.load_block_if_required(queue) {
            let idx = self.block - queue.first_id;
            let len = queue.blocks[idx].operations.len();
            assert(self.pos < len);
            self.pos = self.pos + 1;
            true
        } else {
            false
        }
    }

    /// Whether the operation at the cursor's position exists and carries an
    /// opstamp strictly less than `target_opstamp`.
    fn is_behind_opstamp<T>(&mut self, queue: &mut DeleteQueue<T>, target_opstamp: Opstamp) -> (r:
        bool)
        requires
            old(queue).wf(),
            old(self).wf(old(queue)),
            old(queue).count(old(self).block_id()) >= 1,
            old(queue).can_materialize(),
        ensures
            final(queue).wf(),
            final(self).wf(final(queue)),
            cursor_step(old(queue), old(self).block_id(), final(self).block_id(), final(queue)),
            final(queue).count(final(self).block_id()) >= 1,
            final(self).off(final(queue)) == old(self).off(old(queue)),
            r <==> (old(self).off(old(queue)) < old(queue).history().len() && old(queue).history()[old(self).off(old(queue)) as int].opstamp < target_opstamp),
    {
        match self.get(queue) {
            Some(operation) => operation.opstamp < target_opstamp,
            None => false,
        }
    }

    /// Skips operations: advances the cursor past every operation whose
    /// opstamp is strictly less than `target_opstamp`, stopping either at
    /// the first operation with an opstamp at or above the target, or at
    /// the tail if the log is exhausted first. A target already at or
    /// behind the cursor's position leaves the cursor where it is. Ties and
    /// ordering across equal opstamps are resolved purely by push order.
    pub fn skip_to<T>(&mut self, queue: &mut DeleteQueue<T>, target_opstamp: Opstamp)
        requires
            old(queue).wf(),
            old(self).wf(old(queue)),
            old(queue).count(old(self).block_id()) >= 1,
            old(queue).can_materialize(),
        ensures
            final(queue).wf(),
            final(self).wf(final(queue)),
            cursor_step(old(queue), old(self).block_id(), final(self).block_id(), final(queue)),
            final(queue).count(final(self).block_id()) >= 1,
            old(self).off(old(queue)) <= final(self).off(final(queue)) <= final(queue).history().len(),
            forall|k: int|
                old(self).off(old(queue)) <= k < final(self).off(final(queue))
                    ==> final(queue).history()[k].opstamp < target_opstamp,
            final(self).off(final(queue)) < final(queue).history().len() ==> final(queue).history()[final(self).off(final(queue)) as int].opstamp >= target_opstamp,
    {
        let ghost q0 = *queue;
        let ghost c0 = *self;
        loop
            invariant
                queue.wf(),
                self.wf(queue),
                queue.count(self.block_id()) >= 1,
                queue.can_materialize(),
                cursor_step(&q0, c0.block_id(), self.block_id(), queue),
                c0.off(&q0) <= self.off(queue) <= queue.history().len(),
                forall|k: int|
                    c0.off(&q0) <= k < self.off(queue) ==> queue.history()[k].opstamp
                        < target_opstamp,
            ensures
                queue.wf(),
                self.wf(queue),
                queue.count(self.block_id()) >= 1,
                cursor_step(&q0, c0.block_id(), self.block_id(), queue),
                c0.off(&q0) <= self.off(queue) <= queue.history().len(),
                forall|k: int|
                    c0.off(&q0) <= k < self.off(queue) ==> queue.history()[k].opstamp
                        < target_opstamp,
                self.off(queue) < queue.history().len() ==> queue.history()[self.off(queue) as int].opstamp >= target_opstamp,
            decreases queue.history().len() - self.off(queue),
        {
            let ghost qa = *queue;
            let ghost ca = *self;
            let behind = self.is_behind_opstamp(queue, target_opstamp);
            proof {
                lemma_step_trans(q0, c0.block_id(), ca.block_id(), qa, self.block_id(), *queue);
            }
            if !behind {
                break;
            }
            let ghost qb = *queue;
            let ghost cb = *self;
            self.advance(queue);
            proof {
                lemma_step_trans(q0, c0.block_id(), cb.block_id(), qb, self.block_id(), *queue);
            }
        }
    }

    /// Replays the rest of the log: repeatedly takes the operation at the
    /// cursor and advances, until the cursor has caught up with the live
    /// tail. The returned opstamps are exactly those of the operations from
    /// the cursor's position to the end of the history, in push order, each
    /// delivered exactly once: nothing is lost, duplicated or reordered,
    /// however pushes, flushes and reclamations were interleaved before the
    /// drain.
    pub fn drain_opstamps<T>(&mut self, queue: &mut DeleteQueue<T>) -> (r: Vec<Opstamp>)
        requires
            old(queue).wf(),
            old(self).wf(old(queue)),
            old(queue).count(old(self).block_id()) >= 1,
            old(queue).can_materialize(),
        ensures
            final(queue).wf(),
            final(self).wf(final(queue)),
            cursor_step(old(queue), old(self).block_id(), final(self).block_id(), final(queue)),
            final(queue).count(final(self).block_id()) >= 1,
            final(self).off(final(queue)) == final(queue).history().len(),
            old(self).off(old(queue)) + r@.len() == final(queue).history().len(),
            forall|i: int|
                0 <= i < r@.len() ==> r@[i] == final(queue).history()[old(self).off(old(queue))
                    + i].opstamp,
    {
        let ghost q0 = *queue;
        let ghost c0 = *self;
        let mut r: Vec<Opstamp> = Vec::new();
        loop
            invariant
                queue.wf(),
                self.wf(queue),
                queue.count(self.block_id()) >= 1,
                queue.can_materialize(),
                queue.history() == q0.history(),
                cursor_step(&q0, c0.block_id(), self.block_id(), queue),
                self.off(queue) == c0.off(&q0) + r@.len(),
                self.off(queue) <= queue.history().len(),
                forall|i: int|
                    0 <= i < r@.len() ==> r@[i] == queue.history()[c0.off(&q0) + i].opstamp,
            ensures
                queue.wf(),
                self.wf(queue),
                queue.count(self.block_id()) >= 1,
                cursor_step(&q0, c0.block_id(), self.block_id(), queue),
                self.off(queue) == queue.history().len(),
                self.off(queue) == c0.off(&q0) + r@.len(),
                forall|i: int|
                    0 <= i < r@.len() ==> r@[i] == queue.history()[c0.off(&q0) + i].opstamp,
            decreases queue.history().len() - self.off(queue),
        {
            let ghost qa = *queue;
            let ghost ca = *self;
            let next = match self.get(queue) {
                Some(operation) => Some(operation.opstamp),
                None => None,
            };
            proof {
                lemma_step_trans(q0, c0.block_id(), ca.block_id(), qa, self.block_id(), *queue);
            }
            match next {
                Some(opstamp) => {
                    r.push(opstamp);
                    let ghost qb = *queue;
                    let ghost cb = *self;
                    self.advance(queue);
                    proof {
                        lemma_step_trans(
                            q0,
                            c0.block_id(),
                            cb.block_id(),
                            qb,
                            self.block_id(),
                            *queue,
                        );
                    }
                },
                None => {
                    break;
                },
            }
        }
        r
    }

    /// An independent copy of this cursor, registered at the same position:
    /// both observe the identical remaining operations, and advancing one
    /// has no effect on the other. This is the sharing step that cloning an
    /// ordinary strong reference would perform.
    pub fn fork<T>(&self, queue: &mut DeleteQueue<T>) -> (c: DeleteCursor)
        requires
            old(queue).wf(),
            self.wf(old(queue)),
            old(queue).count(self.block_id()) >= 1,
            old(queue).cursors() < usize::MAX,
        ensures
            final(queue).wf(),
            final(queue).history() == old(queue).history(),
            final(queue).flushed() == old(queue).flushed(),
            final(queue).first_block_id() == old(queue).first_block_id(),
            final(queue).next_block_id() == old(queue).next_block_id(),
            final(queue).cursors() == old(queue).cursors() + 1,
            c == *self,
            c.wf(final(queue)),
            c.off(final(queue)) == self.off(old(queue)),
            forall|b: nat|
                #[trigger] old(queue).retained(b) ==> final(queue).block_start(b) == old(queue).block_start(b) && final(queue).block_ops(b) == old(queue).block_ops(b),
            forall|b: nat|
                final(queue).count(b) == old(queue).count(b) + (if b == self.block_id() {
                    1nat
                } else {
                    0nat
                }),
    {
        let ghost pre = *queue;
        let idx = self.block - queue.first_id;
        let count = queue.blocks[idx].cursor_count;
        proof {
            lemma_sum_one(pre.blocks@, idx as int);
        }
        queue.blocks[idx].cursor_count = count + 1;
        proof {
            lemma_sum_update(pre.blocks@, idx as int, queue.blocks@[idx as int]);
            assert forall|b: nat| queue.retained(b) && b != self.block_id() implies queue.blocks@[b
                - queue.first_id] == pre.blocks@[b - pre.first_id] by {
            }
        }
        DeleteCursor { block: self.block, pos: self.pos }
    }

    /// Retires this cursor: its registration is removed and any prefix of
    /// the chain that only it was keeping alive is reclaimed. This is the
    /// release step that dropping a strong reference would perform.
    pub fn release<T>(self, queue: &mut DeleteQueue<T>)
        requires
            old(queue).wf(),
            self.wf(old(queue)),
            old(queue).count(self.block_id()) >= 1,
        ensures
            final(queue).wf(),
            final(queue).history() == old(queue).history(),
            final(queue).flushed() == old(queue).flushed(),
            final(queue).next_block_id() == old(queue).next_block_id(),
            final(queue).cursors() == old(queue).cursors() - 1,
            old(queue).first_block_id() <= final(queue).first_block_id(),
            forall|b: nat|
                #[trigger] final(queue).retained(b) ==> old(queue).retained(b) && final(queue).block_start(b) == old(queue).block_start(b) && final(queue).block_ops(b) == old(queue).block_ops(b) && final(queue).count(b) == old(queue).count(b) - (
                if b == self.block_id() {
                    1nat
                } else {
                    0nat
                }),
            forall|b: nat|
                #[trigger] old(queue).retained(b) && old(queue).count(b) - (
                if b == self.block_id() {
                    1nat
                } else {
                    0nat
                }) > 0 ==> final(queue).retained(b),
            forall|b: nat|
                #[trigger] old(queue).retained(b) && !final(queue).retained(b) ==> old(queue).count(b) - (if b == self.block_id() {
                    1nat
                } else {
                    0nat
                }) == 0,
    {
        let ghost pre = *queue;
        let idx = self.block - queue.first_id;
        let count = queue.blocks[idx].cursor_count;
        queue.blocks[idx].cursor_count = count - 1;
        let ghost q2 = *queue;
        proof {
            lemma_sum_update(pre.blocks@, idx as int, queue.blocks@[idx as int]);
            assert forall|b: nat| q2.retained(b) && b != self.block_id() implies q2.blocks@[b
                - q2.first_id] == pre.blocks@[b - pre.first_id] by {
            }
        }
        queue.reclaim();
        proof {
            assert forall|b: nat| #[trigger] pre.retained(b) && pre.count(b) - (
            if b == self.block_id() {
                1nat
            } else {
                0nat
            }) > 0 implies queue.retained(b) by {
                assert(q2.count(b) > 0);
            }
        }
    }
}

/// The cursor count of block `b` after one registered cursor has moved from
/// block `from` to block `to`.
pub open spec fn step_count<T>(pre: &DeleteQueue<T>, from: nat, to: nat, b: nat) -> nat {
    if b == from && b == to {
        pre.count(b)
    } else if b == from {
        (pre.count(b) - 1) as nat
    } else if b == to {
        pre.count(b) + 1
    } else {
        pre.count(b)
    }
}

/// How the queue may change while one registered cursor moves from block
/// `from` to block `to` (`from == to` when it stays put): the history is
/// untouched; at most one flush materializes all pending operations into one
/// new tail block; every surviving block keeps its id, its position in the
/// history and its operations (so a resolved successor link never changes);
/// counts change only by the cursor's move; and a block is reclaimed only
/// once no registered cursor remains on it.
pub open spec fn cursor_step<T>(
    pre: &DeleteQueue<T>,
    from: nat,
    to: nat,
    post: &DeleteQueue<T>,
) -> bool {
    &&& pre.count(from) >= 1
    &&& post.history() == pre.history()
    &&& post.cursors() == pre.cursors()
    &&& pre.flushed() <= post.flushed() <= pre.history().len()
    &&& (post.flushed() == pre.flushed() && post.next_block_id() == pre.next_block_id()) || (
    pre.flushed() < pre.history().len() && post.flushed() == pre.history().len()
        && post.next_block_id() == pre.next_block_id() + 1)
    &&& pre.first_block_id() <= post.first_block_id()
    &&& forall|b: nat|
        pre.retained(b) && #[trigger] post.retained(b) ==> post.block_start(b)
            == pre.block_start(b) && post.block_ops(b) == pre.block_ops(b)
    &&& forall|b: nat|
        #[trigger] post.retained(b) && !pre.retained(b) ==> b == pre.next_block_id()
            && post.block_start(b) == pre.flushed() && post.block_ops(b)
            == pre.history().subrange(pre.flushed() as int, pre.history().len() as int)
    &&& forall|b: nat|
        #[trigger] post.retained(b) ==> post.count(b) == step_count(pre, from, to, b)
    &&& forall|b: nat|
        #[trigger] pre.retained(b) && step_count(pre, from, to, b) > 0 ==> post.retained(b)
    &&& forall|b: nat|
        #[trigger] pre.retained(b) && !post.retained(b) ==> step_count(pre, from, to, b) == 0
}

/// `cur` is `pre` with some fully consumed prefix of its blocks reclaimed:
/// every surviving block is unchanged, and only blocks without a registered
/// cursor were dropped.
spec fn shrunk_from<T>(pre: DeleteQueue<T>, cur: DeleteQueue<T>) -> bool {
    &&& cur.flushed() == pre.flushed()
    &&& forall|b: nat|
        #[trigger] cur.retained(b) ==> pre.retained(b) && cur.block_start(b) == pre.block_start(b)
            && cur.block_ops(b) == pre.block_ops(b) && cur.count(b) == pre.count(b)
    &&& forall|b: nat| pre.retained(b) && !(#[trigger] cur.retained(b)) ==> pre.count(b) == 0
}

/// Two consecutive cursor steps compose into one: the queue evolves as if
/// the cursor had moved directly from `a` to `c`. (`q2.retained(c)` holds
/// whenever a cursor actually sits on `c`, since its registration keeps the
/// block alive.)
proof fn lemma_step_trans<T>(
    q0: DeleteQueue<T>,
    a: nat,
    b: nat,
    q1: DeleteQueue<T>,
    c: nat,
    q2: DeleteQueue<T>,
)
    requires
        cursor_step(&q0, a, b, &q1),
        cursor_step(&q1, b, c, &q2),
        q2.retained(c),
    ensures
        cursor_step(&q0, a, c, &q2),
{
    assert forall|x: nat| q0.retained(x) && #[trigger] q2.retained(x) implies q2.block_start(x)
        == q0.block_start(x) && q2.block_ops(x) == q0.block_ops(x) by {
        assert(q1.retained(x));
    }
    assert forall|x: nat| #[trigger] q2.retained(x) && !q0.retained(x) implies x
        == q0.next_block_id() && q2.block_start(x) == q0.flushed() && q2.block_ops(x)
        == q0.history().subrange(q0.flushed() as int, q0.history().len() as int) by {
        if q1.retained(x) {
            assert(step_count(&q0, a, b, x) == q1.count(x));
        }
    }
    assert forall|x: nat| #[trigger] q2.retained(x) implies q2.count(x) == step_count(
        &q0,
        a,
        c,
        x,
    ) by {
        if q1.retained(x) {
            assert(q1.count(x) == step_count(&q0, a, b, x));
        } else {
            assert(q1.count(x) == 0);
            if q0.retained(x) {
                assert(step_count(&q0, a, b, x) == 0);
            }
        }
        assert(q2.count(x) == step_count(&q1, b, c, x));
    }
    assert forall|x: nat| #[trigger] q0.retained(x) && step_count(&q0, a, c, x) > 0 implies q2
        .retained(x) by {
        if x != c {
            assert(step_count(&q0, a, b, x) > 0);
            assert(q1.retained(x));
            assert(q1.count(x) == step_count(&q0, a, b, x));
            assert(step_count(&q1, b, c, x) > 0);
        }
    }
    assert forall|x: nat| #[trigger] q0.retained(x) && !q2.retained(x) implies step_count(
        &q0,
        a,
        c,
        x,
    ) == 0 by {
        assert(x != c);
        if q1.retained(x) {
            assert(q1.count(x) == step_count(&q0, a, b, x));
            assert(step_count(&q1, b, c, x) == 0);
        } else {
            assert(step_count(&q0, a, b, x) == 0);
        }
    }
}

/// A cursor's logical position never exceeds the history: everything at or
/// past it is still to be observed, and a cursor exactly at the history's
/// length has caught up with the live tail.
pub proof fn lemma_cursor_within_history<T>(q: &DeleteQueue<T>, c: DeleteCursor)
    requires
        q.wf(),
        c.wf(q),
    ensures
        c.off(q) <= q.history().len(),
{
    let i = c.block_id() - q.first_block_id();
    assert(q.blocks@[i as int].start@ + q.blocks@[i as int].operations@.len() <= q.flushed());
}

/// A block that carries a registered cursor is retained: a cursor is a
/// strong reference, and what it points at is never reclaimed under it.
pub proof fn lemma_registered_retained<T>(q: &DeleteQueue<T>, b: nat)
    requires
        q.count(b) > 0,
    ensures
        q.retained(b),
{
}

/// Operating on one cursor never perturbs another: through any single
/// cursor step — a `get`, an `advance`, or one iteration of `skip_to`,
/// whether or not it flushed or reclaimed — every other registered cursor
/// keeps its block, its logical position, and its registration. (A cursor
/// registered on the moving cursor's own block is a second registration
/// there, hence the count of at least two in that case.)
pub proof fn lemma_step_preserves_other_cursor<T>(
    pre: &DeleteQueue<T>,
    from: nat,
    to: nat,
    post: &DeleteQueue<T>,
    other: DeleteCursor,
)
    requires
        cursor_step(pre, from, to, post),
        other.wf(pre),
        other.block_id() == from ==> pre.count(other.block_id()) >= 2,
        other.block_id() != from ==> pre.count(other.block_id()) >= 1,
    ensures
        other.wf(post),
        other.off(post) == other.off(pre),
        post.count(other.block_id()) >= 1,
{
    assert(step_count(pre, from, to, other.block_id()) > 0);
    assert(post.retained(other.block_id()));
}

/// History with no surviving reference is reclaimed: once no cursor is
/// registered at all, no block is retained, however much was ever pushed.
pub proof fn lemma_no_cursors_no_blocks<T>(q: &DeleteQueue<T>)
    requires
        q.wf(),
        q.cursors() == 0,
    ensures
        q.num_blocks() == 0,
{
    if q.blocks@.len() > 0 {
        lemma_sum_one(q.blocks@, 0);
    }
}

/// The earliest retained block always carries a registered cursor: blocks
/// are retained only from the hindmost cursor forward, so memory is
/// bounded by unconsumed history, not by all history ever pushed.
pub proof fn lemma_first_block_referenced<T>(q: &DeleteQueue<T>)
    requires
        q.wf(),
        q.num_blocks() > 0,
    ensures
        q.count(q.first_block_id()) > 0,
{
}

/// The blocks, their contents, their cursor counts, and the id range are all
/// identical in `pre` and `post`.
pub open spec fn blocks_unchanged<T>(pre: &DeleteQueue<T>, post: &DeleteQueue<T>) -> bool {
    &&& post.first_block_id() == pre.first_block_id()
    &&& post.next_block_id() == pre.next_block_id()
    &&& forall|b: nat|
        #[trigger] pre.retained(b) ==> post.block_start(b) == pre.block_start(b)
            && post.block_ops(b) == pre.block_ops(b)
    &&& forall|b: nat| #[trigger] post.count(b) == pre.count(b)
}

} // verus!
