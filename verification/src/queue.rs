//! The bounded first-in, first-out queue between the host, which writes
//! colour words, and the engine, which pulls them.

use vstd::prelude::*;

verus! {

/// Words that the hardware queue holds when both of its halves serve the
/// transmit side.
pub const FIFO_DEPTH: usize = 8;

/// Bounded queue of pending colour words, oldest first.
pub struct TransmitQueue {
    words: Vec<u32>,
    capacity: usize,
}

/// One operation on a queue: the host offers a word, or the engine pulls.
pub enum QueueOp {
    Write(u32),
    Pull,
}

/// What a run of operations did, seen from outside the queue.
pub struct QueueTrace {
    /// The words in the queue after the run, oldest first.
    pub pending: Seq<u32>,
    /// The words of the writes that succeeded, in call order.
    pub accepted: Seq<u32>,
    /// The words that the pulls handed out, in call order.
    pub pulled: Seq<u32>,
}

/// The queue after one write and whether the write succeeded.
pub open spec fn write_step(pending: Seq<u32>, capacity: nat, word: u32) -> (Seq<u32>, bool) {
    if pending.len() < capacity {
        (pending.push(word), true)
    } else {
        (pending, false)
    }
}

/// The queue after one pull and the word handed out, if there was one.
pub open spec fn pull_step(pending: Seq<u32>) -> (Seq<u32>, Option<u32>) {
    if pending.len() > 0 {
        (pending.skip(1), Some(pending[0]))
    } else {
        (pending, None)
    }
}

/// Runs `ops` in order on a queue that starts as `pending`.
pub open spec fn run_ops(pending: Seq<u32>, capacity: nat, ops: Seq<QueueOp>) -> QueueTrace
    decreases ops.len(),
{
    if ops.len() == 0 {
        QueueTrace { pending, accepted: Seq::empty(), pulled: Seq::empty() }
    } else {
        let before = run_ops(pending, capacity, ops.drop_last());
        match ops.last() {
            QueueOp::Write(word) => {
                let (after, ok) = write_step(before.pending, capacity, word);
                QueueTrace {
                    pending: after,
                    accepted: if ok { before.accepted.push(word) } else { before.accepted },
                    pulled: before.pulled,
                }
            },
            QueueOp::Pull => {
                let (after, word) = pull_step(before.pending);
                QueueTrace {
                    pending: after,
                    accepted: before.accepted,
                    pulled: match word {
                        Some(w) => before.pulled.push(w),
                        None => before.pulled,
                    },
                }
            },
        }
    }
}

impl View for TransmitQueue {
    type V = Seq<u32>;

    closed spec fn view(&self) -> Seq<u32> {
        self.words@
    }
}

impl TransmitQueue {
    /// The most words that the queue holds at once.
    pub closed spec fn spec_capacity(&self) -> nat {
        self.capacity as nat
    }

    /// The queue never holds more than its capacity.
    pub open spec fn wf(&self) -> bool {
        self@.len() <= self.spec_capacity()
    }

    /// An empty queue for `capacity` words.
    pub fn new(capacity: usize) -> (r: Self)
        ensures
            r.wf(),
            r@ == Seq::<u32>::empty(),
            r.spec_capacity() == capacity,
    {
        TransmitQueue { words: Vec::new(), capacity }
    }

    /// An empty queue of the hardware's depth.
    pub fn hardware() -> (r: Self)
        ensures
            r.wf(),
            r@ == Seq::<u32>::empty(),
            r.spec_capacity() == FIFO_DEPTH,
    {
        Self::new(FIFO_DEPTH)
    }

    /// The capacity that the queue was made with.
    pub fn capacity(&self) -> (r: usize)
        ensures
            r == self.spec_capacity(),
    {
        self.capacity
    }

    /// Words now pending.
    pub fn len(&self) -> (r: usize)
        ensures
            r == self@.len(),
    {
        self.words.len()
    }

    /// No word is pending.
    pub fn is_empty(&self) -> (r: bool)
        ensures
            r == (self@.len() == 0),
    {
        self.words.len() == 0
    }

    /// The queue holds as many words as it can.
    pub fn is_full(&self) -> (r: bool)
        requires
            self.wf(),
        ensures
            r == (self@.len() == self.spec_capacity()),
    {
        self.words.len() >= self.capacity
    }

    /// Offers `word` to the queue. A queue with room takes it at the tail
    /// and answers `true`; a full queue answers `false` and is unchanged.
    pub fn write(&mut self, word: u32) -> (accepted: bool)
        requires
            old(self).wf(),
        ensures
            final(self).wf(),
            final(self).spec_capacity() == old(self).spec_capacity(),
            accepted == (old(self)@.len() != old(self).spec_capacity()),
            (final(self)@, accepted) == write_step(old(self)@, old(self).spec_capacity(), word),
    {
        if self.words.len() >= self.capacity {
            false
        } else {
            self.words.push(word);
            true
        }
    }

    /// Offers the words of `words` in order until one is refused, and
    /// answers how many were taken: as many as there was room for.
    pub fn write_all(&mut self, words: &Vec<u32>) -> (taken: usize)
        requires
            old(self).wf(),
        ensures
            final(self).wf(),
            final(self).spec_capacity() == old(self).spec_capacity(),
            taken <= words@.len(),
            final(self)@ == old(self)@ + words@.take(taken as int),
            taken == words@.len() || final(self)@.len() == final(self).spec_capacity(),
    {
        let mut i: usize = 0;
        assert(self@ =~= old(self)@ + words@.take(0));
        while i < words.len()
            invariant
                self.wf(),
                self.spec_capacity() == old(self).spec_capacity(),
                i <= words@.len(),
                self@ == old(self)@ + words@.take(i as int),
            decreases words.len() - i,
        {
            if !self.write(words[i]) {
                return i;
            }
            assert(self@ =~= old(self)@ + words@.take(i + 1));
            i = i + 1;
        }
        i
    }

    /// Takes the oldest word out of the queue, if there is one.
    pub fn pull(&mut self) -> (word: Option<u32>)
        requires
            old(self).wf(),
        ensures
            final(self).wf(),
            final(self).spec_capacity() == old(self).spec_capacity(),
            (final(self)@, word) == pull_step(old(self)@),
    {
        if self.words.len() == 0 {
            None
        } else {
            let w: u32 = self.words.remove(0);
            assert(self.words@ =~= old(self).words@.skip(1));
            Some(w)
        }
    }
}

/// Whatever writes and pulls are made in whatever order, the words pulled
/// followed by the words still pending are the words that the queue started
/// with followed by the accepted words: none is lost, doubled or moved. The
/// queue never grows beyond its capacity.
pub proof fn lemma_fifo_order(pending: Seq<u32>, capacity: nat, ops: Seq<QueueOp>)
    requires
        pending.len() <= capacity,
    ensures
        run_ops(pending, capacity, ops).pulled + run_ops(pending, capacity, ops).pending
            == pending + run_ops(pending, capacity, ops).accepted,
        run_ops(pending, capacity, ops).pending.len() <= capacity,
    decreases ops.len(),
{
    let after = run_ops(pending, capacity, ops);
    if ops.len() == 0 {
        assert(after.pulled + after.pending =~= pending + after.accepted);
    } else {
        lemma_fifo_order(pending, capacity, ops.drop_last());
        let before = run_ops(pending, capacity, ops.drop_last());
        assert(before.pulled + before.pending == pending + before.accepted);
        match ops.last() {
            QueueOp::Write(word) => {
                if before.pending.len() < capacity {
                    assert(after.pulled + after.pending =~= (before.pulled + before.pending).push(
                        word,
                    ));
                    assert(pending + after.accepted =~= (pending + before.accepted).push(word));
                }
            },
            QueueOp::Pull => {
                if before.pending.len() > 0 {
                    assert(after.pulled + after.pending =~= before.pulled + before.pending);
                }
            },
        }
    }
}

/// Writes alone: while the words fit, every write succeeds and the queue
/// is what it was followed by the words in call order.
pub proof fn lemma_writes_append(pending: Seq<u32>, capacity: nat, words: Seq<u32>)
    requires
        pending.len() + words.len() <= capacity,
    ensures
        run_ops(pending, capacity, words.map_values(|w: u32| QueueOp::Write(w))).pending
            == pending + words,
        run_ops(pending, capacity, words.map_values(|w: u32| QueueOp::Write(w))).accepted
            == words,
    decreases words.len(),
{
    let ops = words.map_values(|w: u32| QueueOp::Write(w));
    if words.len() == 0 {
        assert(run_ops(pending, capacity, ops).pending =~= pending + words);
        assert(run_ops(pending, capacity, ops).accepted =~= words);
    } else {
        lemma_writes_append(pending, capacity, words.drop_last());
        assert(ops.drop_last() =~= words.drop_last().map_values(|w: u32| QueueOp::Write(w)));
        assert(ops.last() == QueueOp::Write(words.last()));
        let before = run_ops(pending, capacity, ops.drop_last());
        assert(before.pending.len() < capacity);
        assert(before.pending.push(words.last()) =~= pending + words);
        assert(before.accepted.push(words.last()) =~= words);
    }
}

} // verus!
