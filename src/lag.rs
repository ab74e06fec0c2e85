//! The delay line that holds back each notified slot until enough later
//! slots have been seen.

use std::collections::VecDeque;
use vstd::prelude::*;

verus! {

/// One notification pushed into a delay line of threshold `lag` that holds
/// `pending`: the new contents, and the slot released for fetching, if any.
pub open spec fn push_step(lag: nat, pending: Seq<u64>, slot: u64) -> (Seq<u64>, Option<u64>) {
    let grown = pending.push(slot);
    if grown.len() > lag {
        (grown.drop_first(), Some(grown[0]))
    } else {
        (grown, None)
    }
}

/// Feeding `notes` one by one into an empty delay line: what it then holds
/// and the slots it released, in release order.
pub open spec fn run(lag: nat, notes: Seq<u64>) -> (Seq<u64>, Seq<u64>)
    decreases notes.len(),
{
    if notes.len() == 0 {
        (Seq::empty(), Seq::empty())
    } else {
        let (pending, out) = run(lag, notes.drop_last());
        let (next, released) = push_step(lag, pending, notes.last());
        match released {
            Some(s) => (next, out.push(s)),
            None => (next, out),
        }
    }
}

/// The slots released after `notes`: all but the last `lag` of them.
pub open spec fn released_of(lag: nat, notes: Seq<u64>) -> Seq<u64> {
    if notes.len() > lag {
        notes.take(notes.len() - lag)
    } else {
        Seq::empty()
    }
}

/// The slots still held after `notes`: the last `lag` of them.
pub open spec fn held_of(lag: nat, notes: Seq<u64>) -> Seq<u64> {
    if notes.len() > lag {
        notes.skip(notes.len() - lag)
    } else {
        notes
    }
}

/// Release order law: fed any sequence of notifications, the delay line
/// releases exactly the notifications received, in the order received,
/// except the last `lag` ones, which it still holds. In particular no
/// notification is released before `lag` later ones have arrived, and the
/// k-th release is the k-th notification.
pub proof fn lemma_release_order(lag: nat, notes: Seq<u64>)
    ensures
        run(lag, notes).0 == held_of(lag, notes),
        run(lag, notes).1 == released_of(lag, notes),
        run(lag, notes).0.len() <= lag,
    decreases notes.len(),
{
    if notes.len() > 0 {
        let prev = notes.drop_last();
        lemma_release_order(lag, prev);
        assert(held_of(lag, notes) =~= push_step(lag, held_of(lag, prev), notes.last()).0);
        assert(released_of(lag, notes) =~= (match push_step(lag, held_of(lag, prev), notes.last()).1 {
            Some(s) => released_of(lag, prev).push(s),
            None => released_of(lag, prev),
        }));
    }
}

/// A fixed-threshold FIFO delay line of slot numbers.
pub struct LagBuffer {
    lag: usize,
    pending: VecDeque<u64>,
}

impl View for LagBuffer {
    type V = Seq<u64>;

    closed spec fn view(&self) -> Seq<u64> {
        self.pending@
    }
}

impl LagBuffer {
    /// The threshold: how many later notifications a slot waits for.
    pub closed spec fn threshold(&self) -> nat {
        self.lag as nat
    }

    /// The delay line never holds more than its threshold.
    pub closed spec fn wf(&self) -> bool {
        self.pending@.len() <= self.lag
    }

    /// An empty delay line with threshold `lag`.
    pub fn new(lag: usize) -> (r: LagBuffer)
        ensures
            r.wf(),
            r.threshold() == lag,
            r@ == Seq::<u64>::empty(),
    {
        LagBuffer { lag, pending: VecDeque::new() }
    }

    /// The threshold.
    pub fn lag(&self) -> (r: usize)
        ensures
            r == self.threshold(),
    {
        self.lag
    }

    /// How many notifications are held.
    pub fn len(&self) -> (r: usize)
        ensures
            r == self@.len(),
    {
        self.pending.len()
    }

    /// Takes in one notification; once more than the threshold are held,
    /// releases the oldest.
    pub fn push(&mut self, slot: u64) -> (r: Option<u64>)
        requires
            old(self).wf(),
        ensures
            final(self).wf(),
            final(self).threshold() == old(self).threshold(),
            (final(self)@, r) == push_step(old(self).threshold(), old(self)@, slot),
    {
        self.pending.push_back(slot);
        if self.pending.len() > self.lag {
            let front = self.pending.pop_front();
            assert(self.pending@ =~= old(self)@.push(slot).drop_first());
            front
        } else {
            None
        }
    }
}

} // verus!
