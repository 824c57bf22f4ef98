//! The shared concurrency limiter.
//!
//! A counting gate bounds how many provider upsert calls may be in
//! flight at once across the whole engine.  A slot is held only for
//! the duration of one attempt; backoff sleeps happen with no slot
//! held, so a waiting provider never starves the others.

use vstd::prelude::*;

verus! {

/// One transition of the limiter.
pub enum LimiterOp {
    Acquire,
    Release,
}

/// Slots held after a sequence of transitions, starting from an empty
/// limiter: an acquire takes effect only below the limit; a release
/// frees one held slot.
pub open spec fn occupancy_after(ops: Seq<LimiterOp>, limit: nat) -> nat
    decreases ops.len(),
{
    if ops.len() == 0 {
        0
    } else {
        let prev = occupancy_after(ops.drop_last(), limit);
        match ops.last() {
            LimiterOp::Acquire => if prev < limit {
                prev + 1
            } else {
                prev
            },
            LimiterOp::Release => if prev > 0 {
                (prev - 1) as nat
            } else {
                prev
            },
        }
    }
}

/// Law: with limit `N`, no sequence of transitions ever holds more
/// than `N` slots — at no point do more than `N` provider calls run
/// at once.
pub proof fn lemma_occupancy_bounded(ops: Seq<LimiterOp>, limit: nat)
    ensures
        occupancy_after(ops, limit) <= limit,
    decreases ops.len(),
{
    if ops.len() > 0 {
        lemma_occupancy_bounded(ops.drop_last(), limit);
    }
}

/// The concurrency gate, with the history of its transitions kept as
/// ghost state so that its occupancy is exactly the model's.
pub struct Limiter {
    pub limit: usize,
    pub in_flight: usize,
    pub ops: Ghost<Seq<LimiterOp>>,
}

impl Limiter {
    /// The occupancy always matches the transition history and never
    /// exceeds the limit.
    pub open spec fn wf(&self) -> bool {
        self.in_flight as nat == occupancy_after(self.ops@, self.limit as nat)
            && self.in_flight <= self.limit
    }

    /// A fresh limiter with every slot free.
    pub fn new(limit: usize) -> (l: Limiter)
        ensures
            l.wf(),
            l.limit == limit,
            l.in_flight == 0,
            l.ops@ == Seq::<LimiterOp>::empty(),
    {
        Limiter { limit, in_flight: 0, ops: Ghost(Seq::empty()) }
    }

    /// Take a slot when one is free.
    pub fn try_acquire(&mut self) -> (ok: bool)
        requires
            old(self).wf(),
        ensures
            final(self).wf(),
            final(self).limit == old(self).limit,
            final(self).ops@ == old(self).ops@.push(LimiterOp::Acquire),
            ok == (old(self).in_flight < old(self).limit),
            ok ==> final(self).in_flight == old(self).in_flight + 1,
            !ok ==> final(self).in_flight == old(self).in_flight,
    {
        proof {
            self.ops@ = self.ops@.push(LimiterOp::Acquire);
            assert(self.ops@.drop_last() =~= old(self).ops@);
            assert(self.ops@.last() == LimiterOp::Acquire);
        }
        if self.in_flight < self.limit {
            self.in_flight = self.in_flight + 1;
            true
        } else {
            false
        }
    }

    /// Give a held slot back.
    pub fn release(&mut self)
        requires
            old(self).wf(),
            old(self).in_flight > 0,
        ensures
            final(self).wf(),
            final(self).limit == old(self).limit,
            final(self).ops@ == old(self).ops@.push(LimiterOp::Release),
            final(self).in_flight == old(self).in_flight - 1,
    {
        proof {
            self.ops@ = self.ops@.push(LimiterOp::Release);
            assert(self.ops@.drop_last() =~= old(self).ops@);
            assert(self.ops@.last() == LimiterOp::Release);
        }
        self.in_flight = self.in_flight - 1;
    }
}

} // verus!
