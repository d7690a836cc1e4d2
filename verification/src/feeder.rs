//! The feeder that hands the online orders of an ecom to its coordinator, one
//! at a time and with pauses between them.

use rand::rngs::StdRng;
use vstd::prelude::*;
use crate::chance::{draw_between, seeded};
use crate::coordinator::NewOrder;
use crate::text::texts;

verus! {

/// The shortest pause, in seconds, before an order is handed over.
pub const MIN_SECS_PAUSE: usize = 2;

/// The bound, in seconds, below which every pause stays.
pub const MAX_SECS_PAUSE: usize = 6;

/// The orders of an ecom and how many of them its coordinator has accepted.
pub struct OrderFeeder {
    orders: Vec<String>,
    next: usize,
    rng: StdRng,
}

impl OrderFeeder {
    /// The orders, in the order in which they are handed over.
    pub closed spec fn orders(&self) -> Seq<Seq<char>> {
        texts(self.orders@)
    }

    /// How many orders the coordinator has accepted.
    pub closed spec fn accepted(&self) -> nat {
        self.next as nat
    }

    /// No more orders were accepted than there are.
    pub open spec fn wf(&self) -> bool {
        self.accepted() <= self.orders().len()
    }

    /// A feeder for `orders`, none of them accepted yet. Its draws start from
    /// `seed`.
    pub fn new(orders: Vec<String>, seed: u64) -> (f: Self)
        ensures
            f.wf(),
            f.orders() == texts(orders@),
            f.accepted() == 0,
    {
        OrderFeeder { orders, next: 0, rng: seeded(seed) }
    }

    /// Draws the pause before the next order is handed over, between
    /// `MIN_SECS_PAUSE` and `MAX_SECS_PAUSE` seconds, the latter excluded.
    pub fn pause(&mut self) -> (seconds: usize)
        ensures
            MIN_SECS_PAUSE <= seconds < MAX_SECS_PAUSE,
            final(self).orders() == old(self).orders(),
            final(self).accepted() == old(self).accepted(),
    {
        draw_between(&mut self.rng, MIN_SECS_PAUSE, MAX_SECS_PAUSE)
    }

    /// The order to hand over next, as one that no store has seen; none once
    /// every order was accepted.
    pub fn current(&self) -> (r: Option<NewOrder>)
        requires
            self.wf(),
        ensures
            match r {
                Some(m) => {
                    &&& self.accepted() < self.orders().len()
                    &&& m.order@ == self.orders()[self.accepted() as int]
                    &&& m.visited_stores@.len() == 0
                },
                None => self.accepted() == self.orders().len(),
            },
    {
        if self.next < self.orders.len() {
            Some(NewOrder { order: self.orders[self.next].clone(), visited_stores: Vec::new() })
        } else {
            None
        }
    }

    /// Takes note of what the coordinator made of the current order: an order
    /// that it accepted is done with, and one that it rejected is handed over
    /// again.
    pub fn settle(&mut self, accepted: bool)
        requires
            old(self).wf(),
        ensures
            final(self).wf(),
            final(self).orders() == old(self).orders(),
            final(self).accepted() == if accepted && old(self).accepted() < old(self).orders().len() {
                old(self).accepted() + 1
            } else {
                old(self).accepted()
            },
    {
        if accepted && self.next < self.orders.len() {
            self.next = self.next + 1;
        }
    }
}

} // verus!
