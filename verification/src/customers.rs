//! Customers and the two queues they wait in.

use crate::random::{gen_range_inclusive, gen_ratio, thread_rng};
use std::collections::VecDeque;
use vstd::prelude::*;

verus! {

/// One customer in this many has priority.
pub const PRIORITY_ODDS: u32 = 5;

/// The smallest and the largest order, in portions (three whole cakes).
pub const MIN_ORDER: usize = 1;

pub const MAX_ORDER: usize = 18;

pub struct Client {
    pub id: usize,
    pub is_priority: bool,
    pub portions_ordered: usize,
}

impl Client {
    /// A customer who arrives with a random order of one to eighteen
    /// portions, with priority one time in five.
    pub fn new(id: usize) -> (c: Client)
        ensures
            c.id == id,
            MIN_ORDER <= c.portions_ordered <= MAX_ORDER,
    {
        let mut rng = thread_rng();
        let is_priority = gen_ratio(&mut rng, 1, PRIORITY_ODDS);
        let portions_ordered = gen_range_inclusive(&mut rng, MIN_ORDER, MAX_ORDER);
        Client { id, is_priority, portions_ordered }
    }
}

/// Customers waiting for a worker: the regular queue and the priority
/// queue, each first in, first out.
pub struct CustomerQueues {
    pub regular_queue: VecDeque<Client>,
    pub priority_queue: VecDeque<Client>,
}

impl CustomerQueues {
    /// Two empty queues.
    pub fn new() -> (q: CustomerQueues)
        ensures
            q.regular_queue@ == Seq::<Client>::empty(),
            q.priority_queue@ == Seq::<Client>::empty(),
    {
        CustomerQueues {
            regular_queue: VecDeque::with_capacity(100),
            priority_queue: VecDeque::with_capacity(20),
        }
    }

    /// Nobody is waiting in either queue.
    pub fn is_empty(&self) -> (b: bool)
        ensures
            b == (self.regular_queue@.len() == 0 && self.priority_queue@.len() == 0),
    {
        self.regular_queue.len() == 0 && self.priority_queue.len() == 0
    }

    /// A customer who arrives joins the back of the priority queue if they
    /// have priority, and of the regular queue otherwise.
    pub fn enqueue(&mut self, client: Client)
        ensures
            client.is_priority ==> {
                &&& final(self).priority_queue@ == old(self).priority_queue@.push(client)
                &&& final(self).regular_queue@ == old(self).regular_queue@
            },
            !client.is_priority ==> {
                &&& final(self).regular_queue@ == old(self).regular_queue@.push(client)
                &&& final(self).priority_queue@ == old(self).priority_queue@
            },
    {
        if client.is_priority {
            self.priority_queue.push_back(client);
        } else {
            self.regular_queue.push_back(client);
        }
    }
}

} // verus!
