//! The first form of the simulation: customers and workers as its
//! threads passed them around.

use crate::customers::{MAX_ORDER, MIN_ORDER, PRIORITY_ODDS};
use crate::random::{gen_range_inclusive, gen_ratio, thread_rng};
use vstd::prelude::*;

verus! {

#[derive(Clone, Copy)]
pub struct Client {
    pub id: u32,
    pub is_priority: bool,
    pub portions_ordered: usize,
}

impl Client {
    /// A customer with a random order of one to eighteen portions, with
    /// priority one time in five.
    pub fn new(id: u32) -> (c: Client)
        ensures
            c.id == id,
            MIN_ORDER <= c.portions_ordered <= MAX_ORDER,
    {
        let mut rng = thread_rng();
        let is_priority = gen_ratio(&mut rng, 1, PRIORITY_ODDS);
        let portions_ordered = gen_range_inclusive(&mut rng, MIN_ORDER, MAX_ORDER);
        Client { id, is_priority, portions_ordered }
    }
}

#[derive(Clone, Copy)]
pub struct Worker {
    pub id: u32,
    pub is_priority: bool,
    pub portions_sold: usize,
    pub client: Option<Client>,
}

impl Worker {
    /// A worker who has sold nothing and serves nobody yet.
    pub fn new(id: u32, is_priority: bool) -> (w: Worker)
        ensures
            w.id == id,
            w.is_priority == is_priority,
            w.portions_sold == 0,
            w.client.is_none(),
    {
        Worker { id, is_priority, portions_sold: 0, client: None }
    }
}

} // verus!
