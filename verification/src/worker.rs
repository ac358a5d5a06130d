//! A worker behind the counter: whom they serve next, and how an order is
//! taken from the tray.

use crate::customers::{Client, CustomerQueues};
use crate::tray::{available_spec, portions_total, served_tray, CakeTray, Serving};
use vstd::prelude::*;

verus! {

pub struct Worker {
    pub id: usize,
    pub prioritize: bool,
    pub portions_sold: usize,
}

/// What came of serving one customer.
pub enum ServiceOutcome {
    /// The tray could not cover the order; nothing was sold.
    Refused { available: usize },
    /// The order was served in `service_time` minutes; `previous_front` is
    /// the front cake before the portions were cut, if any cake was left
    /// once the whole cakes were taken.
    Served { service_time: usize, previous_front: Option<usize> },
}

/// The minutes a worker takes over an order: one per whole cake and one
/// per single portion.
pub open spec fn service_time_spec(ordered: int) -> int {
    ordered / 6 + ordered % 6
}

/// `r` is the customer taken from the front of `first` if anyone waits
/// there, else from the front of `second`, else nobody; the queues after
/// are `first_after` and `second_after`.
pub open spec fn takes_first_waiting(
    first: Seq<Client>,
    second: Seq<Client>,
    first_after: Seq<Client>,
    second_after: Seq<Client>,
    r: Option<Client>,
) -> bool {
    if first.len() > 0 {
        &&& r == Some(first[0])
        &&& first_after == first.drop_first()
        &&& second_after == second
    } else if second.len() > 0 {
        &&& r == Some(second[0])
        &&& second_after == second.drop_first()
        &&& first_after == first
    } else {
        &&& r.is_none()
        &&& first_after == first
        &&& second_after == second
    }
}

/// Law of fetching: a customer is handed out exactly when someone waits,
/// and then exactly one customer leaves the queues.
pub proof fn lemma_fetch_takes_one_waiting_customer(
    first: Seq<Client>,
    second: Seq<Client>,
    first_after: Seq<Client>,
    second_after: Seq<Client>,
    r: Option<Client>,
)
    requires
        takes_first_waiting(first, second, first_after, second_after, r),
    ensures
        r.is_some() <==> first.len() + second.len() > 0,
        r.is_some() ==> first_after.len() + second_after.len() == first.len() + second.len() - 1,
        r.is_none() ==> first_after == first && second_after == second,
{
}

/// Law of fetching, first in first out: the customer handed out is the one
/// at the front of the preferred queue (`first`) when anyone waits there,
/// else the one at the front of the other queue (`second`); the queue it
/// came from keeps the others in their order, and the other queue is left
/// alone.
pub proof fn lemma_fetch_first_in_first_out(
    first: Seq<Client>,
    second: Seq<Client>,
    first_after: Seq<Client>,
    second_after: Seq<Client>,
    r: Option<Client>,
)
    requires
        takes_first_waiting(first, second, first_after, second_after, r),
    ensures
        first.len() > 0 ==> {
            &&& r == Some(first[0])
            &&& first == seq![first[0]] + first_after
            &&& second_after == second
        },
        first.len() == 0 && second.len() > 0 ==> {
            &&& r == Some(second[0])
            &&& second == seq![second[0]] + second_after
            &&& first_after == first
        },
        first.len() == 0 && second.len() == 0 ==> {
            &&& r.is_none()
            &&& first_after.len() == 0
            &&& second_after.len() == 0
        },
{
    if first.len() > 0 {
        assert(first =~= seq![first[0]] + first.drop_first());
    } else if second.len() > 0 {
        assert(second =~= seq![second[0]] + second.drop_first());
    }
}

/// Law of the service time: an order of `k` whole cakes and `r` single
/// portions (`r` below six) takes one minute per cake and one per portion.
pub proof fn lemma_service_time_per_cake_and_portion(k: int, r: int)
    requires
        k >= 0,
        0 <= r < 6,
    ensures
        service_time_spec(6 * k + r) == k + r,
{
    assert((6 * k + r) / 6 == k && (6 * k + r) % 6 == r) by (nonlinear_arith)
        requires
            k >= 0,
            0 <= r < 6,
    ;
}

/// The terminal colour of a worker's messages.
pub open spec fn color_spec(id: usize) -> Seq<char> {
    if id == 0 {
        "\x1b[31m"@
    } else if id == 1 {
        "\x1b[32m"@
    } else if id == 2 {
        "\x1b[33m"@
    } else if id == 3 {
        "\x1b[34m"@
    } else if id == 4 {
        "\x1b[35m"@
    } else if id == 5 {
        "\x1b[36m"@
    } else {
        "\x1b[0m"@
    }
}

/// Red, green, yellow, blue, magenta and cyan for workers 0 to 5, the
/// default colour for anyone else.
pub fn worker_color(id: usize) -> (c: &'static str)
    ensures
        c@ == color_spec(id),
{
    match id {
        0 => "\x1b[31m",
        1 => "\x1b[32m",
        2 => "\x1b[33m",
        3 => "\x1b[34m",
        4 => "\x1b[35m",
        5 => "\x1b[36m",
        _ => "\x1b[0m",
    }
}

impl Worker {
    /// Workers 0 and 1 serve regular customers first; the others serve
    /// priority customers first. Nobody has sold anything yet.
    pub fn new(id: usize) -> (w: Worker)
        ensures
            w.id == id,
            w.prioritize == !(id == 0 || id == 1),
            w.portions_sold == 0,
    {
        let prioritize = !(id == 0 || id == 1);
        Worker { id, prioritize, portions_sold: 0 }
    }

    /// Takes the next customer: from the queue this worker serves first if
    /// anyone waits there, else from the other queue; `None` when both are
    /// empty.
    pub fn fetch_client(&self, queues: &mut CustomerQueues) -> (r: Option<Client>)
        ensures
            self.prioritize ==> takes_first_waiting(
                old(queues).priority_queue@,
                old(queues).regular_queue@,
                final(queues).priority_queue@,
                final(queues).regular_queue@,
                r,
            ),
            !self.prioritize ==> takes_first_waiting(
                old(queues).regular_queue@,
                old(queues).priority_queue@,
                final(queues).regular_queue@,
                final(queues).priority_queue@,
                r,
            ),
    {
        if self.prioritize {
            if let Some(client) = queues.priority_queue.pop_front() {
                Some(client)
            } else {
                queues.regular_queue.pop_front()
            }
        } else {
            if let Some(client) = queues.regular_queue.pop_front() {
                Some(client)
            } else {
                queues.priority_queue.pop_front()
            }
        }
    }

    /// Serves `client` from the tray if the available portions cover the
    /// order, and counts the portions as sold; refuses otherwise.
    pub fn serve_client(&mut self, client: &Client, tray: &mut CakeTray) -> (outcome:
        ServiceOutcome)
        requires
            available_spec(old(tray)@) >= client.portions_ordered ==> old(self).portions_sold
                + client.portions_ordered <= usize::MAX,
        ensures
            final(tray).wf(),
            final(self).id == old(self).id,
            final(self).prioritize == old(self).prioritize,
            portions_total(final(tray)@) + final(self).portions_sold == portions_total(old(tray)@)
                + old(self).portions_sold,
            available_spec(old(tray)@) < client.portions_ordered ==> {
                &&& outcome == ServiceOutcome::Refused {
                    available: available_spec(old(tray)@) as usize,
                }
                &&& final(tray)@ == old(tray)@
                &&& final(self).portions_sold == old(self).portions_sold
            },
            available_spec(old(tray)@) >= client.portions_ordered ==> {
                &&& final(tray)@ == served_tray(old(tray)@, client.portions_ordered as int)
                &&& portions_total(final(tray)@) == portions_total(old(tray)@)
                    - client.portions_ordered
                &&& final(self).portions_sold == old(self).portions_sold + client.portions_ordered
                &&& outcome matches ServiceOutcome::Served { service_time, .. } && service_time
                    + 5 * (client.portions_ordered / 6) == client.portions_ordered
                &&& outcome == ServiceOutcome::Served {
                    service_time: service_time_spec(client.portions_ordered as int) as usize,
                    previous_front: if old(tray)@.len() > client.portions_ordered / 6 {
                        Some(old(tray)@[0])
                    } else {
                        None::<usize>
                    },
                }
            },
    {
        let ordered_portions = client.portions_ordered;
        let full_cakes = ordered_portions / 6;
        let individual_portions = ordered_portions % 6;
        let service_time = full_cakes + individual_portions;
        match tray.serve_order(ordered_portions) {
            Serving::Refused { available } => ServiceOutcome::Refused { available },
            Serving::Served { previous_front } => {
                self.portions_sold = self.portions_sold + ordered_portions;
                ServiceOutcome::Served { service_time, previous_front }
            },
        }
    }
}

} // verus!
