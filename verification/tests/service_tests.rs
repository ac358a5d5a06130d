use bakery::customers::{Client, CustomerQueues, MAX_ORDER, MIN_ORDER};
use bakery::tray::CakeTray;
use bakery::worker::{worker_color, ServiceOutcome, Worker};

fn client(id: usize, is_priority: bool, portions_ordered: usize) -> Client {
    Client { id, is_priority, portions_ordered }
}

#[test]
fn workers_zero_and_one_serve_regular_customers_first() {
    for id in 0..6 {
        let w = Worker::new(id);
        assert_eq!(w.id, id);
        assert_eq!(w.portions_sold, 0);
        assert_eq!(w.prioritize, id >= 2);
    }
}

#[test]
fn new_clients_order_one_to_eighteen_portions() {
    let mut seen = std::collections::HashSet::new();
    for id in 0..500 {
        let c = Client::new(id);
        assert_eq!(c.id, id);
        assert!(c.portions_ordered >= MIN_ORDER && c.portions_ordered <= MAX_ORDER);
        seen.insert(c.portions_ordered);
    }
    // The draws are not all the lower end of the range.
    assert!(seen.len() > 1);
}

#[test]
fn some_clients_have_priority_and_most_do_not() {
    let mut priority = 0;
    for id in 0..1000 {
        if Client::new(id).is_priority {
            priority += 1;
        }
    }
    assert!(priority > 0 && priority < 1000);
}

#[test]
fn clients_join_the_queue_for_their_kind() {
    let mut q = CustomerQueues::new();
    assert!(q.is_empty());
    q.enqueue(client(1, false, 3));
    q.enqueue(client(2, true, 4));
    q.enqueue(client(3, false, 5));
    assert!(!q.is_empty());
    assert_eq!(q.regular_queue.len(), 2);
    assert_eq!(q.priority_queue.len(), 1);
    assert_eq!(q.regular_queue[0].id, 1);
    assert_eq!(q.regular_queue[1].id, 3);
    assert_eq!(q.priority_queue[0].id, 2);
}

#[test]
fn priority_worker_takes_priority_customers_first() {
    let mut q = CustomerQueues::new();
    q.enqueue(client(1, false, 3));
    q.enqueue(client(2, true, 4));
    q.enqueue(client(3, true, 5));
    let w = Worker::new(4);
    assert_eq!(w.fetch_client(&mut q).unwrap().id, 2);
    assert_eq!(w.fetch_client(&mut q).unwrap().id, 3);
    assert_eq!(w.fetch_client(&mut q).unwrap().id, 1);
    assert!(w.fetch_client(&mut q).is_none());
    assert!(q.is_empty());
}

#[test]
fn regular_worker_takes_regular_customers_first() {
    let mut q = CustomerQueues::new();
    q.enqueue(client(1, true, 3));
    q.enqueue(client(2, false, 4));
    let w = Worker::new(0);
    assert_eq!(w.fetch_client(&mut q).unwrap().id, 2);
    assert_eq!(w.fetch_client(&mut q).unwrap().id, 1);
    assert!(w.fetch_client(&mut q).is_none());
}

#[test]
fn served_order_is_counted_and_timed() {
    let mut tray = CakeTray::opening_stock();
    let mut w = Worker::new(3);
    match w.serve_client(&client(7, false, 14), &mut tray) {
        ServiceOutcome::Served { service_time, previous_front } => {
            assert_eq!(service_time, 4);
            assert_eq!(previous_front, Some(6));
        }
        ServiceOutcome::Refused { .. } => panic!("order should be served"),
    }
    assert_eq!(w.portions_sold, 14);
    assert_eq!(tray.total_portions(), Some(106));
    match w.serve_client(&client(8, true, 18), &mut tray) {
        ServiceOutcome::Served { service_time, .. } => assert_eq!(service_time, 3),
        ServiceOutcome::Refused { .. } => panic!("order should be served"),
    }
    assert_eq!(w.portions_sold, 32);
}

#[test]
fn refused_order_is_not_counted() {
    let mut tray = CakeTray::new();
    tray.bake_cake();
    let mut w = Worker::new(2);
    match w.serve_client(&client(7, false, 9), &mut tray) {
        ServiceOutcome::Refused { available } => assert_eq!(available, 6),
        ServiceOutcome::Served { .. } => panic!("order should be refused"),
    }
    assert_eq!(w.portions_sold, 0);
    assert_eq!(tray.total_portions(), Some(6));
}

#[test]
fn worker_colours() {
    assert_eq!(worker_color(0), "\x1b[31m");
    assert_eq!(worker_color(1), "\x1b[32m");
    assert_eq!(worker_color(2), "\x1b[33m");
    assert_eq!(worker_color(3), "\x1b[34m");
    assert_eq!(worker_color(4), "\x1b[35m");
    assert_eq!(worker_color(5), "\x1b[36m");
    assert_eq!(worker_color(6), "\x1b[0m");
}
