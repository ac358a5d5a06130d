use bakery::ledger::{Bakery, Client, Day, Worker, DAY_MINUTES};
use bakery::prototype;

#[test]
fn a_new_day_has_no_sales() {
    let d = Day::new(4);
    assert_eq!(d.day_number, 4);
    assert_eq!(d.day_sales, 0);
}

#[test]
fn update_day_moves_on_and_resets_sales() {
    let mut d = Day::new(4);
    d.day_sales = 17;
    d.updateDay();
    assert_eq!(d.day_number, 5);
    assert_eq!(d.day_sales, 0);
}

#[test]
fn a_new_bakery_starts_in_the_morning() {
    let b = Bakery::new();
    assert!(b.phase);
    assert_eq!(b.portions_left, usize::MAX);
    assert_eq!(b.time_left, DAY_MINUTES);
    assert_eq!(b.time_left, 600);
    assert_eq!(b.current_day.day_number, 0);
    assert_eq!(b.best_day.day_number, 0);
}

#[test]
fn change_day_moves_the_current_day_on() {
    let mut b = Bakery::new();
    b.current_day.day_sales = 3;
    b.changeDay();
    assert_eq!(b.current_day.day_number, 1);
    assert_eq!(b.current_day.day_sales, 0);
    assert_eq!(b.best_day.day_number, 0);
}

#[test]
fn best_day_is_replaced_only_by_more_sales() {
    let mut b = Bakery::new();
    b.changeDay();
    b.current_day.day_sales = 10;
    b.updateBestDay();
    assert_eq!(b.best_day.day_number, 1);
    assert_eq!(b.best_day.day_sales, 10);
    b.changeDay();
    b.current_day.day_sales = 10;
    b.updateBestDay();
    assert_eq!(b.best_day.day_number, 1);
    b.current_day.day_sales = 11;
    b.updateBestDay();
    assert_eq!(b.best_day.day_number, 2);
    assert_eq!(b.best_day.day_sales, 11);
}

#[test]
fn dec_time_leaves_the_caller_ledger_alone() {
    let b = Bakery::new();
    b.clone().decTime(30);
    assert_eq!(b.time_left, 600);
}

#[test]
fn ledger_worker_sales() {
    let mut w = Worker::new(3, true);
    assert_eq!(w.id, 3);
    assert!(w.priority);
    assert_eq!(w.portions_sold, 0);
    w.sellPortions(7);
    w.sellPortions(5);
    assert_eq!(w.portions_sold, 12);
    w.newDayStats();
    assert_eq!(w.portions_sold, 0);
}

#[test]
fn ledger_client() {
    let c = Client::new(9, true);
    assert_eq!(c.id, 9);
    assert!(c.priority);
}

#[test]
fn prototype_worker_starts_idle() {
    let w = prototype::Worker::new(2, true);
    assert_eq!(w.id, 2);
    assert!(w.is_priority);
    assert_eq!(w.portions_sold, 0);
    assert!(w.client.is_none());
}

#[test]
fn prototype_client_orders_one_to_eighteen() {
    for id in 0..200u32 {
        let c = prototype::Client::new(id);
        assert_eq!(c.id, id);
        assert!(c.portions_ordered >= 1 && c.portions_ordered <= 18);
    }
}
