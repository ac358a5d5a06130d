use bakery::stats::{place_worker_sales, Bakery, DailyStats, NO_BEST_WORKER};
use bakery::tray::CakeTray;

fn day(sold: usize, left: usize, workers: Vec<usize>) -> DailyStats {
    DailyStats { portions_sold: sold, portions_left: left, worker_stats: workers }
}

#[test]
fn worker_sales_are_placed_by_id() {
    let sales = place_worker_sales(&vec![(2, 9), (0, 4), (5, 1)]);
    assert_eq!(sales, vec![4, 0, 9, 0, 0, 1]);
    assert_eq!(place_worker_sales(&vec![]), vec![0; 6]);
}

#[test]
fn gather_reports_the_day() {
    let mut bakery = Bakery::new();
    let tray = CakeTray::opening_stock();
    let results = vec![(0, 5), (1, 7), (2, 7), (3, 0), (4, 1), (5, 2)];
    let report = bakery.gather_daily_stats(&results, &tray);
    assert_eq!(report.portions_sold, 22);
    assert_eq!(report.portions_left, 120);
    assert_eq!(report.best_worker, 1);
    assert_eq!(report.divided_portions, 20);
    assert_eq!(report.portions_remainder, 0);
    assert_eq!(bakery.stats.len(), 1);
    assert_eq!(bakery.stats[0].portions_sold, 22);
    assert_eq!(bakery.stats[0].portions_left, 120);
    assert_eq!(bakery.stats[0].worker_stats, vec![5, 7, 7, 0, 1, 2]);
}

#[test]
fn leftovers_are_shared_with_remainder_to_best_worker() {
    let mut bakery = Bakery::new();
    let mut tray = CakeTray::opening_stock();
    let _ = tray.serve_order(3);
    let report = bakery.gather_daily_stats(&vec![(0, 3)], &tray);
    assert_eq!(report.portions_left, 117);
    assert_eq!(report.divided_portions, 19);
    assert_eq!(report.portions_remainder, 3);
    assert_eq!(5 * report.divided_portions + report.divided_portions + report.portions_remainder, 117);
}

#[test]
fn nobody_is_best_worker_when_nothing_sold() {
    let mut bakery = Bakery::new();
    let tray = CakeTray::new();
    let results = vec![(0, 0), (1, 0), (2, 0), (3, 0), (4, 0), (5, 0)];
    let report = bakery.gather_daily_stats(&results, &tray);
    assert_eq!(report.best_worker, NO_BEST_WORKER);
    assert_eq!(report.portions_sold, 0);
    assert_eq!(report.portions_left, 0);
}

#[test]
fn general_stats_pick_best_day_and_best_average() {
    let bakery = Bakery {
        stats: vec![
            day(10, 3, vec![1, 2, 3, 4, 0, 0]),
            day(30, 0, vec![10, 0, 5, 9, 6, 0]),
            day(30, 1, vec![1, 1, 1, 1, 1, 25]),
        ],
    };
    let report = bakery.general_stats();
    assert_eq!(report.best_day_index, 1);
    assert_eq!(report.most_portions_sold, 30);
    // Totals: 12, 3, 9, 14, 7, 25; averages over three days: 4, 1, 3, 4, 2, 8.
    assert_eq!(report.best_worker, 5);
    assert_eq!(report.best_average, 8);
}

#[test]
fn general_stats_with_nothing_sold() {
    let bakery = Bakery { stats: vec![day(0, 120, vec![0; 6])] };
    let report = bakery.general_stats();
    assert_eq!(report.best_day_index, 0);
    assert_eq!(report.most_portions_sold, 0);
    assert_eq!(report.best_worker, 0);
    assert_eq!(report.best_average, 0);
}

#[test]
fn general_stats_first_of_equal_averages_wins() {
    let bakery = Bakery {
        stats: vec![day(12, 0, vec![0, 6, 6, 0, 0, 0]), day(0, 0, vec![0; 6])],
    };
    let report = bakery.general_stats();
    assert_eq!(report.best_worker, 1);
    assert_eq!(report.best_average, 3);
    assert_eq!(report.best_day_index, 0);
}
