use bakery::tray::{CakeTray, Serving, AFTERNOON_CAKES, OPENING_CAKES};

fn tray_of(cakes: usize) -> CakeTray {
    let mut tray = CakeTray::new();
    for _ in 0..cakes {
        tray.bake_cake();
    }
    tray
}

#[test]
fn opening_stock_holds_twenty_fresh_cakes() {
    let tray = CakeTray::opening_stock();
    assert_eq!(tray.len(), OPENING_CAKES);
    assert_eq!(tray.total_portions(), Some(120));
    assert_eq!(tray.front(), Some(6));
}

#[test]
fn empty_tray_has_nothing() {
    let tray = CakeTray::new();
    assert_eq!(tray.len(), 0);
    assert_eq!(tray.front(), None);
    assert_eq!(tray.total_portions(), Some(0));
    assert_eq!(tray.available_portions(), 0);
}

#[test]
fn available_counts_last_three_cakes() {
    let mut tray = CakeTray::opening_stock();
    assert_eq!(tray.available_portions(), 18);
    // Cut the front cake down to 1: the last three cakes are still whole.
    assert!(matches!(tray.serve_order(5), Serving::Served { .. }));
    assert_eq!(tray.front(), Some(1));
    assert_eq!(tray.available_portions(), 18);
}

#[test]
fn available_counts_every_cake_below_three() {
    let mut tray = tray_of(2);
    assert!(matches!(tray.serve_order(4), Serving::Served { .. }));
    assert_eq!(tray.available_portions(), 8);
}

#[test]
fn serving_takes_whole_cakes_from_back_and_portions_from_front() {
    let mut tray = CakeTray::opening_stock();
    match tray.serve_order(14) {
        Serving::Served { previous_front } => assert_eq!(previous_front, Some(6)),
        Serving::Refused { .. } => panic!("order should be served"),
    }
    assert_eq!(tray.len(), 18);
    assert_eq!(tray.front(), Some(4));
    assert_eq!(tray.total_portions(), Some(106));
}

#[test]
fn serving_uses_up_the_front_cake_then_cuts_the_next() {
    let mut tray = tray_of(3);
    assert!(matches!(tray.serve_order(4), Serving::Served { .. }));
    assert_eq!(tray.front(), Some(2));
    // 2 from the cut cake, 3 from the next one.
    assert!(matches!(tray.serve_order(5), Serving::Served { previous_front: Some(2) }));
    assert_eq!(tray.len(), 2);
    assert_eq!(tray.front(), Some(3));
    assert_eq!(tray.total_portions(), Some(9));
}

#[test]
fn serving_the_whole_tray_leaves_nothing() {
    let mut tray = tray_of(2);
    match tray.serve_order(12) {
        Serving::Served { previous_front } => assert_eq!(previous_front, None),
        Serving::Refused { .. } => panic!("order should be served"),
    }
    assert_eq!(tray.len(), 0);
    assert_eq!(tray.total_portions(), Some(0));
}

#[test]
fn refused_order_leaves_tray_untouched() {
    let mut tray = tray_of(1);
    match tray.serve_order(7) {
        Serving::Refused { available } => assert_eq!(available, 6),
        Serving::Served { .. } => panic!("order should be refused"),
    }
    assert_eq!(tray.len(), 1);
    assert_eq!(tray.total_portions(), Some(6));
}

#[test]
fn refused_when_last_three_cakes_fall_short() {
    let mut tray = tray_of(4);
    // Front becomes 1 after 5 portions; total is now 19, last three hold 18.
    assert!(matches!(tray.serve_order(5), Serving::Served { .. }));
    assert_eq!(tray.total_portions(), Some(19));
    assert!(matches!(tray.serve_order(19), Serving::Refused { available: 18 }));
    assert_eq!(tray.total_portions(), Some(19));
}

#[test]
fn serving_removes_exactly_the_order() {
    for ordered in 1..=18 {
        let mut tray = CakeTray::opening_stock();
        let before = tray.total_portions().unwrap();
        assert!(matches!(tray.serve_order(ordered), Serving::Served { .. }));
        assert_eq!(tray.total_portions().unwrap(), before - ordered);
    }
}

#[test]
fn afternoon_cakes_go_behind_the_morning_ones() {
    let mut tray = tray_of(3);
    assert!(matches!(tray.serve_order(1), Serving::Served { .. }));
    tray.add_afternoon_cakes();
    assert_eq!(tray.len(), 3 + AFTERNOON_CAKES);
    assert_eq!(tray.front(), Some(5));
    assert_eq!(tray.total_portions(), Some(17 + 6 * AFTERNOON_CAKES));
}

#[test]
fn restock_replaces_the_tray() {
    let mut tray = tray_of(3);
    assert!(matches!(tray.serve_order(1), Serving::Served { .. }));
    tray.restock_afternoon();
    assert_eq!(tray.len(), AFTERNOON_CAKES);
    assert_eq!(tray.front(), Some(6));
    assert_eq!(tray.total_portions(), Some(300));
}
