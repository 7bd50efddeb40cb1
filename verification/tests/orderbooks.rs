use fetch_market_and_order_data::amount::Amount;
use fetch_market_and_order_data::orderbooks::OrderBooks;
use fetch_market_and_order_data::stream_api::{Board, PriceLevel};

fn level(price: u64, size: u64) -> PriceLevel {
    PriceLevel {
        price: Amount::from_whole(price).unwrap(),
        size: Amount::from_whole(size).unwrap(),
    }
}

fn board(epoch: i64, asks: Vec<PriceLevel>, bids: Vec<PriceLevel>, is_update: bool) -> Board {
    Board {
        receive_time: epoch * 1000,
        asks,
        bids,
        channel: String::from("lightning_board_BTC_JPY"),
        is_update,
    }
}

fn diff(asks: Vec<PriceLevel>, bids: Vec<PriceLevel>) -> Board {
    board(1000, asks, bids, true)
}

fn snapshot(asks: Vec<PriceLevel>, bids: Vec<PriceLevel>) -> Board {
    board(1000, asks, bids, false)
}

fn book() -> OrderBooks {
    OrderBooks::new(String::from("1m"), 0)
}

#[test]
fn new_book_is_empty() {
    let b = book();
    assert!(!b.has_data());
    assert_eq!(b.get_csv_name(), "1m");
    assert_eq!(b.get_csv(), "0  \n");
}

#[test]
fn new_book_floors_its_bucket_to_the_period() {
    let b = OrderBooks::new(String::from("1h"), 7_300_000);
    assert_eq!(b.get_csv(), "7200  \n");
    assert!(b.in_periods(&board(7200, vec![], vec![], true)));
    assert!(b.in_periods(&board(10_799, vec![], vec![], true)));
    assert!(!b.in_periods(&board(10_800, vec![], vec![], true)));
    assert!(!b.in_periods(&board(7199, vec![], vec![], true)));
}

#[test]
fn snapshot_fills_both_sides() {
    let mut b = book();
    b.start(&snapshot(vec![level(102, 1), level(101, 2)], vec![level(99, 3), level(100, 4)]));
    assert!(b.has_data());
    assert_eq!(b.get_csv(), "960 [101,2],[102,1] [100,4],[99,3]\n");
}

#[test]
fn snapshot_sums_a_repeated_price() {
    let mut b = book();
    b.start(&snapshot(vec![level(101, 2), level(101, 3)], vec![]));
    assert_eq!(b.get_csv(), "960 [101,5] \n");
}

#[test]
fn snapshot_keeps_no_level_of_size_zero() {
    let mut b = book();
    b.start(&snapshot(vec![level(101, 0), level(102, 1), level(103, 0)], vec![level(99, 0)]));
    assert_eq!(b.get_csv(), "960 [102,1] \n");
    let mut b = book();
    b.start(&snapshot(vec![level(101, 0)], vec![]));
    assert!(!b.has_data());
}

#[test]
fn snapshot_after_diffs_leaves_nothing_of_before() {
    let mut b = book();
    b.update(&diff(vec![level(101, 1), level(102, 2)], vec![level(99, 1), level(98, 2)]));
    b.update(&diff(vec![level(103, 3)], vec![level(97, 3)]));
    b.update(&snapshot(vec![level(200, 1)], vec![level(150, 2)]));
    assert_eq!(b.get_csv(), "960 [200,1] [150,2]\n");
    b.update(&snapshot(vec![], vec![]));
    assert!(!b.has_data());
    assert_eq!(b.get_csv(), "960  \n");
}

#[test]
fn update_with_a_whole_book_is_start() {
    let mut a = book();
    let mut b = book();
    let s = snapshot(vec![level(101, 2)], vec![level(99, 3)]);
    a.start(&s);
    b.update(&s);
    assert_eq!(a.get_csv(), b.get_csv());
}

#[test]
fn diff_accumulates_a_price_repeated_within_it() {
    let mut b = book();
    b.update(&diff(vec![level(101, 3), level(101, 2)], vec![]));
    assert_eq!(b.get_csv(), "960 [101,5] \n");
}

#[test]
fn diff_replaces_on_first_touch() {
    let mut b = book();
    b.start(&snapshot(vec![level(101, 10)], vec![]));
    b.update(&diff(vec![level(101, 3)], vec![]));
    assert_eq!(b.get_csv(), "960 [101,3] \n");
}

#[test]
fn diff_replaces_then_accumulates() {
    let mut b = book();
    b.start(&snapshot(vec![level(101, 10)], vec![]));
    b.update(&diff(vec![level(101, 3), level(101, 2), level(101, 1)], vec![]));
    assert_eq!(b.get_csv(), "960 [101,6] \n");
}

#[test]
fn each_diff_starts_with_no_price_touched() {
    let mut b = book();
    b.update(&diff(vec![level(101, 3)], vec![]));
    b.update(&diff(vec![level(101, 2)], vec![]));
    assert_eq!(b.get_csv(), "960 [101,2] \n");
}

#[test]
fn diff_of_size_zero_removes_the_level() {
    let mut b = book();
    b.start(&snapshot(vec![level(101, 10), level(102, 5)], vec![level(99, 1)]));
    b.update(&diff(vec![level(101, 0)], vec![level(99, 0), level(98, 0)]));
    assert_eq!(b.get_csv(), "960 [102,5] \n");
}

#[test]
fn diff_removes_and_fills_again() {
    let mut b = book();
    b.update(&diff(vec![level(101, 3), level(101, 0), level(101, 2)], vec![]));
    assert_eq!(b.get_csv(), "960 [101,2] \n");
    let mut b = book();
    b.start(&snapshot(vec![level(101, 10)], vec![]));
    b.update(&diff(vec![level(101, 0), level(101, 2)], vec![]));
    assert_eq!(b.get_csv(), "960 [101,2] \n");
}

#[test]
fn diff_ignores_the_price_zero() {
    let mut b = book();
    b.update(&diff(vec![level(0, 3), level(101, 1)], vec![level(0, 7)]));
    assert_eq!(b.get_csv(), "960 [101,1] \n");
}

#[test]
fn snapshot_keeps_the_price_zero() {
    let mut b = book();
    b.start(&snapshot(vec![level(0, 3)], vec![]));
    assert_eq!(b.get_csv(), "960 [0,3] \n");
    b.update(&diff(vec![level(0, 0)], vec![]));
    assert_eq!(b.get_csv(), "960 [0,3] \n");
}

#[test]
fn a_bid_leaves_the_ask_at_its_price() {
    let mut b = book();
    b.start(&snapshot(vec![level(100, 1)], vec![level(100, 2)]));
    b.update(&diff(vec![], vec![level(100, 5), level(100, 1)]));
    assert_eq!(b.get_csv(), "960 [100,1] [100,6]\n");
    b.update(&diff(vec![level(100, 0)], vec![]));
    assert_eq!(b.get_csv(), "960  [100,6]\n");
}

#[test]
fn sizes_hold_at_the_largest_amount() {
    let mut b = book();
    let top = PriceLevel { price: Amount::from_units(1), size: Amount::from_units(u64::MAX) };
    let one = PriceLevel { price: Amount::from_units(1), size: Amount::from_units(1) };
    b.update(&diff(vec![top, one], vec![]));
    assert_eq!(b.get_csv(), "960 [0.00000001,184467440737.09551615] \n");
    b.start(&snapshot(vec![one, top], vec![]));
    assert_eq!(b.get_csv(), "960 [0.00000001,184467440737.09551615] \n");
}

#[test]
fn update_moves_the_bucket_to_the_receipt() {
    let mut b = book();
    assert!(b.in_periods(&board(59, vec![], vec![], true)));
    b.update(&board(125, vec![level(101, 1)], vec![], true));
    assert_eq!(b.get_csv(), "120 [101,1] \n");
    assert!(b.in_periods(&board(120, vec![], vec![], true)));
    assert!(b.in_periods(&board(179, vec![], vec![], true)));
    assert!(!b.in_periods(&board(180, vec![], vec![], true)));
    b.start(&board(60, vec![], vec![], false));
    assert_eq!(b.get_csv(), "60  \n");
}

#[test]
fn record_shows_the_best_25_of_each_side() {
    let mut b = book();
    let asks: Vec<PriceLevel> = (1..=30u64).rev().map(|i| level(1000 + i, i)).collect();
    let bids: Vec<PriceLevel> = (1..=30u64).map(|i| level(900 + i, i)).collect();
    b.start(&snapshot(asks, bids));
    let shown_asks: Vec<String> = (1..=25u64).map(|i| format!("[{},{}]", 1000 + i, i)).collect();
    let shown_bids: Vec<String> =
        (6..=30u64).rev().map(|i| format!("[{},{}]", 900 + i, i)).collect();
    assert_eq!(
        b.get_csv(),
        format!("960 {} {}\n", shown_asks.join(","), shown_bids.join(","))
    );
}

#[test]
fn record_shows_all_of_a_shallow_side() {
    let mut b = book();
    b.start(&snapshot(vec![level(3, 1), level(1, 1), level(2, 1)], vec![level(5, 1)]));
    assert_eq!(b.get_csv(), "960 [1,1],[2,1],[3,1] [5,1]\n");
}

#[test]
fn record_orders_by_value_and_not_by_text() {
    let mut b = book();
    b.start(&snapshot(vec![level(100, 1), level(9, 1), level(20, 1)], vec![level(100, 1), level(9, 1), level(20, 1)]));
    assert_eq!(b.get_csv(), "960 [9,1],[20,1],[100,1] [100,1],[20,1],[9,1]\n");
}

#[test]
fn no_level_of_size_zero_after_any_run() {
    let mut b = book();
    let boards = vec![
        snapshot(vec![level(1, 0), level(2, 1)], vec![level(3, 0)]),
        diff(vec![level(2, 0), level(4, 1), level(4, 0), level(5, 2)], vec![level(3, 1)]),
        diff(vec![level(5, 0)], vec![level(3, 0), level(6, 1), level(6, 1)]),
        snapshot(vec![level(7, 0), level(7, 0)], vec![level(8, 0), level(8, 2)]),
    ];
    for x in &boards {
        b.update(x);
        assert!(!b.get_csv().contains(",0]"));
    }
    assert_eq!(b.get_csv(), "960  [8,2]\n");
}

#[test]
fn accept_writes_the_book_out_when_the_bucket_changes() {
    let mut b = book();
    assert_eq!(b.accept(&board(10, vec![level(101, 1)], vec![], false)), None);
    assert_eq!(b.accept(&board(59, vec![level(102, 1)], vec![], true)), None);
    assert_eq!(
        b.accept(&board(60, vec![level(103, 1)], vec![], true)),
        Some(String::from("0 [101,1],[102,1] \n"))
    );
    assert_eq!(b.get_csv(), "60 [101,1],[102,1],[103,1] \n");
}

#[test]
fn accept_writes_nothing_out_of_an_empty_book() {
    let mut b = book();
    assert_eq!(b.accept(&board(600, vec![level(101, 1)], vec![], true)), None);
    assert_eq!(b.get_csv(), "600 [101,1] \n");
}
