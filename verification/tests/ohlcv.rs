use fetch_market_and_order_data::amount::Amount;
use fetch_market_and_order_data::ohlcv::CandleStick;
use fetch_market_and_order_data::stream_api::{Execution, Side};

fn whole(n: u64) -> Amount {
    Amount::from_whole(n).unwrap()
}

fn trade(epoch: i64, price: u64, size: u64, side: Side) -> Execution {
    Execution {
        id: 1,
        exec_unix_time: epoch * 1000,
        side,
        price: whole(price),
        size: whole(size),
        channel: String::from("lightning_executions_BTC_JPY"),
    }
}

fn candle(period: &str) -> CandleStick {
    CandleStick::new(String::from(period))
}

#[test]
fn new_candle_has_no_data() {
    let c = candle("5s");
    assert!(!c.has_data());
    assert_eq!(c.get_csv_name(), "5s");
    assert!(!c.in_periods(&trade(1000, 100, 1, Side::Buy)));
}

#[test]
fn start_opens_with_the_trade() {
    let mut c = candle("5s");
    c.start(&trade(1003, 100, 2, Side::Buy));
    assert!(c.has_data());
    assert_eq!(c.get_csv(), "1000000000000 100 100 100 100 2 0 2\n");
    let mut c = candle("5s");
    c.start(&trade(1003, 100, 2, Side::Sell));
    assert_eq!(c.get_csv(), "1000000000000 100 100 100 100 0 2 2\n");
    let mut c = candle("5s");
    c.start(&trade(1003, 100, 2, Side::NoSide));
    assert_eq!(c.get_csv(), "1000000000000 100 100 100 100 0 0 2\n");
}

#[test]
fn buy_then_sell_in_one_bucket() {
    let mut c = candle("1m");
    let first = trade(1000, 100, 1, Side::Buy);
    let second = trade(1001, 105, 2, Side::Sell);
    assert!(!c.in_periods(&first));
    c.start(&first);
    assert!(c.in_periods(&second));
    c.update(&second);
    assert_eq!(c.get_csv(), "960000000000 100 105 100 105 1 2 3\n");
}

#[test]
fn low_goes_down_and_never_up() {
    let mut c = candle("1m");
    c.start(&trade(1000, 100, 1, Side::Buy));
    c.update(&trade(1001, 90, 1, Side::Buy));
    assert_eq!(c.get_csv(), "960000000000 100 100 90 90 2 0 2\n");
    c.update(&trade(1002, 95, 1, Side::Sell));
    assert_eq!(c.get_csv(), "960000000000 100 100 90 95 2 1 3\n");
    c.update(&trade(1003, 110, 1, Side::NoSide));
    assert_eq!(c.get_csv(), "960000000000 100 110 90 110 2 1 4\n");
}

#[test]
fn update_without_a_candle_changes_nothing() {
    let mut c = candle("1m");
    c.update(&trade(1000, 100, 1, Side::Buy));
    assert!(!c.has_data());
}

#[test]
fn bucket_of_five_seconds() {
    let mut c = candle("5s");
    c.start(&trade(1000, 100, 1, Side::Buy));
    assert!(c.in_periods(&trade(1000, 1, 1, Side::Buy)));
    assert!(c.in_periods(&trade(1004, 1, 1, Side::Buy)));
    assert!(!c.in_periods(&trade(1005, 1, 1, Side::Buy)));
    assert!(!c.in_periods(&trade(999, 1, 1, Side::Buy)));
    c.start(&trade(1005, 100, 1, Side::Buy));
    assert_eq!(c.get_csv(), "1005000000000 100 100 100 100 1 0 1\n");
    assert!(!c.in_periods(&trade(1004, 1, 1, Side::Buy)));
}

#[test]
fn bucket_counts_whole_seconds_of_the_instant() {
    let mut c = candle("5s");
    let mut late = trade(1004, 100, 1, Side::Buy);
    late.exec_unix_time = 1_004_999;
    c.start(&late);
    assert_eq!(c.get_csv(), "1000000000000 100 100 100 100 1 0 1\n");
    let mut next = trade(1005, 100, 1, Side::Buy);
    next.exec_unix_time = 1_005_000;
    assert!(!c.in_periods(&next));
}

#[test]
fn bucket_before_the_epoch_floors_down() {
    let mut c = candle("5s");
    c.start(&trade(-1, 100, 1, Side::Buy));
    assert_eq!(c.get_csv(), "-5000000000 100 100 100 100 1 0 1\n");
    assert!(c.in_periods(&trade(-5, 1, 1, Side::Buy)));
    assert!(!c.in_periods(&trade(0, 1, 1, Side::Buy)));
}

#[test]
fn start_replaces_the_open_candle() {
    let mut c = candle("5s");
    c.start(&trade(1000, 100, 1, Side::Buy));
    c.update(&trade(1001, 200, 1, Side::Buy));
    c.start(&trade(1007, 50, 3, Side::Sell));
    assert_eq!(c.get_csv(), "1005000000000 50 50 50 50 0 3 3\n");
}

#[test]
fn volume_holds_at_the_largest_amount() {
    let mut c = candle("5s");
    let mut big = trade(1000, 100, 1, Side::Buy);
    big.size = Amount::from_units(u64::MAX);
    c.start(&big);
    c.update(&trade(1001, 100, 1, Side::Buy));
    assert_eq!(
        c.get_csv(),
        "1000000000000 100 100 100 100 184467440737.09551615 0 184467440737.09551615\n"
    );
}

#[test]
fn fractions_are_written_exactly() {
    let mut c = candle("1h");
    let mut e = trade(3600, 1, 1, Side::Buy);
    e.price = Amount::from_units(72_000_050_000_000);
    e.size = Amount::from_units(1_000_000);
    c.start(&e);
    assert_eq!(c.get_csv(), "3600000000000 720000.5 720000.5 720000.5 720000.5 0.01 0 0.01\n");
}

#[test]
fn accept_opens_updates_and_closes() {
    let mut c = candle("5s");
    assert_eq!(c.accept(&trade(1000, 100, 1, Side::Buy)), None);
    assert_eq!(c.accept(&trade(1004, 105, 2, Side::Sell)), None);
    assert_eq!(c.get_csv(), "1000000000000 100 105 100 105 1 2 3\n");
    assert_eq!(
        c.accept(&trade(1005, 90, 4, Side::Buy)),
        Some(String::from("1000000000000 100 105 100 105 1 2 3\n"))
    );
    assert_eq!(c.get_csv(), "1005000000000 90 90 90 90 4 0 4\n");
}

#[test]
fn accept_closes_for_an_earlier_bucket_too() {
    let mut c = candle("5s");
    c.accept(&trade(1005, 100, 1, Side::Buy));
    assert_eq!(
        c.accept(&trade(1004, 90, 1, Side::Buy)),
        Some(String::from("1005000000000 100 100 100 100 1 0 1\n"))
    );
    assert_eq!(c.get_csv(), "1000000000000 90 90 90 90 1 0 1\n");
}

#[test]
fn periods_are_reached_from_the_candle_module() {
    let p = fetch_market_and_order_data::ohlcv::Periods::new(String::from("2m"));
    assert_eq!(p.time(), 120);
}
