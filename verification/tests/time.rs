use fetch_market_and_order_data::time::{
    bucket_of, floor_div, hour_of, is_valid_time, seconds_of, MAX_TIME_MS,
};

#[test]
fn floor_div_rounds_down() {
    assert_eq!(floor_div(7, 2), 3);
    assert_eq!(floor_div(-7, 2), -4);
    assert_eq!(floor_div(-8, 2), -4);
    assert_eq!(floor_div(0, 5), 0);
    assert_eq!(floor_div(-1, 5), -1);
    assert_eq!(floor_div(i64::MIN, 1), i64::MIN);
    assert_eq!(floor_div(i64::MIN, i64::MAX), -2);
    assert_eq!(floor_div(i64::MAX, i64::MAX), 1);
}

#[test]
fn seconds_of_rounds_down() {
    assert_eq!(seconds_of(1_586_000_000_123), 1_586_000_000);
    assert_eq!(seconds_of(999), 0);
    assert_eq!(seconds_of(-1), -1);
    assert_eq!(seconds_of(-1000), -1);
    assert_eq!(seconds_of(-1001), -2);
}

#[test]
fn hour_of_counts_hours_from_the_epoch() {
    assert_eq!(hour_of(0), 0);
    assert_eq!(hour_of(3_599_999), 0);
    assert_eq!(hour_of(3_600_000), 1);
    assert_eq!(hour_of(-1), -1);
}

#[test]
fn bucket_of_floors_to_the_width() {
    assert_eq!(bucket_of(1000, 5), 1000);
    assert_eq!(bucket_of(1004, 5), 1000);
    assert_eq!(bucket_of(1005, 5), 1005);
    assert_eq!(bucket_of(59, 60), 0);
    assert_eq!(bucket_of(-1, 5), -5);
    assert_eq!(bucket_of(-5, 5), -5);
    assert_eq!(bucket_of(-6, 5), -10);
}

#[test]
fn bucket_of_takes_a_negative_width() {
    assert_eq!(bucket_of(1000, -5), 1000);
    assert_eq!(bucket_of(1004, -5), 1005);
    assert_eq!(bucket_of(-1, -5), 0);
}

#[test]
fn bucket_of_takes_the_longest_period() {
    let longest = 1_000_000_000_000_000_000;
    assert_eq!(bucket_of(5, longest), 0);
    assert_eq!(bucket_of(-5, longest), -longest);
    assert_eq!(bucket_of(MAX_TIME_MS, 1), MAX_TIME_MS);
    assert_eq!(bucket_of(-MAX_TIME_MS, 7), -8_640_000_000_000_005);
}

#[test]
fn valid_time_is_a_closed_range() {
    assert!(is_valid_time(0));
    assert!(is_valid_time(MAX_TIME_MS));
    assert!(is_valid_time(-MAX_TIME_MS));
    assert!(!is_valid_time(MAX_TIME_MS + 1));
    assert!(!is_valid_time(-MAX_TIME_MS - 1));
    assert!(!is_valid_time(i64::MAX));
}
