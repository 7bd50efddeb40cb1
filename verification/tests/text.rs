use fetch_market_and_order_data::text::{
    chars_of, digit_of, digit_text, integer_to_text, parse_digits, parse_integer, read_integer,
    remove_all, same_text, unsigned_to_text,
};

#[test]
fn same_text_compares_characters() {
    assert!(same_text("BUY", "BUY"));
    assert!(!same_text("BUY", "BUy"));
    assert!(!same_text("BUY", "BUYS"));
    assert!(same_text("", ""));
}

#[test]
fn chars_of_keeps_order() {
    assert_eq!(chars_of("a1é"), vec!['a', '1', 'é']);
    assert_eq!(chars_of(""), Vec::<char>::new());
}

#[test]
fn digit_of_knows_the_ten_digits() {
    assert_eq!(digit_of('0'), Some(0));
    assert_eq!(digit_of('7'), Some(7));
    assert_eq!(digit_of('9'), Some(9));
    assert_eq!(digit_of('a'), None);
    assert_eq!(digit_of('/'), None);
    assert_eq!(digit_of(':'), None);
}

#[test]
fn digit_text_writes_each_digit() {
    assert_eq!(digit_text(0), "0");
    assert_eq!(digit_text(5), "5");
    assert_eq!(digit_text(9), "9");
}

#[test]
fn parse_digits_reads_a_range() {
    let v = chars_of("ab123cd");
    assert_eq!(parse_digits(&v, 2, 5), Some(123));
    assert_eq!(parse_digits(&v, 2, 2), None);
    assert_eq!(parse_digits(&v, 1, 5), None);
    let big = chars_of("18446744073709551615");
    assert_eq!(parse_digits(&big, 0, big.len()), Some(u64::MAX));
    let bigger = chars_of("18446744073709551616");
    assert_eq!(parse_digits(&bigger, 0, bigger.len()), None);
    let zeros = chars_of("00042");
    assert_eq!(parse_digits(&zeros, 0, zeros.len()), Some(42));
}

#[test]
fn parse_integer_reads_signs() {
    let v = chars_of("-42+7");
    assert_eq!(parse_integer(&v, 0, 3), Some(-42));
    assert_eq!(parse_integer(&v, 3, 5), Some(7));
    assert_eq!(parse_integer(&v, 0, 1), None);
    assert_eq!(parse_integer(&v, 0, 5), None);
}

#[test]
fn read_integer_covers_the_whole_range() {
    assert_eq!(read_integer("0"), Some(0));
    assert_eq!(read_integer("9223372036854775807"), Some(i64::MAX));
    assert_eq!(read_integer("-9223372036854775808"), Some(i64::MIN));
    assert_eq!(read_integer("9223372036854775808"), None);
    assert_eq!(read_integer("-9223372036854775809"), None);
    assert_eq!(read_integer(""), None);
    assert_eq!(read_integer("-"), None);
    assert_eq!(read_integer("1.0"), None);
    assert_eq!(read_integer("12a"), None);
    assert_eq!(read_integer(" 12"), None);
}

#[test]
fn unsigned_to_text_writes_decimal() {
    assert_eq!(unsigned_to_text(0), "0");
    assert_eq!(unsigned_to_text(7), "7");
    assert_eq!(unsigned_to_text(10), "10");
    assert_eq!(unsigned_to_text(1_234_567_890), "1234567890");
    assert_eq!(unsigned_to_text(u128::MAX), u128::MAX.to_string());
}

#[test]
fn integer_to_text_writes_the_sign() {
    assert_eq!(integer_to_text(0), "0");
    assert_eq!(integer_to_text(-1), "-1");
    assert_eq!(integer_to_text(1_586_000_000_123), "1586000000123");
    assert_eq!(integer_to_text(i128::MIN), i128::MIN.to_string());
    assert_eq!(integer_to_text(i128::MAX), i128::MAX.to_string());
}

#[test]
fn integer_text_reads_back() {
    for v in [0i64, 1, -1, 42, -9000, i64::MAX, i64::MIN] {
        assert_eq!(read_integer(&integer_to_text(v as i128)), Some(v));
    }
}

#[test]
fn remove_all_takes_every_occurrence_out() {
    assert_eq!(remove_all("lightning_board_snapshot_BTC_JPY", "_snapshot"), "lightning_board_BTC_JPY");
    assert_eq!(remove_all("a_snapshot_snapshotb", "_snapshot"), "ab");
    assert_eq!(remove_all("_snapshot", "_snapshot"), "");
    assert_eq!(remove_all("abab", "ab"), "");
    assert_eq!(remove_all("xabyabz", "ab"), "xyz");
    assert_eq!(remove_all("é_snapshoté", "_snapshot"), "éé");
    assert_eq!(remove_all("é_snapshoté", "é"), "_snapshot");
}

#[test]
fn remove_all_finds_occurrences_from_the_left() {
    assert_eq!(remove_all("aaa", "aa"), "a");
    assert_eq!(remove_all("aaaa", "aa"), "");
    assert_eq!(remove_all("ababa", "aba"), "ba");
    assert_eq!(remove_all("aab", "ab"), "a");
}

#[test]
fn remove_all_leaves_a_text_without_the_pattern() {
    assert_eq!(remove_all("lightning_board_BTC_JPY", "_snapshot"), "lightning_board_BTC_JPY");
    assert_eq!(remove_all("", "_snapshot"), "");
    assert_eq!(remove_all("abc", ""), "abc");
    assert_eq!(remove_all("ab", "abc"), "ab");
    assert_eq!(remove_all("_snapsho", "_snapshot"), "_snapsho");
    assert_eq!(remove_all("é_snapsható", "_snapshot"), "é_snapsható");
}

#[test]
fn remove_all_agrees_with_replace() {
    for (s, p) in [("aXbXXc", "X"), ("XXX", "XX"), ("hello", "l"), ("mississippi", "ssi"), ("aaaaa", "aaa")] {
        assert_eq!(remove_all(s, p), s.replace(p, ""));
    }
}
