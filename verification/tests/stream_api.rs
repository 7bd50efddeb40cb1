use fetch_market_and_order_data::amount::Amount;
use fetch_market_and_order_data::codec::DecodeError;
use fetch_market_and_order_data::stream_api::{
    BfWebsocket, Board, Common, Execution, Incoming, Latency, MarketInfo, Outgoing, PriceLevel,
    Side, TryRecvError,
};

const RECEIVED: i64 = 1_586_000_001_000;

fn trade() -> Execution {
    Execution {
        id: 1670672512,
        exec_unix_time: 1_586_000_000_123,
        side: Side::Sell,
        price: Amount::from_units(72_000_000_000_000),
        size: Amount::from_units(1_000_000),
        channel: String::from("lightning_executions_BTC_JPY"),
    }
}

fn subscribe(channel: &str) -> String {
    format!(
        "{{\"jsonrpc\":\"2.0\",\"method\":\"subscribe\",\"params\":{{\"channel\":\"{}\"}}}}",
        channel
    )
}

fn unsubscribe(channel: &str) -> String {
    format!(
        "{{\"jsonrpc\":\"2.0\",\"method\":\"unsubscribe\",\"params\":{{\"channel\":\"{}\"}}}}",
        channel
    )
}

fn trades_frame(first_id: i64) -> Incoming {
    Incoming::Text(format!(
        "{{\"params\":{{\"channel\":\"lightning_executions_BTC_JPY\",\"message\":[{{\"id\":{},\"side\":\"BUY\",\"price\":100,\"size\":1,\"exec_date\":\"2020-04-04T11:33:20.2Z\"}},{{\"id\":{},\"side\":\"SELL\",\"price\":105,\"size\":2,\"exec_date\":\"2020-04-04T11:33:20.1Z\"}}]}}}}",
        first_id,
        first_id + 1
    ))
}

fn kind(event: &MarketInfo) -> String {
    match event {
        MarketInfo::Executions(e) => format!("trade {}", e.id),
        MarketInfo::LatencyExchange(l) => format!("latency {}", l.sender_time),
        MarketInfo::Boards(b) => format!("board {}", b.channel),
        MarketInfo::Close => String::from("close"),
    }
}

fn drain(session: &mut BfWebsocket) -> Vec<String> {
    let mut out = Vec::new();
    while let Ok(event) = session.on_message() {
        out.push(kind(&event));
    }
    out
}

#[test]
fn side_from_str_knows_buy_and_sell() {
    assert_eq!(Side::from_str("BUY"), Side::Buy);
    assert_eq!(Side::from_str("SELL"), Side::Sell);
}

#[test]
fn side_from_str_takes_anything_else_as_no_side() {
    for s in ["", "buy", "Sell", "BUYSELL", " BUY", "HOLD", "買"] {
        assert_eq!(Side::from_str(s), Side::NoSide);
    }
}

#[test]
fn side_to_string_is_one_letter() {
    assert_eq!(Side::Buy.to_string(), "B");
    assert_eq!(Side::Sell.to_string(), "S");
    assert_eq!(Side::NoSide.to_string(), "N");
}

#[test]
fn execution_record_has_five_fields() {
    assert_eq!(trade().get_csv(), "1670672512 1586000000123 S 720000 0.01\n");
}

#[test]
fn execution_accessors_give_the_fields() {
    let e = trade();
    assert_eq!(e.get_side(), Side::Sell);
    assert_eq!(e.get_price(), Amount::from_units(72_000_000_000_000));
    assert_eq!(e.get_size(), Amount::from_units(1_000_000));
    assert_eq!(e.data_time(), 1_586_000_000_123);
    assert_eq!(e.channel(), "lightning_executions_BTC_JPY");
    assert_eq!(e.get_channel(), "lightning_executions_BTC_JPY");
}

#[test]
fn execution_dates_are_written_in_utc() {
    let e = trade();
    assert_eq!(e.get_date(), Some(String::from("20200404")));
    assert_eq!(e.get_date_second(), Some(String::from("20200404113320")));
}

#[test]
fn dates_before_the_epoch_are_written() {
    let mut e = trade();
    e.exec_unix_time = -1;
    assert_eq!(e.get_date(), Some(String::from("19691231")));
    assert_eq!(e.get_date_second(), Some(String::from("19691231235959")));
}

#[test]
fn dates_beyond_the_calendar_are_none() {
    let mut e = trade();
    e.exec_unix_time = i64::MAX;
    assert_eq!(e.get_date(), None);
    assert_eq!(e.get_date_second(), None);
}

#[test]
fn latency_record_has_two_fields() {
    let l = Latency {
        sender_time: 877,
        receive_time: RECEIVED,
        channel: String::from("lightning_executions_BTC_JPY"),
    };
    assert_eq!(l.get_csv(), "1586000001000 877\n");
    assert_eq!(l.data_time(), RECEIVED);
    assert_eq!(l.get_date(), Some(String::from("20200404")));
    assert_eq!(l.get_channel(), "lightning_executions_BTC_JPY");
}

#[test]
fn latency_record_may_be_negative() {
    let l = Latency { sender_time: -5, receive_time: 0, channel: String::new() };
    assert_eq!(l.get_csv(), "0 -5\n");
}

#[test]
fn board_record_is_the_receipt() {
    let b = Board {
        receive_time: RECEIVED,
        asks: vec![PriceLevel { price: Amount::from_units(1), size: Amount::from_units(1) }],
        bids: vec![],
        channel: String::from("lightning_board_BTC_JPY"),
        is_update: true,
    };
    assert_eq!(b.get_csv(), "1586000001000\n");
    assert_eq!(b.data_time(), RECEIVED);
    assert_eq!(b.get_channel(), "lightning_board_BTC_JPY");
    assert_eq!(b.get_date_second(), Some(String::from("20200404113321")));
}

#[test]
fn new_session_has_the_exchange_name() {
    let s = BfWebsocket::new();
    assert_eq!(s.get_exchange_name(), "bitFlyer");
    assert_eq!(s.get_end_point(), "wss://ws.lightstream.bitflyer.com/json-rpc");
}

#[test]
fn catalog_lists_six_channels_in_order() {
    let s = BfWebsocket::new();
    assert_eq!(
        s.get_public_channels(),
        [
            "lightning_executions_FX_BTC_JPY",
            "lightning_executions_BTC_JPY",
            "lightning_board_snapshot_FX_BTC_JPY",
            "lightning_board_FX_BTC_JPY",
            "lightning_board_snapshot_BTC_JPY",
            "lightning_board_BTC_JPY",
        ]
    );
    assert_eq!(
        s.get_public_execute_channels(),
        ["lightning_executions_FX_BTC_JPY", "lightning_executions_BTC_JPY"]
    );
    assert_eq!(
        s.get_public_board_channels(),
        ["lightning_board_FX_BTC_JPY", "lightning_board_BTC_JPY"]
    );
    assert_eq!(
        s.get_public_snapshot_channels(),
        ["lightning_board_snapshot_FX_BTC_JPY", "lightning_board_snapshot_BTC_JPY"]
    );
}

#[test]
fn on_connect_subscribes_to_every_channel() {
    let mut s = BfWebsocket::new();
    let frames = s.on_connect(RECEIVED);
    let channels = s.get_public_channels();
    assert_eq!(frames.len(), 6);
    for i in 0..6 {
        assert_eq!(frames[i], subscribe(&channels[i]));
    }
    assert_eq!(
        frames[0],
        "{\"jsonrpc\":\"2.0\",\"method\":\"subscribe\",\"params\":{\"channel\":\"lightning_executions_FX_BTC_JPY\"}}"
    );
}

#[test]
fn before_read_reads_on_within_the_hour() {
    let mut s = BfWebsocket::new();
    s.on_connect(7_200_000);
    let plan = s.before_read(7_200_000 + 3_599_999);
    assert!(plan.proceed);
    assert_eq!(plan.frames.len(), 0);
}

#[test]
fn before_read_refreshes_snapshots_in_a_new_hour() {
    let mut s = BfWebsocket::new();
    s.on_connect(7_200_000);
    let plan = s.before_read(7_200_000 + 3_600_000);
    assert!(plan.proceed);
    assert_eq!(
        plan.frames,
        vec![
            subscribe("lightning_board_snapshot_FX_BTC_JPY"),
            subscribe("lightning_board_snapshot_BTC_JPY")
        ]
    );
    let again = s.before_read(7_200_000 + 3_600_001);
    assert!(again.proceed);
    assert_eq!(again.frames.len(), 0);
}

#[test]
fn before_read_refreshes_after_a_whole_day() {
    let mut s = BfWebsocket::new();
    s.on_connect(7_200_000);
    let plan = s.before_read(7_200_000 + 86_400_000);
    assert_eq!(plan.frames.len(), 2);
}

#[test]
fn before_read_unsubscribes_and_ends_when_stopped() {
    let mut s = BfWebsocket::new();
    s.on_connect(RECEIVED);
    s.close_thread();
    let plan = s.before_read(RECEIVED);
    assert!(!plan.proceed);
    let channels = s.get_public_channels();
    assert_eq!(plan.frames.len(), 6);
    for i in 0..6 {
        assert_eq!(plan.frames[i], unsubscribe(&channels[i]));
    }
    assert_eq!(s.on_message().unwrap_err(), TryRecvError::Disconnected);
}

#[test]
fn stop_wins_over_the_hourly_refresh() {
    let mut s = BfWebsocket::new();
    s.on_connect(0);
    s.close_thread();
    let plan = s.before_read(3_600_000);
    assert!(!plan.proceed);
    assert_eq!(plan.frames[0], unsubscribe("lightning_executions_FX_BTC_JPY"));
}

#[test]
fn on_message_is_empty_while_the_reader_works() {
    let mut s = BfWebsocket::new();
    assert_eq!(s.on_message().unwrap_err(), TryRecvError::Empty);
    s.on_connect(RECEIVED);
    assert_eq!(s.on_message().unwrap_err(), TryRecvError::Empty);
    s.close_thread();
    assert_eq!(s.on_message().unwrap_err(), TryRecvError::Empty);
}

#[test]
fn on_frame_hands_trades_over_in_time_order() {
    let mut s = BfWebsocket::new();
    let reply = s.on_frame(trades_frame(10), RECEIVED);
    assert_eq!(reply.outgoing.len(), 0);
    assert_eq!(reply.fault, None);
    assert_eq!(drain(&mut s), vec!["trade 11", "trade 10", "latency 900"]);
    assert_eq!(s.on_message().unwrap_err(), TryRecvError::Empty);
}

#[test]
fn events_come_out_in_the_order_of_the_frames() {
    let mut s = BfWebsocket::new();
    s.on_frame(trades_frame(10), RECEIVED);
    s.on_frame(trades_frame(20), RECEIVED + 100);
    assert_eq!(kind(&s.on_message().unwrap()), "trade 11");
    s.on_frame(Incoming::Close, RECEIVED + 200);
    assert_eq!(
        drain(&mut s),
        vec!["trade 10", "latency 900", "trade 21", "trade 20", "latency 1000", "close"]
    );
}

#[test]
fn events_that_wait_come_out_after_the_reader_ended() {
    let mut s = BfWebsocket::new();
    s.on_frame(trades_frame(10), RECEIVED);
    s.on_frame(Incoming::Failed, RECEIVED);
    assert!(!s.before_read(RECEIVED).proceed);
    assert_eq!(drain(&mut s), vec!["trade 11", "trade 10", "latency 900"]);
    assert_eq!(s.on_message().unwrap_err(), TryRecvError::Disconnected);
}

#[test]
fn on_frame_drops_a_frame_that_does_not_decode() {
    let mut s = BfWebsocket::new();
    let reply = s.on_frame(Incoming::Text(String::from("{oops")), RECEIVED);
    assert_eq!(reply.fault, Some(DecodeError::Malformed));
    assert_eq!(reply.outgoing.len(), 0);
    let reply = s.on_frame(Incoming::Text(String::from("{}")), RECEIVED);
    assert_eq!(reply.fault, Some(DecodeError::MissingField));
    let reply = s.on_frame(trades_frame(1), i64::MAX);
    assert_eq!(reply.fault, Some(DecodeError::ClockOutOfRange));
    assert_eq!(s.on_message().unwrap_err(), TryRecvError::Empty);
    assert!(s.before_read(RECEIVED).proceed);
    s.on_frame(trades_frame(10), RECEIVED);
    assert_eq!(drain(&mut s).len(), 3);
}

#[test]
fn on_frame_ignores_a_channel_outside_the_catalog() {
    let mut s = BfWebsocket::new();
    let text = String::from("{\"params\":{\"channel\":\"lightning_ticker_BTC_JPY\",\"message\":{}}}");
    let reply = s.on_frame(Incoming::Text(text), RECEIVED);
    assert_eq!(reply.fault, None);
    assert_eq!(reply.outgoing.len(), 0);
    assert_eq!(s.on_message().unwrap_err(), TryRecvError::Empty);
}

#[test]
fn on_frame_unsubscribes_from_a_snapshot_channel() {
    let mut s = BfWebsocket::new();
    let text = String::from("{\"params\":{\"channel\":\"lightning_board_snapshot_BTC_JPY\",\"message\":{\"asks\":[{\"price\":10,\"size\":1}],\"bids\":[]}}}");
    let reply = s.on_frame(Incoming::Text(text), RECEIVED);
    assert_eq!(reply.fault, None);
    assert_eq!(reply.outgoing.len(), 1);
    match &reply.outgoing[0] {
        Outgoing::Text(t) => assert_eq!(*t, unsubscribe("lightning_board_snapshot_BTC_JPY")),
        _ => panic!("a text frame"),
    }
    assert_eq!(drain(&mut s), vec!["board lightning_board_BTC_JPY"]);
}

#[test]
fn on_frame_does_not_unsubscribe_from_a_difference_channel() {
    let mut s = BfWebsocket::new();
    let text = String::from("{\"params\":{\"channel\":\"lightning_board_BTC_JPY\",\"message\":{\"asks\":[],\"bids\":[]}}}");
    let reply = s.on_frame(Incoming::Text(text), RECEIVED);
    assert_eq!(reply.outgoing.len(), 0);
    assert_eq!(drain(&mut s), vec!["board lightning_board_BTC_JPY"]);
}

#[test]
fn on_frame_answers_a_ping_with_its_payload() {
    let mut s = BfWebsocket::new();
    let reply = s.on_frame(Incoming::Ping(vec![1, 2, 3]), RECEIVED);
    assert_eq!(reply.outgoing.len(), 1);
    match &reply.outgoing[0] {
        Outgoing::Pong(data) => assert_eq!(*data, vec![1u8, 2, 3]),
        _ => panic!("a pong"),
    }
    assert_eq!(s.on_message().unwrap_err(), TryRecvError::Empty);
    assert!(s.before_read(RECEIVED).proceed);
}

#[test]
fn close_frame_raises_the_stop_flag_and_adds_the_close_event() {
    let mut s = BfWebsocket::new();
    let reply = s.on_frame(Incoming::Close, RECEIVED);
    assert_eq!(reply.outgoing.len(), 0);
    assert!(matches!(s.on_message(), Ok(MarketInfo::Close)));
    assert!(!s.before_read(RECEIVED).proceed);
}

#[test]
fn failed_read_raises_the_stop_flag() {
    let mut s = BfWebsocket::new();
    s.on_frame(Incoming::Failed, RECEIVED);
    assert_eq!(s.on_message().unwrap_err(), TryRecvError::Empty);
    let plan = s.before_read(RECEIVED);
    assert!(!plan.proceed);
    assert_eq!(plan.frames.len(), 6);
}

#[test]
fn other_frames_change_nothing() {
    let mut s = BfWebsocket::new();
    let reply = s.on_frame(Incoming::Other, RECEIVED);
    assert_eq!(reply.outgoing.len(), 0);
    assert_eq!(reply.fault, None);
    assert!(s.before_read(0).proceed);
}
