use fetch_market_and_order_data::stream_api::{Latency, MarketInfo, TryRecvError};
use fetch_market_and_order_data::supervisor::{Action, Phase, Poll, Supervisor, COOLDOWN, STALE_AFTER};

fn event() -> Result<MarketInfo, TryRecvError> {
    Ok(MarketInfo::LatencyExchange(Latency {
        sender_time: 1,
        receive_time: 2,
        channel: String::new(),
    }))
}

#[test]
fn limits_are_three_minutes_and_ten_seconds() {
    assert_eq!(STALE_AFTER, 180);
    assert_eq!(COOLDOWN, 10);
}

#[test]
fn silence_of_180_seconds_gives_one_reconnect() {
    let mut s = Supervisor::new(1000);
    let mut reconnects = 0;
    for now in 1000..=1300u64 {
        if s.observe(&Err(TryRecvError::Empty), now) == Action::Reconnect {
            reconnects += 1;
            assert_eq!(now, 1180);
        }
    }
    assert_eq!(reconnects, 1);
    assert_eq!(s.phase(), Phase::CoolingDown);
}

#[test]
fn silence_of_179_seconds_waits() {
    let mut s = Supervisor::new(1000);
    assert_eq!(s.observe(&Err(TryRecvError::Empty), 1179), Action::Wait);
    assert_eq!(s.phase(), Phase::Connected { last_receive: 1000 });
}

#[test]
fn a_clock_that_went_back_waits() {
    let mut s = Supervisor::new(1000);
    assert_eq!(s.observe(&Err(TryRecvError::Empty), 0), Action::Wait);
    assert_eq!(s.phase(), Phase::Connected { last_receive: 1000 });
}

#[test]
fn disconnect_reconnects_at_once() {
    let mut s = Supervisor::new(1000);
    assert_eq!(s.observe(&Err(TryRecvError::Disconnected), 1000), Action::Reconnect);
    assert_eq!(s.phase(), Phase::CoolingDown);
}

#[test]
fn close_event_reconnects_at_once() {
    let mut s = Supervisor::new(1000);
    assert_eq!(s.observe(&Ok(MarketInfo::Close), 1001), Action::Reconnect);
    assert_eq!(s.phase(), Phase::CoolingDown);
}

#[test]
fn an_event_is_handled_and_renews_the_time() {
    let mut s = Supervisor::new(1000);
    assert_eq!(s.observe(&event(), 1170), Action::Handle);
    assert_eq!(s.phase(), Phase::Connected { last_receive: 1170 });
    assert_eq!(s.observe(&Err(TryRecvError::Empty), 1349), Action::Wait);
    assert_eq!(s.observe(&Err(TryRecvError::Empty), 1350), Action::Reconnect);
}

#[test]
fn an_event_after_long_silence_is_still_handled() {
    let mut s = Supervisor::new(1000);
    assert_eq!(s.observe(&event(), 5000), Action::Handle);
    assert_eq!(s.phase(), Phase::Connected { last_receive: 5000 });
}

#[test]
fn cooling_down_waits_whatever_comes() {
    let mut s = Supervisor::new(1000);
    s.observe(&Err(TryRecvError::Disconnected), 1000);
    assert_eq!(s.observe(&Err(TryRecvError::Disconnected), 2000), Action::Wait);
    assert_eq!(s.observe(&Err(TryRecvError::Empty), 2000), Action::Wait);
    assert_eq!(s.observe(&event(), 2000), Action::Wait);
    assert_eq!(s.observe(&Ok(MarketInfo::Close), 2000), Action::Wait);
    assert_eq!(s.phase(), Phase::CoolingDown);
}

#[test]
fn reconnected_starts_a_fresh_count() {
    let mut s = Supervisor::new(1000);
    s.observe(&Err(TryRecvError::Empty), 1180);
    s.reconnected(1190);
    assert_eq!(s.phase(), Phase::Connected { last_receive: 1190 });
    assert_eq!(s.observe(&Err(TryRecvError::Empty), 1369), Action::Wait);
    assert_eq!(s.observe(&Err(TryRecvError::Empty), 1370), Action::Reconnect);
}

#[test]
fn step_takes_a_poll() {
    let mut s = Supervisor::new(0);
    assert_eq!(s.step(Poll::Event, 5), Action::Handle);
    assert_eq!(s.step(Poll::Empty, 184), Action::Wait);
    assert_eq!(s.step(Poll::Closed, 184), Action::Reconnect);
    assert_eq!(s.step(Poll::Event, 185), Action::Wait);
}
