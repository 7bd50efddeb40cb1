//! The events of the feed and the catalog of its channels.
use vstd::prelude::*;
use vstd::array::array_as_slice;
use crate::amount::{amount_text, Amount};
use crate::calendar::{day_of, day_pattern, second_of, second_pattern, utc_text};
use crate::text::{integer_text, integer_to_text, same_text};
use crate::codec::{decode_frame, decoded_text, event_wf, view_wf, ChannelKind, DecodeError};
use crate::time::{hour_index, hour_of, valid_time};
use std::collections::VecDeque;

verus! {

/// The side of a trade.
#[derive(Clone, Copy, Debug, PartialEq, Eq, Structural)]
pub enum Side {
    Buy,
    Sell,
    NoSide,
}

/// The side that a side text names: `BUY`, `SELL`, or neither.
pub open spec fn side_of(s: Seq<char>) -> Side {
    if s == "BUY"@ {
        Side::Buy
    } else if s == "SELL"@ {
        Side::Sell
    } else {
        Side::NoSide
    }
}

/// The letter that stands for a side in a record.
pub open spec fn side_letter(side: Side) -> Seq<char> {
    match side {
        Side::Buy => "B"@,
        Side::Sell => "S"@,
        Side::NoSide => "N"@,
    }
}

impl Side {
    /// The side that a side text names. A text that is neither `BUY` nor
    /// `SELL` names no side; it is never an error.
    pub fn from_str(s: &str) -> (r: Side)
        ensures
            r == side_of(s@),
    {
        if same_text(s, "BUY") {
            Side::Buy
        } else if same_text(s, "SELL") {
            Side::Sell
        } else {
            Side::NoSide
        }
    }

    /// The letter that stands for the side in a record.
    pub fn to_string(&self) -> (r: String)
        ensures
            r@ == side_letter(*self),
    {
        match self {
            Side::Buy => String::from_str("B"),
            Side::Sell => String::from_str("S"),
            Side::NoSide => String::from_str("N"),
        }
    }
}

/// One level of an order book: a price and the size resting at it.
#[derive(Clone, Copy, Debug, PartialEq, Eq, Structural)]
pub struct PriceLevel {
    pub price: Amount,
    pub size: Amount,
}

/// One trade.
#[derive(Clone, Debug)]
pub struct Execution {
    pub id: i64,
    /// The instant of the trade, as the exchange reports it.
    pub exec_unix_time: i64,
    pub side: Side,
    pub price: Amount,
    pub size: Amount,
    pub channel: String,
}

/// What an [`Execution`] holds.
pub struct ExecutionView {
    pub id: i64,
    pub time: i64,
    pub side: Side,
    pub price: Amount,
    pub size: Amount,
    pub channel: Seq<char>,
}

impl View for Execution {
    type V = ExecutionView;

    open spec fn view(&self) -> ExecutionView {
        ExecutionView {
            id: self.id,
            time: self.exec_unix_time,
            side: self.side,
            price: self.price,
            size: self.size,
            channel: self.channel@,
        }
    }
}

/// The delay between the exchange and this client, measured on one batch of
/// trades.
#[derive(Debug)]
pub struct Latency {
    /// The instant of receipt less the oldest instant of the batch.
    pub sender_time: i64,
    pub receive_time: i64,
    pub channel: String,
}

/// What a [`Latency`] holds.
pub struct LatencyView {
    pub sender_time: i64,
    pub receive_time: i64,
    pub channel: Seq<char>,
}

impl View for Latency {
    type V = LatencyView;

    open spec fn view(&self) -> LatencyView {
        LatencyView {
            sender_time: self.sender_time,
            receive_time: self.receive_time,
            channel: self.channel@,
        }
    }
}

/// Order-book levels of one market: a difference when `is_update` holds, a
/// whole book otherwise.
#[derive(Debug)]
pub struct Board {
    pub receive_time: i64,
    pub asks: Vec<PriceLevel>,
    pub bids: Vec<PriceLevel>,
    pub channel: String,
    pub is_update: bool,
}

/// What a [`Board`] holds.
pub struct BoardView {
    pub receive_time: i64,
    pub asks: Seq<PriceLevel>,
    pub bids: Seq<PriceLevel>,
    pub channel: Seq<char>,
    pub is_update: bool,
}

impl View for Board {
    type V = BoardView;

    open spec fn view(&self) -> BoardView {
        BoardView {
            receive_time: self.receive_time,
            asks: self.asks@,
            bids: self.bids@,
            channel: self.channel@,
            is_update: self.is_update,
        }
    }
}

/// One event of the feed.
#[derive(Debug)]
pub enum MarketInfo {
    /// A trade.
    Executions(Execution),
    /// The delay measured on a batch of trades.
    LatencyExchange(Latency),
    /// Order-book levels.
    Boards(Board),
    /// The exchange closed the connection.
    Close,
}

/// What a [`MarketInfo`] holds.
pub enum MarketInfoView {
    Executions(ExecutionView),
    LatencyExchange(LatencyView),
    Boards(BoardView),
    Close,
}

impl View for MarketInfo {
    type V = MarketInfoView;

    open spec fn view(&self) -> MarketInfoView {
        match self {
            MarketInfo::Executions(e) => MarketInfoView::Executions(e@),
            MarketInfo::LatencyExchange(l) => MarketInfoView::LatencyExchange(l@),
            MarketInfo::Boards(b) => MarketInfoView::Boards(b@),
            MarketInfo::Close => MarketInfoView::Close,
        }
    }
}

/// The views of a run of events, in order.
pub open spec fn event_views(events: Seq<MarketInfo>) -> Seq<MarketInfoView> {
    events.map_values(|e: MarketInfo| e@)
}

/// The record of a trade: id, instant, side letter, price and size, parted by
/// spaces and ended by a line feed.
pub open spec fn execution_record(e: ExecutionView) -> Seq<char> {
    integer_text(e.id as int) + " "@ + integer_text(e.time as int) + " "@ + side_letter(e.side)
        + " "@ + amount_text(e.price.units as nat) + " "@ + amount_text(e.size.units as nat)
        + "\n"@
}

/// The record of a delay: the instant of receipt and the delay, parted by a
/// space and ended by a line feed.
pub open spec fn latency_record(l: LatencyView) -> Seq<char> {
    integer_text(l.receive_time as int) + " "@ + integer_text(l.sender_time as int) + "\n"@
}

/// The record of a board event: the instant of receipt and a line feed.
pub open spec fn board_record(b: BoardView) -> Seq<char> {
    integer_text(b.receive_time as int) + "\n"@
}

/// What the events have in common: a record, an instant and a channel.
pub trait Common {
    /// The record, as characters.
    spec fn record(&self) -> Seq<char>;

    /// The instant of the event.
    spec fn instant(&self) -> i64;

    /// The name of the channel.
    spec fn channel_name(&self) -> Seq<char>;

    /// The record to append to the event's file.
    fn get_csv(&self) -> (r: String)
        ensures
            r@ == self.record(),
    ;

    /// The instant of the event.
    fn data_time(&self) -> (r: i64)
        ensures
            r == self.instant(),
    ;

    /// The name of the channel.
    fn channel(&self) -> (r: String)
        ensures
            r@ == self.channel_name(),
    ;

    /// The calendar day of the event, as eight digits; `None` for an instant
    /// beyond the calendar.
    fn get_date(&self) -> (r: Option<String>)
        ensures
            match r {
                Some(s) => utc_text(self.instant(), day_pattern()) == Some(s@),
                None => utc_text(self.instant(), day_pattern()) is None,
            },
    {
        day_of(self.data_time())
    }

    /// The calendar second of the event, as fourteen digits; `None` for an
    /// instant beyond the calendar.
    fn get_date_second(&self) -> (r: Option<String>)
        ensures
            match r {
                Some(s) => utc_text(self.instant(), second_pattern()) == Some(s@),
                None => utc_text(self.instant(), second_pattern()) is None,
            },
    {
        second_of(self.data_time())
    }

    /// The name of the channel.
    fn get_channel(&self) -> (r: String)
        ensures
            r@ == self.channel_name(),
    {
        self.channel()
    }
}

impl Common for Execution {
    open spec fn record(&self) -> Seq<char> {
        execution_record(self@)
    }

    open spec fn instant(&self) -> i64 {
        self.exec_unix_time
    }

    open spec fn channel_name(&self) -> Seq<char> {
        self.channel@
    }

    fn get_csv(&self) -> (r: String) {
        let mut out = integer_to_text(self.id as i128);
        out.append(" ");
        out.append(integer_to_text(self.exec_unix_time as i128).as_str());
        out.append(" ");
        out.append(self.side.to_string().as_str());
        out.append(" ");
        out.append(self.price.to_text().as_str());
        out.append(" ");
        out.append(self.size.to_text().as_str());
        out.append("\n");
        out
    }

    fn data_time(&self) -> (r: i64) {
        self.exec_unix_time
    }

    fn channel(&self) -> (r: String) {
        self.channel.clone()
    }
}

impl Execution {
    /// The instant lies in the range the library works with.
    pub open spec fn wf(&self) -> bool {
        valid_time(self.exec_unix_time as int)
    }

    pub fn get_side(&self) -> (r: Side)
        ensures
            r == self.side,
    {
        self.side
    }

    pub fn get_price(&self) -> (r: Amount)
        ensures
            r == self.price,
    {
        self.price
    }

    pub fn get_size(&self) -> (r: Amount)
        ensures
            r == self.size,
    {
        self.size
    }
}

impl Common for Latency {
    open spec fn record(&self) -> Seq<char> {
        latency_record(self@)
    }

    open spec fn instant(&self) -> i64 {
        self.receive_time
    }

    open spec fn channel_name(&self) -> Seq<char> {
        self.channel@
    }

    fn get_csv(&self) -> (r: String) {
        let mut out = integer_to_text(self.receive_time as i128);
        out.append(" ");
        out.append(integer_to_text(self.sender_time as i128).as_str());
        out.append("\n");
        out
    }

    fn data_time(&self) -> (r: i64) {
        self.receive_time
    }

    fn channel(&self) -> (r: String) {
        self.channel.clone()
    }
}

impl Common for Board {
    open spec fn record(&self) -> Seq<char> {
        board_record(self@)
    }

    open spec fn instant(&self) -> i64 {
        self.receive_time
    }

    open spec fn channel_name(&self) -> Seq<char> {
        self.channel@
    }

    fn get_csv(&self) -> (r: String) {
        let mut out = integer_to_text(self.receive_time as i128);
        out.append("\n");
        out
    }

    fn data_time(&self) -> (r: i64) {
        self.receive_time
    }

    fn channel(&self) -> (r: String) {
        self.channel.clone()
    }
}

impl Board {
    /// The instant of receipt lies in the range the library works with.
    pub open spec fn wf(&self) -> bool {
        valid_time(self.receive_time as int)
    }
}

/// The frame that asks the exchange to start or stop a channel: a JSON-RPC
/// notification of the given method with the channel's name as its parameter.
pub open spec fn control_frame(method: Seq<char>, channel: Seq<char>) -> Seq<char> {
    "{\"jsonrpc\":\"2.0\",\"method\":\""@ + method + "\",\"params\":{\"channel\":\""@ + channel
        + "\"}}"@
}

/// The frame that subscribes to a channel.
pub open spec fn subscribe_frame(channel: Seq<char>) -> Seq<char> {
    control_frame("subscribe"@, channel)
}

/// The frame that unsubscribes from a channel.
pub open spec fn unsubscribe_frame(channel: Seq<char>) -> Seq<char> {
    control_frame("unsubscribe"@, channel)
}

/// The channels of the catalog, in the order in which they are subscribed.
pub open spec fn public_channels() -> Seq<Seq<char>> {
    seq![
        "lightning_executions_FX_BTC_JPY"@,
        "lightning_executions_BTC_JPY"@,
        "lightning_board_snapshot_FX_BTC_JPY"@,
        "lightning_board_FX_BTC_JPY"@,
        "lightning_board_snapshot_BTC_JPY"@,
        "lightning_board_BTC_JPY"@,
    ]
}

/// The channels that carry trades.
pub open spec fn public_execute_channels() -> Seq<Seq<char>> {
    seq!["lightning_executions_FX_BTC_JPY"@, "lightning_executions_BTC_JPY"@]
}

/// The channels that carry order-book differences.
pub open spec fn public_board_channels() -> Seq<Seq<char>> {
    seq!["lightning_board_FX_BTC_JPY"@, "lightning_board_BTC_JPY"@]
}

/// The channels that carry whole order books.
pub open spec fn public_snapshot_channels() -> Seq<Seq<char>> {
    seq!["lightning_board_snapshot_FX_BTC_JPY"@, "lightning_board_snapshot_BTC_JPY"@]
}

/// The characters of each of a run of strings.
pub open spec fn texts(strings: Seq<String>) -> Seq<Seq<char>> {
    strings.map_values(|s: String| s@)
}

/// The frames that subscribe to each of `channels`, in order.
pub open spec fn subscribe_frames(channels: Seq<Seq<char>>) -> Seq<Seq<char>> {
    channels.map_values(|c: Seq<char>| subscribe_frame(c))
}

/// The frames that unsubscribe from each of `channels`, in order.
pub open spec fn unsubscribe_frames(channels: Seq<Seq<char>>) -> Seq<Seq<char>> {
    channels.map_values(|c: Seq<char>| unsubscribe_frame(c))
}

/// Why no event could be taken.
#[derive(Clone, Copy, Debug, PartialEq, Eq, Structural)]
pub enum TryRecvError {
    /// No event waits, and the reader is still at work.
    Empty,
    /// No event waits, and the reader has ended.
    Disconnected,
}

/// What the transport handed to the reader.
#[derive(Debug)]
pub enum Incoming {
    /// A text frame.
    Text(String),
    /// A keep-alive ping with its payload.
    Ping(Vec<u8>),
    /// The close frame.
    Close,
    /// A frame of any other kind.
    Other,
    /// The read failed.
    Failed,
}

/// What an [`Incoming`] holds.
pub enum IncomingView {
    Text(Seq<char>),
    Ping(Seq<u8>),
    Close,
    Other,
    Failed,
}

impl View for Incoming {
    type V = IncomingView;

    open spec fn view(&self) -> IncomingView {
        match self {
            Incoming::Text(t) => IncomingView::Text(t@),
            Incoming::Ping(d) => IncomingView::Ping(d@),
            Incoming::Close => IncomingView::Close,
            Incoming::Other => IncomingView::Other,
            Incoming::Failed => IncomingView::Failed,
        }
    }
}

/// What the reader hands to the transport.
#[derive(Debug)]
pub enum Outgoing {
    /// A text frame.
    Text(String),
    /// A keep-alive pong with its payload.
    Pong(Vec<u8>),
}

/// What an [`Outgoing`] holds.
pub enum OutgoingView {
    Text(Seq<char>),
    Pong(Seq<u8>),
}

impl View for Outgoing {
    type V = OutgoingView;

    open spec fn view(&self) -> OutgoingView {
        match self {
            Outgoing::Text(t) => OutgoingView::Text(t@),
            Outgoing::Pong(d) => OutgoingView::Pong(d@),
        }
    }
}

/// The views of a run of outgoing frames, in order.
pub open spec fn outgoing_views(frames: Seq<Outgoing>) -> Seq<OutgoingView> {
    frames.map_values(|f: Outgoing| f@)
}

/// What the reader does before it reads the next frame.
#[derive(Debug)]
pub struct ReadPlan {
    /// Control frames to send first, in order.
    pub frames: Vec<String>,
    /// Whether to read on; when not, the reader ends.
    pub proceed: bool,
}

/// What the reader does with a frame it has read.
#[derive(Debug)]
pub struct Reply {
    /// Frames to send, in order.
    pub outgoing: Vec<Outgoing>,
    /// The fault for which a text frame was dropped.
    pub fault: Option<DecodeError>,
}

/// The state of a session.
pub struct SessionView {
    pub exchange_name: Seq<char>,
    /// The events handed over and not yet taken, oldest first.
    pub pending: Seq<MarketInfoView>,
    /// The stop flag.
    pub finish: bool,
    /// The reader has ended.
    pub ended: bool,
    /// The instant at which the snapshot channels were last subscribed.
    pub last_refresh: i64,
}

/// The frames with which the reader answers a frame it has read.
pub open spec fn replies_to(incoming: IncomingView, receive_time: i64) -> Seq<OutgoingView> {
    match incoming {
        IncomingView::Text(text) => match decoded_text(text, receive_time) {
            Ok(frame) => if frame.kind == ChannelKind::Snapshot {
                seq![OutgoingView::Text(unsubscribe_frame(frame.channel))]
            } else {
                Seq::<OutgoingView>::empty()
            },
            Err(_) => Seq::<OutgoingView>::empty(),
        },
        IncomingView::Ping(data) => seq![OutgoingView::Pong(data)],
        _ => Seq::<OutgoingView>::empty(),
    }
}

/// The fault for which a frame is dropped, if it is.
pub open spec fn fault_of(incoming: IncomingView, receive_time: i64) -> Option<DecodeError> {
    match incoming {
        IncomingView::Text(text) => match decoded_text(text, receive_time) {
            Ok(_) => None,
            Err(e) => Some(e),
        },
        _ => None,
    }
}

/// The events that a frame adds to those that wait, in order.
pub open spec fn events_of(incoming: IncomingView, receive_time: i64) -> Seq<MarketInfoView> {
    match incoming {
        IncomingView::Text(text) => match decoded_text(text, receive_time) {
            Ok(frame) => frame.events,
            Err(_) => Seq::<MarketInfoView>::empty(),
        },
        IncomingView::Close => seq![MarketInfoView::Close],
        _ => Seq::<MarketInfoView>::empty(),
    }
}

/// Whether a frame raises the stop flag: the close frame and a failed read do.
pub open spec fn stops(incoming: IncomingView) -> bool {
    incoming is Close || incoming is Failed
}

/// One session with the exchange: the events that wait for the consumer, the
/// stop flag, and the instant of the last snapshot refresh.
pub struct BfWebsocket {
    exchange_name: String,
    queue: VecDeque<MarketInfo>,
    finish: bool,
    ended: bool,
    last_connected: i64,
}

impl View for BfWebsocket {
    type V = SessionView;

    closed spec fn view(&self) -> SessionView {
        SessionView {
            exchange_name: self.exchange_name@,
            pending: event_views(self.queue@),
            finish: self.finish,
            ended: self.ended,
            last_refresh: self.last_connected,
        }
    }
}

/// The frame that `method`s a channel, as a string.
fn control_text(method: &str, channel: &str) -> (r: String)
    ensures
        r@ == control_frame(method@, channel@),
{
    let mut frame = String::from_str("{\"jsonrpc\":\"2.0\",\"method\":\"");
    frame.append(method);
    frame.append("\",\"params\":{\"channel\":\"");
    frame.append(channel);
    frame.append("\"}}");
    frame
}

/// The frames that `method` each of `channels`, as strings.
fn control_frames(method: &str, channels: &[String]) -> (r: Vec<String>)
    ensures
        texts(r@) == texts(channels@).map_values(|c: Seq<char>| control_frame(method@, c)),
{
    let n: usize = channels.len();
    let mut out: Vec<String> = Vec::new();
    let mut i: usize = 0;
    while i < n
        invariant
            i <= n,
            n == channels.len(),
            out.len() == i,
            forall|k: int|
                0 <= k < i ==> (#[trigger] out@[k])@ == control_frame(method@, channels@[k]@),
        decreases n - i,
    {
        out.push(control_text(method, channels[i].as_str()));
        i = i + 1;
    }
    assert(texts(out@) =~= texts(channels@).map_values(|c: Seq<char>| control_frame(method@, c)));
    out
}

impl BfWebsocket {
    /// Every event that waits has its instants in range.
    pub open spec fn wf(&self) -> bool {
        forall|k: int| 0 <= k < self@.pending.len() ==> view_wf(#[trigger] self@.pending[k])
    }

    /// A session that has not connected yet: nothing waits, the stop flag is down.
    pub fn new() -> (r: Self)
        ensures
            r.wf(),
            r@.exchange_name == "bitFlyer"@,
            r@.pending.len() == 0,
            !r@.finish,
            !r@.ended,
    {
        let r = BfWebsocket {
            exchange_name: String::from_str("bitFlyer"),
            queue: VecDeque::new(),
            finish: false,
            ended: false,
            last_connected: 0,
        };
        assert(event_views(r.queue@) =~= Seq::<MarketInfoView>::empty());
        r
    }

    /// The name of the exchange.
    pub fn get_exchange_name(&self) -> (r: String)
        ensures
            r@ == self@.exchange_name,
    {
        self.exchange_name.clone()
    }

    /// The address of the streaming service.
    pub fn get_end_point(&self) -> (r: String)
        ensures
            r@ == "wss://ws.lightstream.bitflyer.com/json-rpc"@,
    {
        String::from_str("wss://ws.lightstream.bitflyer.com/json-rpc")
    }

    /// The channels of the catalog, in the order in which they are subscribed.
    pub fn get_public_channels(&self) -> (r: [String; 6])
        ensures
            texts(r@) == public_channels(),
    {
        let r = [
            String::from_str("lightning_executions_FX_BTC_JPY"),
            String::from_str("lightning_executions_BTC_JPY"),
            String::from_str("lightning_board_snapshot_FX_BTC_JPY"),
            String::from_str("lightning_board_FX_BTC_JPY"),
            String::from_str("lightning_board_snapshot_BTC_JPY"),
            String::from_str("lightning_board_BTC_JPY"),
        ];
        assert(texts(r@) =~= public_channels());
        r
    }

    /// The channels that carry trades.
    pub fn get_public_execute_channels(&self) -> (r: [String; 2])
        ensures
            texts(r@) == public_execute_channels(),
    {
        let r = [
            String::from_str("lightning_executions_FX_BTC_JPY"),
            String::from_str("lightning_executions_BTC_JPY"),
        ];
        assert(texts(r@) =~= public_execute_channels());
        r
    }

    /// The channels that carry order-book differences.
    pub fn get_public_board_channels(&self) -> (r: [String; 2])
        ensures
            texts(r@) == public_board_channels(),
    {
        let r = [
            String::from_str("lightning_board_FX_BTC_JPY"),
            String::from_str("lightning_board_BTC_JPY"),
        ];
        assert(texts(r@) =~= public_board_channels());
        r
    }

    /// The channels that carry whole order books.
    pub fn get_public_snapshot_channels(&self) -> (r: [String; 2])
        ensures
            texts(r@) == public_snapshot_channels(),
    {
        let r = [
            String::from_str("lightning_board_snapshot_FX_BTC_JPY"),
            String::from_str("lightning_board_snapshot_BTC_JPY"),
        ];
        assert(texts(r@) =~= public_snapshot_channels());
        r
    }

    /// The session has connected at the instant `now`. The result holds the
    /// frames that subscribe to every channel of the catalog, in order; the
    /// instant is kept as that of the last snapshot refresh.
    pub fn on_connect(&mut self, now: i64) -> (r: Vec<String>)
        ensures
            texts(r@) == subscribe_frames(public_channels()),
            final(self)@ == (SessionView { last_refresh: now, ..old(self)@ }),
    {
        self.last_connected = now;
        let channels = self.get_public_channels();
        let r = control_frames("subscribe", array_as_slice(&channels));
        assert(texts(r@) =~= subscribe_frames(public_channels()));
        r
    }

    /// What the reader does at the instant `now`, before it reads.
    ///
    /// With the stop flag up it unsubscribes from every channel and ends.
    /// Otherwise, when `now` lies in another hour than the last snapshot
    /// refresh, it subscribes to the snapshot channels again and keeps `now`
    /// as the instant of the refresh; and it reads on.
    pub fn before_read(&mut self, now: i64) -> (r: ReadPlan)
        ensures
            old(self)@.finish ==> {
                &&& !r.proceed
                &&& texts(r.frames@) == unsubscribe_frames(public_channels())
                &&& final(self)@ == (SessionView { ended: true, ..old(self)@ })
            },
            !old(self)@.finish && hour_index(now as int) != hour_index(
                old(self)@.last_refresh as int,
            ) ==> {
                &&& r.proceed
                &&& texts(r.frames@) == subscribe_frames(public_snapshot_channels())
                &&& final(self)@ == (SessionView { last_refresh: now, ..old(self)@ })
            },
            !old(self)@.finish && hour_index(now as int) == hour_index(
                old(self)@.last_refresh as int,
            ) ==> {
                &&& r.proceed
                &&& r.frames@.len() == 0
                &&& final(self)@ == old(self)@
            },
    {
        if self.finish {
            self.ended = true;
            let channels = self.get_public_channels();
            let frames = control_frames("unsubscribe", array_as_slice(&channels));
            assert(texts(frames@) =~= unsubscribe_frames(public_channels()));
            ReadPlan { frames, proceed: false }
        } else if hour_of(now) != hour_of(self.last_connected) {
            self.last_connected = now;
            let channels = self.get_public_snapshot_channels();
            let frames = control_frames("subscribe", array_as_slice(&channels));
            assert(texts(frames@) =~= subscribe_frames(public_snapshot_channels()));
            ReadPlan { frames, proceed: true }
        } else {
            ReadPlan { frames: Vec::new(), proceed: true }
        }
    }

    /// What the reader does with a frame that it received at `receive_time`.
    ///
    /// A text frame is decoded and its events wait, in their order, behind
    /// those that wait already; a frame of a snapshot channel is answered with
    /// the frame that unsubscribes from that channel. A text frame that does
    /// not decode is dropped, and the fault is reported. A ping is answered
    /// with a pong of the same payload. The close frame raises the stop flag
    /// and adds the close event. A failed read raises the stop flag.
    pub fn on_frame(&mut self, incoming: Incoming, receive_time: i64) -> (r: Reply)
        requires
            old(self).wf(),
        ensures
            final(self).wf(),
            outgoing_views(r.outgoing@) == replies_to(incoming@, receive_time),
            r.fault == fault_of(incoming@, receive_time),
            final(self)@ == (SessionView {
                pending: old(self)@.pending + events_of(incoming@, receive_time),
                finish: old(self)@.finish || stops(incoming@),
                ..old(self)@
            }),
    {
        let mut outgoing: Vec<Outgoing> = Vec::new();
        assert(outgoing_views(outgoing@) =~= Seq::<OutgoingView>::empty());
        assert(old(self)@.pending + Seq::<MarketInfoView>::empty() =~= old(self)@.pending);
        match incoming {
            Incoming::Text(text) => {
                match decode_frame(text.as_str(), receive_time) {
                    Ok(frame) => {
                        if frame.kind == ChannelKind::Snapshot {
                            let f = control_text("unsubscribe", frame.channel.as_str());
                            outgoing.push(Outgoing::Text(f));
                            assert(outgoing_views(outgoing@) =~= seq![
                                OutgoingView::Text(unsubscribe_frame(frame.channel@)),
                            ]);
                        }
                        self.hand_over(frame.events);
                        Reply { outgoing, fault: None }
                    },
                    Err(e) => Reply { outgoing, fault: Some(e) },
                }
            },
            Incoming::Ping(data) => {
                outgoing.push(Outgoing::Pong(data));
                assert(outgoing_views(outgoing@) =~= seq![OutgoingView::Pong(data@)]);
                Reply { outgoing, fault: None }
            },
            Incoming::Close => {
                self.finish = true;
                let mut events: Vec<MarketInfo> = Vec::new();
                events.push(MarketInfo::Close);
                assert(event_views(events@) =~= seq![MarketInfoView::Close]);
                self.hand_over(events);
                Reply { outgoing, fault: None }
            },
            Incoming::Failed => {
                self.finish = true;
                Reply { outgoing, fault: None }
            },
            Incoming::Other => Reply { outgoing, fault: None },
        }
    }

    /// Puts events behind those that wait, in their order.
    fn hand_over(&mut self, events: Vec<MarketInfo>)
        requires
            old(self).wf(),
            forall|k: int| 0 <= k < events.len() ==> event_wf(#[trigger] events@[k]),
        ensures
            final(self).wf(),
            final(self)@ == (SessionView {
                pending: old(self)@.pending + event_views(events@),
                ..old(self)@
            }),
    {
        let mut events = events;
        let ghost all = events@;
        let mut reversed: Vec<MarketInfo> = Vec::new();
        while events.len() > 0
            invariant
                events.len() + reversed.len() == all.len(),
                events@ == all.subrange(0, events.len() as int),
                forall|k: int|
                    0 <= k < reversed.len() ==> (#[trigger] reversed@[k]) == all[all.len() - 1
                        - k],
            decreases events.len(),
        {
            match events.pop() {
                Some(e) => {
                    reversed.push(e);
                },
                None => {},
            }
        }
        let ghost before = self.queue@;
        while reversed.len() > 0
            invariant
                reversed.len() <= all.len(),
                forall|k: int|
                    0 <= k < reversed.len() ==> (#[trigger] reversed@[k]) == all[all.len() - 1
                        - k],
                self.queue@ == before + all.subrange(0, all.len() - reversed.len()),
                self.exchange_name == old(self).exchange_name,
                self.finish == old(self).finish,
                self.ended == old(self).ended,
                self.last_connected == old(self).last_connected,
            decreases reversed.len(),
        {
            match reversed.pop() {
                Some(e) => {
                    self.queue.push_back(e);
                },
                None => {},
            }
        }
        proof {
            assert(all.subrange(0, all.len() as int) == all);
            assert(event_views(before + all) =~= event_views(before) + event_views(all));
            assert forall|k: int| 0 <= k < self@.pending.len() implies view_wf(
                #[trigger] self@.pending[k],
            ) by {
                if k < before.len() {
                    assert(self@.pending[k] == old(self)@.pending[k]);
                } else {
                    assert(self@.pending[k] == all[k - before.len()]@);
                    assert(event_wf(all[k - before.len()]));
                }
            }
        }
    }

    /// Takes the event that has waited longest.
    ///
    /// With nothing waiting the result is `Empty` while the reader is at
    /// work, and `Disconnected` once it has ended.
    pub fn on_message(&mut self) -> (r: Result<MarketInfo, TryRecvError>)
        requires
            old(self).wf(),
        ensures
            final(self).wf(),
            match r {
                Ok(event) => {
                    &&& old(self)@.pending.len() > 0
                    &&& event@ == old(self)@.pending[0]
                    &&& event_wf(event)
                    &&& final(self)@ == (SessionView {
                        pending: old(self)@.pending.drop_first(),
                        ..old(self)@
                    })
                },
                Err(e) => {
                    &&& old(self)@.pending.len() == 0
                    &&& final(self)@ == old(self)@
                    &&& e == if old(self)@.ended {
                        TryRecvError::Disconnected
                    } else {
                        TryRecvError::Empty
                    }
                },
            },
    {
        let ghost before = self.queue@;
        match self.queue.pop_front() {
            Some(event) => {
                proof {
                    assert(event_views(before)[0] == before[0]@);
                    assert(event_views(self.queue@) =~= event_views(before).drop_first());
                    assert forall|k: int| 0 <= k < self@.pending.len() implies view_wf(
                        #[trigger] self@.pending[k],
                    ) by {
                        assert(self@.pending[k] == old(self)@.pending[k + 1]);
                    }
                }
                Ok(event)
            },
            None => {
                if self.ended {
                    Err(TryRecvError::Disconnected)
                } else {
                    Err(TryRecvError::Empty)
                }
            },
        }
    }

    /// Raises the stop flag: the reader unsubscribes and ends when it next
    /// looks at the flag.
    pub fn close_thread(&mut self)
        ensures
            final(self)@ == (SessionView { finish: true, ..old(self)@ }),
    {
        self.finish = true;
    }
}

} // verus!
