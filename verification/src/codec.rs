//! Decoding of channel frames into events.
//!
//! A frame is a JSON-RPC notification that carries a channel name and a
//! message. The channel's kind decides the shape of the message: a batch of
//! trades, or the asks and bids of a market.
use vstd::prelude::*;
use crate::amount::{amount_of, Amount};
use crate::calendar::{read_utc_millis, utc_millis};
use crate::json::Json;
use crate::stream_api::{
    side_of, Board, BoardView, Execution, ExecutionView, Latency, LatencyView, MarketInfo,
    MarketInfoView, PriceLevel, Side,
};
use crate::text::{read_integer, remove_all, same_text, small_integer, without_all};
use crate::time::{is_valid_time, valid_time};

verus! {

/// The kind of a channel.
#[derive(Clone, Copy, Debug, PartialEq, Eq, Structural)]
pub enum ChannelKind {
    /// Batches of trades.
    Executions,
    /// Differences of an order book.
    Board,
    /// Whole order books.
    Snapshot,
    /// A channel outside the catalog.
    Other,
}

/// Why a frame gave no events.
#[derive(Clone, Copy, Debug, PartialEq, Eq, Structural)]
pub enum DecodeError {
    /// The text is no JSON document.
    Malformed,
    /// A field that the channel's kind requires is absent, or holds a value
    /// that cannot be used.
    MissingField,
    /// The instant of receipt lies outside the range the library works with.
    ClockOutOfRange,
}

/// The channel is one that carries trades.
pub open spec fn is_execute_channel(channel: Seq<char>) -> bool {
    channel == "lightning_executions_FX_BTC_JPY"@ || channel == "lightning_executions_BTC_JPY"@
}

/// The channel is one that carries order-book differences.
pub open spec fn is_board_channel(channel: Seq<char>) -> bool {
    channel == "lightning_board_FX_BTC_JPY"@ || channel == "lightning_board_BTC_JPY"@
}

/// The channel is one that carries whole order books.
pub open spec fn is_snapshot_channel(channel: Seq<char>) -> bool {
    channel == "lightning_board_snapshot_FX_BTC_JPY"@ || channel
        == "lightning_board_snapshot_BTC_JPY"@
}

/// The kind of a channel, by its name.
pub open spec fn kind_of(channel: Seq<char>) -> ChannelKind {
    if is_execute_channel(channel) {
        ChannelKind::Executions
    } else if is_board_channel(channel) {
        ChannelKind::Board
    } else if is_snapshot_channel(channel) {
        ChannelKind::Snapshot
    } else {
        ChannelKind::Other
    }
}

/// The name under which the events of a snapshot channel go out: the
/// channel's name without its snapshot qualifier, which is the name of the
/// difference channel of the same market.
pub open spec fn market_channel(channel: Seq<char>) -> Seq<char> {
    without_all(channel, "_snapshot"@)
}

/// The decimal text of the number in the member `key` of `j`.
pub open spec fn number_field(j: Json, key: Seq<char>) -> Option<Seq<char>> {
    match j.field(key) {
        Some(x) => x.number(),
        None => None,
    }
}

/// The characters of the string in the member `key` of `j`.
pub open spec fn text_field(j: Json, key: Seq<char>) -> Option<Seq<char>> {
    match j.field(key) {
        Some(x) => x.text(),
        None => None,
    }
}

/// The elements of the array in the member `key` of `j`.
pub open spec fn items_field(j: Json, key: Seq<char>) -> Option<Seq<Json>> {
    match j.field(key) {
        Some(x) => x.items(),
        None => None,
    }
}

/// The level that a `{price, size}` record holds.
pub open spec fn level_of(j: Json) -> Option<PriceLevel> {
    match (number_field(j, "price"@), number_field(j, "size"@)) {
        (Some(p), Some(s)) => match (amount_of(p), amount_of(s)) {
            (Some(price), Some(size)) => Some(PriceLevel { price, size }),
            _ => None,
        },
        _ => None,
    }
}

/// The levels that an array of records holds, in order; `None` when one of
/// the records holds no level.
pub open spec fn levels_of(items: Seq<Json>) -> Option<Seq<PriceLevel>> {
    if forall|i: int| 0 <= i < items.len() ==> (#[trigger] level_of(items[i])) is Some {
        Some(Seq::new(items.len(), |i: int| level_of(items[i]).unwrap()))
    } else {
        None
    }
}

/// The trade that a record holds: its `id`, `exec_date`, `side`, `price` and
/// `size`. A side text that names no side gives `NoSide`.
pub open spec fn execution_of(j: Json, channel: Seq<char>) -> Option<ExecutionView> {
    match (
        number_field(j, "id"@),
        text_field(j, "exec_date"@),
        text_field(j, "side"@),
        number_field(j, "price"@),
        number_field(j, "size"@),
    ) {
        (Some(id), Some(date), Some(side), Some(p), Some(s)) => match (
            small_integer(id),
            utc_millis(date),
            amount_of(p),
            amount_of(s),
        ) {
            (Some(id), Some(time), Some(price), Some(size)) => if valid_time(time as int) {
                Some(ExecutionView { id, time, side: side_of(side), price, size, channel })
            } else {
                None
            },
            _ => None,
        },
        _ => None,
    }
}

/// The trades that an array of records holds, in order; `None` when one of
/// the records holds no trade.
pub open spec fn executions_of(items: Seq<Json>, channel: Seq<char>) -> Option<
    Seq<ExecutionView>,
> {
    if forall|i: int|
        0 <= i < items.len() ==> (#[trigger] execution_of(items[i], channel)) is Some {
        Some(Seq::new(items.len(), |i: int| execution_of(items[i], channel).unwrap()))
    } else {
        None
    }
}

/// `sorted` with `e` put behind the last trade that is not later than `e`.
pub open spec fn insert_by_time(sorted: Seq<ExecutionView>, e: ExecutionView) -> Seq<
    ExecutionView,
>
    decreases sorted.len(),
{
    if sorted.len() == 0 {
        seq![e]
    } else if sorted.last().time <= e.time {
        sorted.push(e)
    } else {
        insert_by_time(sorted.drop_last(), e).push(sorted.last())
    }
}

/// The trades of a batch in the order of their instants, trades of one
/// instant in the order of the batch.
pub open spec fn sorted_by_time(batch: Seq<ExecutionView>) -> Seq<ExecutionView>
    decreases batch.len(),
{
    if batch.len() == 0 {
        Seq::<ExecutionView>::empty()
    } else {
        insert_by_time(sorted_by_time(batch.drop_last()), batch.last())
    }
}

/// The earliest instant of a batch that is not empty.
pub open spec fn oldest_time(batch: Seq<ExecutionView>) -> i64
    decreases batch.len(),
{
    if batch.len() <= 1 {
        if batch.len() == 1 {
            batch[0].time
        } else {
            0
        }
    } else if batch.last().time < oldest_time(batch.drop_last()) {
        batch.last().time
    } else {
        oldest_time(batch.drop_last())
    }
}

/// The events of a batch of trades received at `receive_time`: the trades in
/// the order of their instants, then one delay measured from the oldest. An
/// empty batch gives no event.
pub open spec fn execution_events(
    batch: Seq<ExecutionView>,
    receive_time: i64,
    channel: Seq<char>,
) -> Seq<MarketInfoView> {
    if batch.len() == 0 {
        Seq::<MarketInfoView>::empty()
    } else {
        sorted_by_time(batch).map_values(|e: ExecutionView| MarketInfoView::Executions(e)).push(
            MarketInfoView::LatencyExchange(
                LatencyView {
                    sender_time: (receive_time - oldest_time(batch)) as i64,
                    receive_time,
                    channel,
                },
            ),
        )
    }
}

/// The board that a message of asks and bids holds.
pub open spec fn board_of(
    message: Json,
    receive_time: i64,
    channel: Seq<char>,
    is_update: bool,
) -> Option<BoardView> {
    match (items_field(message, "asks"@), items_field(message, "bids"@)) {
        (Some(a), Some(b)) => match (levels_of(a), levels_of(b)) {
            (Some(asks), Some(bids)) => Some(
                BoardView { receive_time, asks, bids, channel, is_update },
            ),
            _ => None,
        },
        _ => None,
    }
}

/// What a frame decodes to.
#[derive(Debug)]
pub struct Frame {
    /// The channel the frame came on.
    pub channel: String,
    pub kind: ChannelKind,
    /// The events of the frame, in the order in which they go out.
    pub events: Vec<MarketInfo>,
}

/// What a [`Frame`] holds.
pub struct FrameView {
    pub channel: Seq<char>,
    pub kind: ChannelKind,
    pub events: Seq<MarketInfoView>,
}

impl View for Frame {
    type V = FrameView;

    open spec fn view(&self) -> FrameView {
        FrameView {
            channel: self.channel@,
            kind: self.kind,
            events: crate::stream_api::event_views(self.events@),
        }
    }
}

/// The channel name of a frame: the string `params.channel`.
pub open spec fn frame_channel(doc: Json) -> Option<Seq<char>> {
    match doc.field("params"@) {
        Some(params) => text_field(params, "channel"@),
        None => None,
    }
}

/// The message of a frame: the member `params.message`.
pub open spec fn frame_message(doc: Json) -> Option<Json> {
    match doc.field("params"@) {
        Some(params) => params.field("message"@),
        None => None,
    }
}

/// What a document received at `receive_time` decodes to.
///
/// A frame on a channel outside the catalog gives no event. A frame on a
/// trade channel gives the events of its batch. A frame on a difference
/// channel gives one board event. A frame on a snapshot channel gives one
/// board event under the market's name. A frame whose channel name or whose
/// message lacks what its kind requires is a fault.
pub open spec fn decoded(doc: Json, receive_time: i64) -> Result<FrameView, DecodeError> {
    if !valid_time(receive_time as int) {
        Err(DecodeError::ClockOutOfRange)
    } else {
        match frame_channel(doc) {
            None => Err(DecodeError::MissingField),
            Some(channel) => match kind_of(channel) {
                ChannelKind::Other => Ok(
                    FrameView {
                        channel,
                        kind: ChannelKind::Other,
                        events: Seq::<MarketInfoView>::empty(),
                    },
                ),
                ChannelKind::Executions => match frame_message(doc) {
                    Some(Json::Array(items)) => match executions_of(items@, channel) {
                        Some(batch) => Ok(
                            FrameView {
                                channel,
                                kind: ChannelKind::Executions,
                                events: execution_events(batch, receive_time, channel),
                            },
                        ),
                        None => Err(DecodeError::MissingField),
                    },
                    _ => Err(DecodeError::MissingField),
                },
                ChannelKind::Board => match frame_message(doc) {
                    Some(message) => match board_of(message, receive_time, channel, true) {
                        Some(board) => Ok(
                            FrameView {
                                channel,
                                kind: ChannelKind::Board,
                                events: seq![MarketInfoView::Boards(board)],
                            },
                        ),
                        None => Err(DecodeError::MissingField),
                    },
                    None => Err(DecodeError::MissingField),
                },
                ChannelKind::Snapshot => match frame_message(doc) {
                    Some(message) => match board_of(
                        message,
                        receive_time,
                        market_channel(channel),
                        false,
                    ) {
                        Some(board) => Ok(
                            FrameView {
                                channel,
                                kind: ChannelKind::Snapshot,
                                events: seq![MarketInfoView::Boards(board)],
                            },
                        ),
                        None => Err(DecodeError::MissingField),
                    },
                    None => Err(DecodeError::MissingField),
                },
            },
        }
    }
}

/// What a frame text received at `receive_time` decodes to.
pub open spec fn decoded_text(text: Seq<char>, receive_time: i64) -> Result<
    FrameView,
    DecodeError,
> {
    match crate::json::parsed_document(text) {
        Some(doc) => decoded(doc, receive_time),
        None => Err(DecodeError::Malformed),
    }
}

/// The kind of a channel, by its name.
pub fn classify(channel: &str) -> (r: ChannelKind)
    ensures
        r == kind_of(channel@),
{
    if same_text(channel, "lightning_executions_FX_BTC_JPY") || same_text(
        channel,
        "lightning_executions_BTC_JPY",
    ) {
        ChannelKind::Executions
    } else if same_text(channel, "lightning_board_FX_BTC_JPY") || same_text(
        channel,
        "lightning_board_BTC_JPY",
    ) {
        ChannelKind::Board
    } else if same_text(channel, "lightning_board_snapshot_FX_BTC_JPY") || same_text(
        channel,
        "lightning_board_snapshot_BTC_JPY",
    ) {
        ChannelKind::Snapshot
    } else {
        ChannelKind::Other
    }
}

/// The decimal text of the number in the member `key` of `j`.
fn number_in<'a>(j: &'a Json, key: &str) -> (r: Option<&'a String>)
    ensures
        match r {
            Some(s) => number_field(*j, key@) == Some(s@),
            None => number_field(*j, key@) is None,
        },
{
    match j.get(key) {
        Some(x) => x.as_number(),
        None => None,
    }
}

/// The string in the member `key` of `j`.
fn text_in<'a>(j: &'a Json, key: &str) -> (r: Option<&'a String>)
    ensures
        match r {
            Some(s) => text_field(*j, key@) == Some(s@),
            None => text_field(*j, key@) is None,
        },
{
    match j.get(key) {
        Some(x) => x.as_text(),
        None => None,
    }
}

/// The array in the member `key` of `j`.
fn items_in<'a>(j: &'a Json, key: &str) -> (r: Option<&'a Vec<Json>>)
    ensures
        match r {
            Some(a) => items_field(*j, key@) == Some(a@),
            None => items_field(*j, key@) is None,
        },
{
    match j.get(key) {
        Some(x) => x.as_items(),
        None => None,
    }
}

/// Decodes one `{price, size}` record.
pub fn decode_level(j: &Json) -> (r: Option<PriceLevel>)
    ensures
        r == level_of(*j),
{
    let p = match number_in(j, "price") {
        Some(p) => p,
        None => {
            return None;
        },
    };
    let s = match number_in(j, "size") {
        Some(s) => s,
        None => {
            return None;
        },
    };
    let price = match Amount::parse(p.as_str()) {
        Some(a) => a,
        None => {
            return None;
        },
    };
    let size = match Amount::parse(s.as_str()) {
        Some(a) => a,
        None => {
            return None;
        },
    };
    Some(PriceLevel { price, size })
}

/// Decodes an array of `{price, size}` records.
pub fn decode_levels(items: &Vec<Json>) -> (r: Option<Vec<PriceLevel>>)
    ensures
        match r {
            Some(v) => levels_of(items@) == Some(v@),
            None => levels_of(items@) is None,
        },
{
    let n: usize = items.len();
    let mut out: Vec<PriceLevel> = Vec::new();
    let mut i: usize = 0;
    while i < n
        invariant
            i <= n,
            n == items.len(),
            out.len() == i,
            forall|k: int| 0 <= k < i ==> (#[trigger] level_of(items@[k])) == Some(out@[k]),
        decreases n - i,
    {
        match decode_level(&items[i]) {
            Some(level) => {
                out.push(level);
            },
            None => {
                assert(level_of(items@[i as int]) is None);
                return None;
            },
        }
        i = i + 1;
    }
    assert(out@ =~= Seq::new(items@.len(), |k: int| level_of(items@[k]).unwrap()));
    Some(out)
}

/// Decodes one trade record of the channel `channel`.
pub fn decode_execution(j: &Json, channel: &str) -> (r: Option<Execution>)
    ensures
        match r {
            Some(e) => execution_of(*j, channel@) == Some(e@),
            None => execution_of(*j, channel@) is None,
        },
{
    let id_text = match number_in(j, "id") {
        Some(x) => x,
        None => {
            return None;
        },
    };
    let date = match text_in(j, "exec_date") {
        Some(x) => x,
        None => {
            return None;
        },
    };
    let side_text = match text_in(j, "side") {
        Some(x) => x,
        None => {
            return None;
        },
    };
    let p = match number_in(j, "price") {
        Some(x) => x,
        None => {
            return None;
        },
    };
    let s = match number_in(j, "size") {
        Some(x) => x,
        None => {
            return None;
        },
    };
    let id = match read_integer(id_text.as_str()) {
        Some(x) => x,
        None => {
            return None;
        },
    };
    let time = match read_utc_millis(date.as_str()) {
        Some(x) => x,
        None => {
            return None;
        },
    };
    let price = match Amount::parse(p.as_str()) {
        Some(x) => x,
        None => {
            return None;
        },
    };
    let size = match Amount::parse(s.as_str()) {
        Some(x) => x,
        None => {
            return None;
        },
    };
    if !is_valid_time(time) {
        return None;
    }
    Some(
        Execution {
            id,
            exec_unix_time: time,
            side: Side::from_str(side_text.as_str()),
            price,
            size,
            channel: String::from_str(channel),
        },
    )
}

/// The views of a run of trades, in order.
pub open spec fn execution_views(batch: Seq<Execution>) -> Seq<ExecutionView> {
    batch.map_values(|e: Execution| e@)
}

/// Decodes an array of trade records of the channel `channel`.
pub fn decode_executions(items: &Vec<Json>, channel: &str) -> (r: Option<Vec<Execution>>)
    ensures
        match r {
            Some(v) => executions_of(items@, channel@) == Some(execution_views(v@)),
            None => executions_of(items@, channel@) is None,
        },
{
    let n: usize = items.len();
    let mut out: Vec<Execution> = Vec::new();
    let mut i: usize = 0;
    while i < n
        invariant
            i <= n,
            n == items.len(),
            out.len() == i,
            forall|k: int|
                0 <= k < i ==> (#[trigger] execution_of(items@[k], channel@)) == Some(out@[k]@),
        decreases n - i,
    {
        match decode_execution(&items[i], channel) {
            Some(e) => {
                out.push(e);
            },
            None => {
                assert(execution_of(items@[i as int], channel@) is None);
                return None;
            },
        }
        i = i + 1;
    }
    assert(execution_views(out@) =~= Seq::new(
        items@.len(),
        |k: int| execution_of(items@[k], channel@).unwrap(),
    ));
    Some(out)
}

/// Every instant of a batch lies in the range the library works with.
pub open spec fn batch_wf(batch: Seq<ExecutionView>) -> bool {
    forall|k: int| 0 <= k < batch.len() ==> valid_time((#[trigger] batch[k]).time as int)
}

/// Putting a trade in keeps every instant in range.
proof fn lemma_insert_wf(s: Seq<ExecutionView>, e: ExecutionView)
    requires
        batch_wf(s),
        valid_time(e.time as int),
    ensures
        batch_wf(insert_by_time(s, e)),
    decreases s.len(),
{
    if s.len() == 0 {
    } else if s.last().time <= e.time {
    } else {
        let front = s.drop_last();
        assert forall|k: int| 0 <= k < front.len() implies valid_time(
            (#[trigger] front[k]).time as int,
        ) by {
            assert(front[k] == s[k]);
        }
        lemma_insert_wf(front, e);
        let t = insert_by_time(front, e).push(s.last());
        assert forall|k: int| 0 <= k < t.len() implies valid_time((#[trigger] t[k]).time as int) by {
            if k < t.len() - 1 {
                assert(t[k] == insert_by_time(front, e)[k]);
            } else {
                assert(t[k] == s[s.len() - 1]);
            }
        }
    }
}

/// Ordering a batch keeps every instant in range.
proof fn lemma_sorted_wf(batch: Seq<ExecutionView>)
    requires
        batch_wf(batch),
    ensures
        batch_wf(sorted_by_time(batch)),
        sorted_by_time(batch).len() == batch.len(),
    decreases batch.len(),
{
    if batch.len() > 0 {
        let front = batch.drop_last();
        assert forall|k: int| 0 <= k < front.len() implies valid_time(
            (#[trigger] front[k]).time as int,
        ) by {
            assert(front[k] == batch[k]);
        }
        lemma_sorted_wf(front);
        assert(valid_time(batch[batch.len() - 1].time as int));
        lemma_insert_wf(sorted_by_time(front), batch.last());
        lemma_insert_len(sorted_by_time(front), batch.last());
    }
}

/// Putting a trade in makes the run one longer.
proof fn lemma_insert_len(s: Seq<ExecutionView>, e: ExecutionView)
    ensures
        insert_by_time(s, e).len() == s.len() + 1,
    decreases s.len(),
{
    if s.len() > 0 && s.last().time > e.time {
        lemma_insert_len(s.drop_last(), e);
    }
}

/// The instants of the events of a batch lie in range when those of the
/// batch and the instant of receipt do.
proof fn lemma_batch_events_wf(batch: Seq<ExecutionView>, receive_time: i64, channel: Seq<char>)
    requires
        batch_wf(batch),
        valid_time(receive_time as int),
    ensures
        forall|k: int|
            0 <= k < execution_events(batch, receive_time, channel).len() ==> view_wf(
                #[trigger] execution_events(batch, receive_time, channel)[k],
            ),
{
    if batch.len() > 0 {
        lemma_sorted_wf(batch);
        let sorted = sorted_by_time(batch);
        let events = execution_events(batch, receive_time, channel);
        assert forall|k: int| 0 <= k < events.len() implies view_wf(#[trigger] events[k]) by {
            if k < sorted.len() {
                assert(events[k] == MarketInfoView::Executions(sorted[k]));
            }
        }
    }
}

/// A copy of a trade.
fn copy_execution(e: &Execution) -> (r: Execution)
    ensures
        r@ == e@,
{
    Execution {
        id: e.id,
        exec_unix_time: e.exec_unix_time,
        side: e.side,
        price: e.price,
        size: e.size,
        channel: e.channel.clone(),
    }
}

/// Where `insert_by_time` puts a trade: in front of the trades that are
/// later, behind all others.
proof fn lemma_insert_position(s: Seq<ExecutionView>, e: ExecutionView, p: int)
    requires
        0 <= p <= s.len(),
        forall|k: int| p <= k < s.len() ==> (#[trigger] s[k]).time > e.time,
        p > 0 ==> s[p - 1].time <= e.time,
    ensures
        insert_by_time(s, e) == s.insert(p, e),
    decreases s.len() - p,
{
    if p == s.len() {
        assert(s.push(e) =~= s.insert(p, e));
        if s.len() == 0 {
            assert(seq![e] =~= s.insert(p, e));
        }
    } else {
        let front = s.drop_last();
        assert(s.last() == s[s.len() - 1]);
        assert forall|k: int| p <= k < front.len() implies (#[trigger] front[k]).time
            > e.time by {
            assert(front[k] == s[k]);
        }
        if p > 0 {
            assert(front[p - 1] == s[p - 1]);
        }
        lemma_insert_position(front, e, p);
        assert(front.insert(p, e).push(s.last()) =~= s.insert(p, e));
    }
}

/// Puts a trade into a run that is in the order of its instants.
fn insert_execution(sorted: &mut Vec<Execution>, e: Execution)
    ensures
        execution_views(final(sorted)@) == insert_by_time(execution_views(old(sorted)@), e@),
{
    let mut p: usize = sorted.len();
    while p > 0 && sorted[p - 1].exec_unix_time > e.exec_unix_time
        invariant
            p <= sorted.len(),
            sorted@ == old(sorted)@,
            forall|k: int|
                p <= k < sorted.len() ==> (#[trigger] sorted@[k]).exec_unix_time
                    > e.exec_unix_time,
        decreases p,
    {
        p = p - 1;
    }
    proof {
        let s = execution_views(sorted@);
        assert forall|k: int| p <= k < s.len() implies (#[trigger] s[k]).time > (e@).time by {
            assert(s[k] == sorted@[k]@);
        }
        if p > 0 {
            assert(s[p - 1] == sorted@[p - 1]@);
        }
        lemma_insert_position(s, e@, p as int);
        assert(execution_views(sorted@.insert(p as int, e)) =~= s.insert(p as int, e@));
    }
    sorted.insert(p, e);
}

/// The trades of a batch in the order of their instants, trades of one
/// instant in the order of the batch.
pub fn sort_executions(batch: &Vec<Execution>) -> (r: Vec<Execution>)
    ensures
        execution_views(r@) == sorted_by_time(execution_views(batch@)),
{
    let n: usize = batch.len();
    let mut out: Vec<Execution> = Vec::new();
    let mut i: usize = 0;
    assert(execution_views(batch@.subrange(0, 0)) =~= Seq::<ExecutionView>::empty());
    assert(execution_views(out@) =~= Seq::<ExecutionView>::empty());
    while i < n
        invariant
            i <= n,
            n == batch.len(),
            execution_views(out@) == sorted_by_time(
                execution_views(batch@.subrange(0, i as int)),
            ),
        decreases n - i,
    {
        let e = copy_execution(&batch[i]);
        proof {
            let next = execution_views(batch@.subrange(0, i + 1));
            assert(next.drop_last() =~= execution_views(batch@.subrange(0, i as int)));
            assert(next.last() == e@);
        }
        insert_execution(&mut out, e);
        i = i + 1;
    }
    assert(batch@.subrange(0, n as int) == batch@);
    out
}

/// The earliest instant of a batch that is not empty.
fn oldest_of(batch: &Vec<Execution>) -> (r: i64)
    requires
        batch.len() > 0,
    ensures
        r == oldest_time(execution_views(batch@)),
        exists|k: int| 0 <= k < batch.len() && r == batch@[k].exec_unix_time,
{
    let n: usize = batch.len();
    let mut oldest: i64 = batch[0].exec_unix_time;
    let mut i: usize = 1;
    assert(execution_views(batch@.subrange(0, 1))[0] == batch@[0]@);
    while i < n
        invariant
            1 <= i <= n,
            n == batch.len(),
            oldest == oldest_time(execution_views(batch@.subrange(0, i as int))),
            exists|k: int| 0 <= k < batch.len() && oldest == batch@[k].exec_unix_time,
        decreases n - i,
    {
        proof {
            let next = execution_views(batch@.subrange(0, i + 1));
            assert(next.drop_last() =~= execution_views(batch@.subrange(0, i as int)));
            assert(next.last() == batch@[i as int]@);
        }
        if batch[i].exec_unix_time < oldest {
            oldest = batch[i].exec_unix_time;
        }
        i = i + 1;
    }
    assert(batch@.subrange(0, n as int) == batch@);
    oldest
}

/// The events of a batch of trades received at `receive_time` on `channel`.
pub fn batch_events(batch: &Vec<Execution>, receive_time: i64, channel: &str) -> (r: Vec<
    MarketInfo,
>)
    requires
        valid_time(receive_time as int),
        forall|k: int| 0 <= k < batch.len() ==> (#[trigger] batch@[k]).wf(),
    ensures
        crate::stream_api::event_views(r@) == execution_events(
            execution_views(batch@),
            receive_time,
            channel@,
        ),
{
    let mut events: Vec<MarketInfo> = Vec::new();
    if batch.len() == 0 {
        assert(crate::stream_api::event_views(events@) =~= Seq::<MarketInfoView>::empty());
        return events;
    }
    let sorted = sort_executions(batch);
    let ghost views = execution_views(sorted@);
    let ghost wrapped = views.map_values(|e: ExecutionView| MarketInfoView::Executions(e));
    let n: usize = sorted.len();
    let mut i: usize = 0;
    while i < n
        invariant
            i <= n,
            n == sorted.len(),
            views == execution_views(sorted@),
            wrapped == views.map_values(|e: ExecutionView| MarketInfoView::Executions(e)),
            wrapped.len() == n,
            events.len() == i,
            crate::stream_api::event_views(events@) =~= wrapped.subrange(0, i as int),
        decreases n - i,
    {
        let e = copy_execution(&sorted[i]);
        let ghost before = events@;
        assert(wrapped[i as int] == MarketInfoView::Executions(e@));
        events.push(MarketInfo::Executions(e));
        proof {
            let now = crate::stream_api::event_views(events@);
            assert(now.len() == i + 1);
            assert forall|k: int| 0 <= k < i + 1 implies now[k] == wrapped.subrange(
                0,
                i + 1,
            )[k] by {
                if k < i {
                    assert(events@[k] == before[k]);
                    assert(crate::stream_api::event_views(before)[k] == wrapped.subrange(
                        0,
                        i as int,
                    )[k]);
                }
            }
        }
        i = i + 1;
    }
    assert(wrapped.subrange(0, n as int) == wrapped);
    let oldest = oldest_of(batch);
    let latency = Latency {
        sender_time: receive_time - oldest,
        receive_time,
        channel: String::from_str(channel),
    };
    events.push(MarketInfo::LatencyExchange(latency));
    assert(crate::stream_api::event_views(events@) =~= execution_events(
        execution_views(batch@),
        receive_time,
        channel@,
    ));
    events
}

/// Decodes a message of asks and bids into a board.
pub fn decode_board(message: &Json, receive_time: i64, channel: String, is_update: bool) -> (r:
    Option<Board>)
    ensures
        match r {
            Some(b) => board_of(*message, receive_time, channel@, is_update) == Some(b@),
            None => board_of(*message, receive_time, channel@, is_update) is None,
        },
{
    let a = match items_in(message, "asks") {
        Some(a) => a,
        None => {
            return None;
        },
    };
    let b = match items_in(message, "bids") {
        Some(b) => b,
        None => {
            return None;
        },
    };
    let asks = match decode_levels(a) {
        Some(v) => v,
        None => {
            return None;
        },
    };
    let bids = match decode_levels(b) {
        Some(v) => v,
        None => {
            return None;
        },
    };
    Some(Board { receive_time, asks, bids, channel, is_update })
}

/// Decodes a document received at `receive_time`.
pub fn decode_json(doc: &Json, receive_time: i64) -> (r: Result<Frame, DecodeError>)
    ensures
        match r {
            Ok(f) => decoded(*doc, receive_time) == Ok::<FrameView, DecodeError>(f@),
            Err(e) => decoded(*doc, receive_time) == Err::<FrameView, DecodeError>(e),
        },
        r is Ok ==> forall|k: int|
            0 <= k < r.unwrap().events.len() ==> event_wf(#[trigger] r.unwrap().events@[k]),
{
    if !is_valid_time(receive_time) {
        return Err(DecodeError::ClockOutOfRange);
    }
    let params = match doc.get("params") {
        Some(p) => p,
        None => {
            return Err(DecodeError::MissingField);
        },
    };
    let channel = match text_in(params, "channel") {
        Some(c) => c,
        None => {
            return Err(DecodeError::MissingField);
        },
    };
    let kind = classify(channel.as_str());
    match kind {
        ChannelKind::Other => {
            let events: Vec<MarketInfo> = Vec::new();
            assert(crate::stream_api::event_views(events@) =~= Seq::<MarketInfoView>::empty());
            Ok(Frame { channel: channel.clone(), kind, events })
        },
        ChannelKind::Executions => {
            let items = match params.get("message") {
                Some(Json::Array(items)) => items,
                _ => {
                    return Err(DecodeError::MissingField);
                },
            };
            let batch = match decode_executions(items, channel.as_str()) {
                Some(b) => b,
                None => {
                    return Err(DecodeError::MissingField);
                },
            };
            assert forall|k: int| 0 <= k < batch.len() implies (#[trigger] batch@[k]).wf() by {
                assert(execution_views(batch@)[k] == batch@[k]@);
                assert(execution_of(items@[k], channel@) is Some);
            }
            let events = batch_events(&batch, receive_time, channel.as_str());
            proof {
                lemma_batch_events_wf(execution_views(batch@), receive_time, channel@);
                assert forall|k: int| 0 <= k < events.len() implies event_wf(
                    #[trigger] events@[k],
                ) by {
                    assert(crate::stream_api::event_views(events@)[k] == events@[k]@);
                }
            }
            Ok(Frame { channel: channel.clone(), kind, events })
        },
        ChannelKind::Board => {
            let message = match params.get("message") {
                Some(m) => m,
                None => {
                    return Err(DecodeError::MissingField);
                },
            };
            let board = match decode_board(message, receive_time, channel.clone(), true) {
                Some(b) => b,
                None => {
                    return Err(DecodeError::MissingField);
                },
            };
            let mut events: Vec<MarketInfo> = Vec::new();
            events.push(MarketInfo::Boards(board));
            assert(crate::stream_api::event_views(events@) =~= seq![
                MarketInfoView::Boards(board@),
            ]);
            Ok(Frame { channel: channel.clone(), kind, events })
        },
        ChannelKind::Snapshot => {
            let message = match params.get("message") {
                Some(m) => m,
                None => {
                    return Err(DecodeError::MissingField);
                },
            };
            let market = remove_all(channel.as_str(), "_snapshot");
            let board = match decode_board(message, receive_time, market, false) {
                Some(b) => b,
                None => {
                    return Err(DecodeError::MissingField);
                },
            };
            let mut events: Vec<MarketInfo> = Vec::new();
            events.push(MarketInfo::Boards(board));
            assert(crate::stream_api::event_views(events@) =~= seq![
                MarketInfoView::Boards(board@),
            ]);
            Ok(Frame { channel: channel.clone(), kind, events })
        },
    }
}

/// The instants of an event lie in the range the library works with.
pub open spec fn event_wf(event: MarketInfo) -> bool {
    view_wf(event@)
}

/// The instants of an event lie in the range the library works with.
pub open spec fn view_wf(event: MarketInfoView) -> bool {
    match event {
        MarketInfoView::Executions(e) => valid_time(e.time as int),
        MarketInfoView::LatencyExchange(l) => valid_time(l.receive_time as int),
        MarketInfoView::Boards(b) => valid_time(b.receive_time as int),
        MarketInfoView::Close => true,
    }
}

/// Decodes a frame text received at `receive_time`.
///
/// The text is read as JSON by `serde_json`; the result is what the document
/// decodes to, and `Malformed` for a text that is no document.
pub fn decode_frame(text: &str, receive_time: i64) -> (r: Result<Frame, DecodeError>)
    ensures
        match r {
            Ok(f) => decoded_text(text@, receive_time) == Ok::<FrameView, DecodeError>(f@),
            Err(e) => decoded_text(text@, receive_time) == Err::<FrameView, DecodeError>(e),
        },
        r is Ok ==> forall|k: int|
            0 <= k < r.unwrap().events.len() ==> event_wf(#[trigger] r.unwrap().events@[k]),
{
    match Json::parse(text) {
        Some(doc) => decode_json(&doc, receive_time),
        None => Err(DecodeError::Malformed),
    }
}

/// The instants of a run of trades never go back.
pub open spec fn in_time_order(s: Seq<ExecutionView>) -> bool {
    forall|i: int, j: int| 0 <= i < j < s.len() ==> s[i].time <= s[j].time
}

/// Putting a trade into a run puts it at some place and moves nothing else.
pub proof fn lemma_insert_somewhere(s: Seq<ExecutionView>, e: ExecutionView)
    ensures
        exists|p: int| 0 <= p <= s.len() && insert_by_time(s, e) == #[trigger] s.insert(p, e),
    decreases s.len(),
{
    if s.len() == 0 {
        assert(seq![e] =~= s.insert(0, e));
    } else if s.last().time <= e.time {
        assert(s.push(e) =~= s.insert(s.len() as int, e));
    } else {
        let front = s.drop_last();
        lemma_insert_somewhere(front, e);
        let p = choose|p: int|
            0 <= p <= front.len() && insert_by_time(front, e) == #[trigger] front.insert(p, e);
        assert(front.insert(p, e).push(s.last()) =~= s.insert(p, e));
    }
}

/// Putting a trade into a run in time order leaves it in time order.
pub proof fn lemma_insert_keeps_order(s: Seq<ExecutionView>, e: ExecutionView)
    requires
        in_time_order(s),
    ensures
        in_time_order(insert_by_time(s, e)),
    decreases s.len(),
{
    if s.len() == 0 {
    } else if s.last().time <= e.time {
    } else {
        let front = s.drop_last();
        assert(in_time_order(front)) by {
            assert forall|i: int, j: int| 0 <= i < j < front.len() implies front[i].time
                <= front[j].time by {
                assert(front[i] == s[i] && front[j] == s[j]);
            }
        }
        lemma_insert_keeps_order(front, e);
        lemma_insert_somewhere(front, e);
        let p = choose|p: int|
            0 <= p <= front.len() && insert_by_time(front, e) == #[trigger] front.insert(p, e);
        let placed = front.insert(p, e);
        let whole = placed.push(s.last());
        assert forall|i: int, j: int| 0 <= i < j < whole.len() implies whole[i].time
            <= whole[j].time by {
            if j < placed.len() {
                assert(whole[i] == placed[i] && whole[j] == placed[j]);
            } else {
                assert(whole[j] == s[s.len() - 1]);
                assert(whole[i] == placed[i]);
                if i < p {
                    assert(placed[i] == s[i]);
                } else if i == p {
                    assert(placed[i] == e);
                } else {
                    assert(placed[i] == s[i - 1]);
                }
            }
        }
    }
}

/// A batch put in order is in time order, and holds the trades of the batch,
/// each as often as the batch does.
pub proof fn lemma_sorted_by_time(batch: Seq<ExecutionView>)
    ensures
        in_time_order(sorted_by_time(batch)),
        sorted_by_time(batch).to_multiset() == batch.to_multiset(),
        sorted_by_time(batch).len() == batch.len(),
    decreases batch.len(),
{
    broadcast use vstd::seq_lib::group_to_multiset_ensures;

    if batch.len() == 0 {
    } else {
        let front = batch.drop_last();
        let sorted = sorted_by_time(front);
        lemma_sorted_by_time(front);
        lemma_insert_keeps_order(sorted, batch.last());
        lemma_insert_somewhere(sorted, batch.last());
        lemma_insert_len(sorted, batch.last());
        let p = choose|p: int|
            0 <= p <= sorted.len() && insert_by_time(sorted, batch.last()) == #[trigger] sorted.insert(
                p,
                batch.last(),
            );
        vstd::seq_lib::to_multiset_insert(sorted, p, batch.last());
        assert(front.push(batch.last()) =~= batch);
        vstd::seq_lib::to_multiset_build(front, batch.last());
    }
}

/// The oldest instant of a batch is the instant of one of its trades, and no
/// trade of the batch is older.
pub proof fn lemma_oldest_time(batch: Seq<ExecutionView>)
    requires
        batch.len() > 0,
    ensures
        exists|k: int| 0 <= k < batch.len() && oldest_time(batch) == (#[trigger] batch[k]).time,
        forall|k: int| 0 <= k < batch.len() ==> oldest_time(batch) <= (#[trigger] batch[k]).time,
    decreases batch.len(),
{
    if batch.len() == 1 {
        assert(oldest_time(batch) == batch[0].time);
    } else {
        let front = batch.drop_last();
        lemma_oldest_time(front);
        let k0 = choose|k: int|
            0 <= k < front.len() && oldest_time(front) == (#[trigger] front[k]).time;
        assert(front[k0] == batch[k0]);
        assert(batch.last() == batch[batch.len() - 1]);
        assert forall|k: int| 0 <= k < batch.len() implies oldest_time(batch) <= (
        #[trigger] batch[k]).time by {
            if k < front.len() {
                assert(front[k] == batch[k]);
            }
        }
    }
}

/// The events of a batch that is not empty: its trades, each once, in time
/// order, and behind them exactly one delay, which is the instant of receipt
/// less the oldest instant of the batch.
pub proof fn lemma_batch_events(batch: Seq<ExecutionView>, receive_time: i64, channel: Seq<char>)
    requires
        batch.len() > 0,
    ensures
        ({
            let events = execution_events(batch, receive_time, channel);
            let sorted = sorted_by_time(batch);
            &&& events.len() == batch.len() + 1
            &&& forall|i: int|
                0 <= i < batch.len() ==> #[trigger] events[i] == MarketInfoView::Executions(
                    sorted[i],
                )
            &&& in_time_order(sorted)
            &&& sorted.to_multiset() == batch.to_multiset()
            &&& events[batch.len() as int] == MarketInfoView::LatencyExchange(
                LatencyView {
                    sender_time: (receive_time - oldest_time(batch)) as i64,
                    receive_time,
                    channel,
                },
            )
        }),
{
    lemma_sorted_by_time(batch);
}

/// A side text never makes a fault: a record whose other fields are in
/// order decodes to a trade whatever its side text says, and a text that is
/// neither `BUY` nor `SELL` gives the side `NoSide`.
pub proof fn lemma_side_never_faults(j: Json, channel: Seq<char>)
    requires
        number_field(j, "id"@) matches Some(id) && small_integer(id) is Some,
        text_field(j, "exec_date"@) matches Some(date) && utc_millis(date) matches Some(t)
            && valid_time(t as int),
        number_field(j, "price"@) matches Some(p) && amount_of(p) is Some,
        number_field(j, "size"@) matches Some(s) && amount_of(s) is Some,
        text_field(j, "side"@) is Some,
    ensures
        execution_of(j, channel) matches Some(e) && e.side == side_of(
            text_field(j, "side"@).unwrap(),
        ),
        text_field(j, "side"@).unwrap() != "BUY"@ && text_field(j, "side"@).unwrap() != "SELL"@
            ==> execution_of(j, channel).unwrap().side == Side::NoSide,
{
}

} // verus!
