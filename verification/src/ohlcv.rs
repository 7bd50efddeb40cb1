//! Candles: the open, high, low and close price and the traded volume of one
//! time bucket.
use vstd::prelude::*;
use crate::amount::{amount_text, capped_sum, Amount};
pub use crate::periods::Periods;
use crate::periods::period_seconds;
use crate::stream_api::{Execution, ExecutionView, Side};
use crate::text::{integer_text, integer_to_text};
use crate::time::{bucket_at, bucket_of, seconds_of};

verus! {

/// Nanoseconds in one second.
pub const NANOS_PER_SECOND: i128 = 1_000_000_000;

/// The figures of one candle.
#[derive(Clone, Copy, Debug, PartialEq, Eq, Structural)]
pub struct OHLCV {
    /// The start of the bucket, in seconds.
    pub date: i64,
    pub open: Amount,
    pub high: Amount,
    pub low: Amount,
    pub close: Amount,
    pub buy_volume: Amount,
    pub sell_volume: Amount,
    pub volume: Amount,
}

/// The size of a trade when it is of the given side, and nothing otherwise.
pub open spec fn volume_of(e: ExecutionView, side: Side) -> u64 {
    if e.side == side {
        e.size.units
    } else {
        0
    }
}

/// The candle that a first trade opens, for buckets of width `period`.
pub open spec fn opened(e: ExecutionView, period: int) -> OHLCV {
    OHLCV {
        date: bucket_at(e.time, period) as i64,
        open: e.price,
        high: e.price,
        low: e.price,
        close: e.price,
        buy_volume: Amount { units: volume_of(e, Side::Buy) },
        sell_volume: Amount { units: volume_of(e, Side::Sell) },
        volume: e.size,
    }
}

/// A candle with one more trade: the trade's price closes it, raises the high
/// or lowers the low where it passes them, and its size adds to the volume
/// and to that of its side.
pub open spec fn updated(c: OHLCV, e: ExecutionView) -> OHLCV {
    OHLCV {
        date: c.date,
        open: c.open,
        high: if c.high.units >= e.price.units {
            c.high
        } else {
            e.price
        },
        low: if c.low.units <= e.price.units {
            c.low
        } else {
            e.price
        },
        close: e.price,
        buy_volume: Amount { units: capped_sum(c.buy_volume.units, volume_of(e, Side::Buy)) },
        sell_volume: Amount { units: capped_sum(c.sell_volume.units, volume_of(e, Side::Sell)) },
        volume: Amount { units: capped_sum(c.volume.units, e.size.units) },
    }
}

/// The prices of a candle are in order: the low is not above the open or the
/// close, and the high is not below them.
pub open spec fn ordered(c: OHLCV) -> bool {
    &&& c.low.units <= c.open.units <= c.high.units
    &&& c.low.units <= c.close.units <= c.high.units
}

/// The open candle, when a trade does not belong to it: the candle that is
/// closed, and written out, before the trade opens the next.
pub open spec fn closed_by(candle: CandleView, e: ExecutionView) -> Option<OHLCV> {
    match candle.ohlcv {
        Some(c) => if bucket_at(e.time, candle.period) == c.date {
            None
        } else {
            Some(c)
        },
        None => None,
    }
}

/// An aggregator with a trade taken in: the trade goes into the open candle
/// when it belongs to it, and opens a new candle otherwise.
pub open spec fn accepted(candle: CandleView, e: ExecutionView) -> CandleView {
    CandleView {
        ohlcv: Some(
            match candle.ohlcv {
                Some(c) => if bucket_at(e.time, candle.period) == c.date {
                    updated(c, e)
                } else {
                    opened(e, candle.period)
                },
                None => opened(e, candle.period),
            },
        ),
        period: candle.period,
    }
}

/// The record of a candle: the start of its bucket in nanoseconds, then open,
/// high, low, close, buy volume, sell volume and volume, parted by spaces and
/// ended by a line feed.
pub open spec fn candle_record(c: OHLCV) -> Seq<char> {
    integer_text(c.date * NANOS_PER_SECOND) + " "@ + amount_text(c.open.units as nat) + " "@
        + amount_text(c.high.units as nat) + " "@ + amount_text(c.low.units as nat) + " "@
        + amount_text(c.close.units as nat) + " "@ + amount_text(c.buy_volume.units as nat)
        + " "@ + amount_text(c.sell_volume.units as nat) + " "@ + amount_text(
        c.volume.units as nat,
    ) + "\n"@
}

/// What a candle aggregator holds: at most one open candle.
pub struct CandleView {
    /// The open candle, if one is open.
    pub ohlcv: Option<OHLCV>,
    /// The width of a bucket, in seconds.
    pub period: int,
}

/// The candle aggregator of one channel and period.
#[derive(Debug)]
pub struct CandleStick {
    ohlcv: Option<OHLCV>,
    periods: Periods,
}

impl View for CandleStick {
    type V = CandleView;

    closed spec fn view(&self) -> CandleView {
        CandleView { ohlcv: self.ohlcv, period: self.periods.seconds() }
    }
}

impl CandleStick {
    /// The period is valid, and the prices of the open candle are in order.
    pub open spec fn wf(&self) -> bool {
        &&& self.period_wf()
        &&& self@.ohlcv matches Some(c) ==> ordered(c)
    }

    /// The period of the aggregator is a valid one.
    pub closed spec fn period_wf(&self) -> bool {
        self.periods.wf()
    }

    /// The notation of the period.
    pub closed spec fn notation(&self) -> Seq<char> {
        self.periods.notation()
    }

    /// An aggregator for buckets of the period `periods_str`, with no candle
    /// open.
    pub fn new(periods_str: String) -> (r: CandleStick)
        requires
            period_seconds(periods_str@) is Some,
        ensures
            r.wf(),
            r.notation() == periods_str@,
            r@.period == period_seconds(periods_str@).unwrap(),
            r@.ohlcv is None,
    {
        CandleStick { ohlcv: None, periods: Periods::new(periods_str) }
    }

    /// Opens a new candle with a trade, in place of the one that was open.
    pub fn start(&mut self, execution: &Execution)
        requires
            old(self).wf(),
            execution.wf(),
        ensures
            final(self).wf(),
            final(self)@ == (CandleView {
                ohlcv: Some(opened(execution@, old(self)@.period)),
                period: old(self)@.period,
            }),
            final(self).notation() == old(self).notation(),
    {
        let price = execution.get_price();
        let size = execution.get_size();
        let side = execution.get_side();
        let pd = self.periods.time();
        let ohlcv = OHLCV {
            date: bucket_of(seconds_of(execution.exec_unix_time), pd),
            open: price,
            high: price,
            low: price,
            close: price,
            buy_volume: match side {
                Side::Buy => size,
                _ => Amount { units: 0 },
            },
            sell_volume: match side {
                Side::Sell => size,
                _ => Amount { units: 0 },
            },
            volume: size,
        };
        self.ohlcv = Some(ohlcv);
    }

    /// Takes a trade into the open candle. With no candle open nothing changes.
    pub fn update(&mut self, execution: &Execution)
        requires
            old(self).wf(),
        ensures
            final(self).wf(),
            final(self)@ == (CandleView {
                ohlcv: match old(self)@.ohlcv {
                    Some(c) => Some(updated(c, execution@)),
                    None => None,
                },
                period: old(self)@.period,
            }),
            final(self).notation() == old(self).notation(),
    {
        if let Some(ohlcv) = self.ohlcv {
            let mut ohlcv = ohlcv;
            let price = execution.get_price();
            let size = execution.get_size();
            let side = execution.get_side();
            let none = Amount { units: 0 };
            ohlcv.close = price;
            ohlcv.high = ohlcv.high.max(price);
            ohlcv.low = ohlcv.low.min(price);
            ohlcv.buy_volume = ohlcv.buy_volume.saturating_add(
                match side {
                    Side::Buy => size,
                    _ => none,
                },
            );
            ohlcv.sell_volume = ohlcv.sell_volume.saturating_add(
                match side {
                    Side::Sell => size,
                    _ => none,
                },
            );
            ohlcv.volume = ohlcv.volume.saturating_add(size);
            self.ohlcv = Some(ohlcv);
        }
    }

    /// Whether a trade belongs to the open candle: a candle is open, and the
    /// bucket of the trade's instant is the candle's.
    pub fn in_periods(&self, execution: &Execution) -> (r: bool)
        requires
            self.wf(),
            execution.wf(),
        ensures
            r == match self@.ohlcv {
                Some(c) => bucket_at(execution.exec_unix_time, self@.period) == c.date,
                None => false,
            },
    {
        match self.ohlcv {
            None => false,
            Some(c) => {
                let pd = self.periods.time();
                bucket_of(seconds_of(execution.exec_unix_time), pd) == c.date
            },
        }
    }

    /// Takes a trade in. A trade of the open candle's bucket goes into that
    /// candle. Any other trade closes the open candle, whose record is the
    /// result, and opens the next.
    pub fn accept(&mut self, execution: &Execution) -> (r: Option<String>)
        requires
            old(self).wf(),
            execution.wf(),
        ensures
            final(self).wf(),
            final(self)@ == accepted(old(self)@, execution@),
            final(self).notation() == old(self).notation(),
            match r {
                Some(record) => closed_by(old(self)@, execution@) matches Some(c) && record@
                    == candle_record(c),
                None => closed_by(old(self)@, execution@) is None,
            },
    {
        if self.in_periods(execution) {
            self.update(execution);
            None
        } else {
            let record = if self.has_data() {
                Some(self.get_csv())
            } else {
                None
            };
            self.start(execution);
            record
        }
    }

    /// Whether a candle is open.
    pub fn has_data(&self) -> (r: bool)
        ensures
            r == self@.ohlcv is Some,
    {
        self.ohlcv.is_some()
    }

    /// The record of the open candle.
    pub fn get_csv(&self) -> (r: String)
        requires
            self@.ohlcv is Some,
        ensures
            r@ == candle_record(self@.ohlcv.unwrap()),
    {
        let c = match self.ohlcv {
            Some(c) => c,
            None => {
                proof {
                    assert(false);
                }
                return String::new();
            },
        };
        let mut out = integer_to_text(c.date as i128 * NANOS_PER_SECOND);
        out.append(" ");
        out.append(c.open.to_text().as_str());
        out.append(" ");
        out.append(c.high.to_text().as_str());
        out.append(" ");
        out.append(c.low.to_text().as_str());
        out.append(" ");
        out.append(c.close.to_text().as_str());
        out.append(" ");
        out.append(c.buy_volume.to_text().as_str());
        out.append(" ");
        out.append(c.sell_volume.to_text().as_str());
        out.append(" ");
        out.append(c.volume.to_text().as_str());
        out.append("\n");
        out
    }

    /// The notation of the period, which names the candle's file.
    pub fn get_csv_name(&self) -> (r: String)
        ensures
            r@ == self.notation(),
    {
        self.periods.to_str()
    }
}

/// A trade never raises the low nor lowers the high of a candle, lies
/// between them afterwards, and leaves the open price and the bucket alone.
pub proof fn lemma_updated_bounds(c: OHLCV, e: ExecutionView)
    requires
        ordered(c),
    ensures
        ordered(updated(c, e)),
        updated(c, e).low.units <= c.low.units,
        updated(c, e).high.units >= c.high.units,
        updated(c, e).low.units <= e.price.units <= updated(c, e).high.units,
        updated(c, e).open == c.open,
        updated(c, e).date == c.date,
{
}

/// The volume of a candle never shrinks.
pub proof fn lemma_updated_volume(c: OHLCV, e: ExecutionView)
    ensures
        updated(c, e).volume.units >= c.volume.units,
        updated(c, e).buy_volume.units >= c.buy_volume.units,
        updated(c, e).sell_volume.units >= c.sell_volume.units,
{
}

} // verus!
