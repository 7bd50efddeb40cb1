//! Market-data feed handling for the bitFlyer streaming service: decoding of
//! channel frames into typed events, the reader session's decisions, order-book
//! reconstruction, candle aggregation and the reconnect supervisor.
//!
//! Prices and sizes are fixed-point amounts; instants are UTC milliseconds.
pub mod text;
pub mod amount;
pub mod time;
pub mod periods;
pub mod json;
pub mod calendar;
pub mod stream_api;
pub mod codec;
pub mod orderbooks;
pub mod ohlcv;
pub mod supervisor;

pub use crate::stream_api::{BfWebsocket, Execution, Latency, MarketInfo, Side};
