//! Data structures and rules for financial market data: price bars and
//! quotes with their timestamps, sampling intervals, the securities that an
//! exchange lists, and the protocol by which streaming indicators are driven.
//!
//! Prices are of a type that the user picks: the library stores them and
//! never computes with them.

pub mod bar;
pub mod indicators;
pub mod interval;
pub mod quote;
pub mod stock;
pub mod text;
pub mod traits;

pub use bar::Bar;
pub use interval::{Interval, InvalidIntervalError};
pub use quote::{Quote, TradingSession};
pub use traits::Timestamped;
