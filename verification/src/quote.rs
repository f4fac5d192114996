//! Quotes and the trading sessions in which they occur.

use crate::traits::Timestamped;
use vstd::prelude::*;

verus! {

/// The trading session in which a quote occurred.
#[derive(Clone, Copy, Debug, PartialEq, Eq, Structural)]
pub enum TradingSession {
    /// Trading before the regular market session.
    PreMarket,
    /// Trading during the regular market session.
    Regular,
    /// Trading immediately after the regular market session.
    AfterHours,
    /// Any other session.
    Other,
}

/// A symbol's quote at a point in time, with a price of type `P`.
#[derive(Clone, Debug)]
pub struct Quote<P> {
    /// The symbol for the quote.
    pub symbol: String,
    /// The timestamp of the quote in millisecond accuracy.
    pub timestamp: u64,
    /// The trading session of the quote: pre-market, regular hours or after hours.
    pub session: TradingSession,
    /// The price of the quote.
    pub price: P,
    /// The volume (daily or transactional) of the symbol.
    pub volume: u64,
}

/// The signed number with the same 64 bits as an unsigned one: the number
/// itself up to `i64::MAX`, and 2^64 less than it above that.
pub open spec fn signed(stamp: u64) -> int {
    if stamp <= i64::MAX {
        stamp as int
    } else {
        stamp - 0x1_0000_0000_0000_0000
    }
}

impl<P> Timestamped for Quote<P> {
    open spec fn millis(&self) -> int {
        signed(self.timestamp)
    }

    /// Gets the timestamp in millisecond accuracy.
    fn timestamp_millis(&self) -> (millis: i64) {
        if self.timestamp <= 0x7fff_ffff_ffff_ffff {
            self.timestamp as i64
        } else {
            let above: u64 = self.timestamp - 0x8000_0000_0000_0000;
            above as i64 + i64::MIN
        }
    }
}

/// Reading a timestamp as signed keeps its bits: the signed number fits in
/// 64 bits, differs from the unsigned one by nothing or by 2^64, and comes
/// from no other timestamp.
pub proof fn law_signed_keeps_the_bits(stamp: u64, other: u64)
    ensures
        i64::MIN <= signed(stamp) <= i64::MAX,
        signed(stamp) == stamp || signed(stamp) == stamp - 0x1_0000_0000_0000_0000,
        signed(stamp) == signed(other) ==> stamp == other,
{
}

} // verus!
