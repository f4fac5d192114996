//! Price bars, ordered by time.

use crate::traits::Timestamped;
use std::cmp::Ordering;
use vstd::prelude::*;
use vstd::std_specs::cmp::{PartialEqSpec, PartialEqSpecImpl, PartialOrdSpec, PartialOrdSpecImpl};

verus! {

/// A single bar of OHLC (+volume) pricing data over a unit of time, with
/// prices of type `P`.
///
///  * Bars are ordered by the timestamp, and equal where it is equal.
///  * The unit of time is defined by whatever returns the bar, but is
///    generally one day.
#[derive(Clone, Copy, Debug)]
pub struct Bar<P> {
    /// A time during the unit of time, usually the time at open.
    pub timestamp: i64,
    /// The price at the start of the unit of time.
    pub open: P,
    /// The highest price seen during the unit of time.
    pub high: P,
    /// The lowest price seen during the unit of time.
    pub low: P,
    /// The price at the end of the unit of time.
    pub close: P,
    /// The optional volume traded during the unit of time.
    pub volume: Option<u64>,
}

impl<P> Bar<P> {
    /// How this bar stands to another in time.
    pub open spec fn time_order(&self, other: &Self) -> Ordering {
        if self.timestamp < other.timestamp {
            Ordering::Less
        } else if self.timestamp == other.timestamp {
            Ordering::Equal
        } else {
            Ordering::Greater
        }
    }

    /// Orders this bar against another by their timestamps.
    pub fn cmp(&self, other: &Self) -> (order: Ordering)
        ensures
            order == self.time_order(other),
    {
        if self.timestamp < other.timestamp {
            Ordering::Less
        } else if self.timestamp == other.timestamp {
            Ordering::Equal
        } else {
            Ordering::Greater
        }
    }
}

impl<P> PartialEq for Bar<P> {
    fn eq(&self, other: &Self) -> (same: bool) {
        self.timestamp == other.timestamp
    }
}

impl<P> PartialEqSpecImpl for Bar<P> {
    open spec fn obeys_eq_spec() -> bool {
        true
    }

    open spec fn eq_spec(&self, other: &Self) -> bool {
        self.timestamp == other.timestamp
    }
}

impl<P> Eq for Bar<P> {

}

impl<P> PartialOrd for Bar<P> {
    fn partial_cmp(&self, other: &Self) -> (order: Option<Ordering>) {
        Some(self.cmp(other))
    }
}

impl<P> PartialOrdSpecImpl for Bar<P> {
    open spec fn obeys_partial_cmp_spec() -> bool {
        true
    }

    open spec fn partial_cmp_spec(&self, other: &Self) -> Option<Ordering> {
        Some(self.time_order(other))
    }
}

impl<P> Timestamped for Bar<P> {
    open spec fn millis(&self) -> int {
        self.timestamp as int
    }

    /// Gets the timestamp in millisecond accuracy.
    fn timestamp_millis(&self) -> (millis: i64) {
        self.timestamp
    }
}

/// Two bars are equal exactly where neither comes before the other.
pub proof fn law_equal_bars_share_a_time<P>(a: Bar<P>, b: Bar<P>)
    ensures
        PartialEqSpec::eq_spec(&a, &b) <==> a.time_order(&b) == Ordering::Equal,
        PartialEqSpec::eq_spec(&a, &b) <==> a.timestamp == b.timestamp,
        PartialOrdSpec::partial_cmp_spec(&a, &b) == Some(a.time_order(&b)),
{
}

/// Turning two bars round turns their order round.
pub proof fn law_order_turns_round<P>(a: Bar<P>, b: Bar<P>)
    ensures
        a.time_order(&b) == Ordering::Less <==> b.time_order(&a) == Ordering::Greater,
        a.time_order(&b) == Ordering::Equal <==> b.time_order(&a) == Ordering::Equal,
{
}

/// A bar that is no later than a second, which is no later than a third, is
/// no later than the third.
pub proof fn law_order_carries_over<P>(a: Bar<P>, b: Bar<P>, c: Bar<P>)
    requires
        a.time_order(&b) != Ordering::Greater,
        b.time_order(&c) != Ordering::Greater,
    ensures
        a.time_order(&c) != Ordering::Greater,
        a.time_order(&c) == Ordering::Equal ==> a.time_order(&b) == Ordering::Equal
            && b.time_order(&c) == Ordering::Equal,
{
}

} // verus!
