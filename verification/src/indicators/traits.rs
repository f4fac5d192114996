//! The two traits of a streaming indicator: reading it and driving it.

use vstd::prelude::*;

verus! {

/// An indicator that holds a current value.
pub trait TechnicalIndicator {
    type Output;

    /// Gets the current indicator value.
    fn current(self) -> Self::Output;
}

/// An indicator that is driven by observations of type `Input`, in two
/// modes: one that finalizes an observation and one that only previews it.
pub trait UpdatableIndicator<Input> {
    type Output;

    /// Commits the observation to the indicator's history, so that the
    /// observations that follow are measured against it.
    ///
    /// This is used for historical calculations.
    ///
    /// Returns the current indicator value.
    fn commit(&mut self, current: &Input) -> Self::Output;

    /// Updates the current value without affecting the history.
    ///
    /// This is used for realtime updates, where the observation is not
    /// final yet.
    ///
    /// Returns the current indicator value.
    fn update(&mut self, current: &Input) -> Self::Output;
}

} // verus!
