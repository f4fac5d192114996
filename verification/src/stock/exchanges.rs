//! The exchanges whose symbol directories can be read.

use vstd::prelude::*;

verus! {

/// A stock exchange whose symbol directory can be read.
#[derive(Clone, Copy, Debug, PartialEq, Eq, Structural)]
pub enum Exchange {
    NASDAQ,
}

} // verus!
