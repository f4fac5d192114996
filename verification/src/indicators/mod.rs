//! The protocol that streaming technical indicators share.

pub mod traits;

pub use traits::{TechnicalIndicator, UpdatableIndicator};
