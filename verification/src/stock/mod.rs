//! Stock exchanges and the securities listed on them.

pub mod exchanges;
pub mod listing;
pub mod securities;

pub use exchanges::Exchange;
pub use listing::ListingError;
pub use securities::{Securities, Security};
