//! Point-in-time exchange-rate cache.
//!
//! Dates are day counts relative to a fixed epoch (`i32`), rates and other
//! sampled values are carried as the 64 bits of their IEEE-754 encoding
//! (`u64`), so that every value the cache handles has a mathematical model.

pub mod asof;
pub mod control;
pub mod engine;
pub mod error;
pub mod fixed;
pub mod load;
pub mod series;
pub mod xuid;

pub use crate::asof::DateValue;
pub use crate::control::CurrencyControl;
