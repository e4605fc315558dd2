//! Decision logic of a periodic exchange-rate notifier.
//!
//! The crate holds everything the notifier decides and computes: how a
//! price is read out of a market page, when a ticker reply yields a
//! cross-rate, what the price of the lira is, what the outgoing message
//! says, and which step of a tick comes next. Network traffic and the clock
//! are left to the caller.

pub mod config;
pub mod convert;
pub mod currency;
pub mod double;
pub mod error;
pub mod message;
pub mod notify;
pub mod page;
pub mod price_text;
pub mod quotient;
pub mod rounding;
pub mod snapshot;
pub mod tick;
pub mod ticker;
