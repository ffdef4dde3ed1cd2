//! A verified core for a price tracker: instruments, quote extraction,
//! record formatting, and the append-only log discipline.

pub mod error;
pub mod instrument;
pub mod json;
pub mod log;
pub mod price;
pub mod timestamp;
pub mod tracker;
