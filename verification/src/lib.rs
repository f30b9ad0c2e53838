//! Timestamp series toolkit: a compact duration grammar, a relative date
//! resolver, and a stride-driven series generator, all with verified
//! contracts over an integer millisecond time model.

pub mod chars;
pub mod date;
pub mod duration;
pub mod error;
pub mod time;
pub mod series;
