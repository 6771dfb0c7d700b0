//! Reading a past study back: its taps' tables, consoles and raw captures.
//!
//! A rendered capture is split on commas and nothing else: its writer refuses a value
//! that holds one rather than quoting it.

pub mod column;
pub mod pages;
pub mod series;
pub mod study;
pub mod table;
