//! The Time chart: one axis, and everything a study did on it.
//!
//! Every lane is placed by the stamp the receiving process put on a row itself,
//! `core_rx_utc_ms`, and by no other clock. A stream without one is a stream the chart
//! says it cannot place.

pub mod accounts;
pub mod axis;
pub mod gather;
pub mod lanes;
pub mod marks;
pub mod series;
pub mod view;
