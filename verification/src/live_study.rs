//! The Live Study tab: one session per study, holding everything that arrived so
//! far in bounded rings that count what they dropped.

pub mod axis;
pub mod chart;
pub mod console;
pub mod follow;
pub mod kept;
pub mod lane;
pub mod series;
pub mod session;
