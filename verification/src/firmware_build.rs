//! Building and flashing the firmware a study declares, before it runs.

pub mod build_log;
pub mod clock;
pub mod flash;
pub mod survey;
