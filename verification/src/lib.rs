//! The decisions behind the bench's browser tabs, as a library of verified functions.

pub mod assets;
pub mod config;
pub mod double;
pub mod firmware_build;
pub mod json;
pub mod live_study;
pub mod logs;
pub mod path;
pub mod projection;
pub mod reading;
pub mod roster;
pub mod shelf;
pub mod snapshot;
pub mod sorting;
pub mod streams;
pub mod studies_api;
pub mod study_designer;
pub mod text;
pub mod time_chart;
pub mod topology;
pub mod trace;
