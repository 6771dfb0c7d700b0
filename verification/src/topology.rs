//! The Topology tab: the project's catalog of boards, the saved benches, and the one
//! pass that says whether the bench is what the tab says it is.

pub mod catalog;
pub mod profile;
pub mod slug;
pub mod validate;
