//! The Study Designer tab: authoring, saving, loading and running studies of a firmware
//! repository.

pub mod gatt;
pub mod project;
pub mod protocols;
pub mod provenance;
pub mod references;
pub mod registry;
pub mod requirements;
pub mod saved;
pub mod slug;
pub mod study;
pub mod submit;
pub mod taps;
