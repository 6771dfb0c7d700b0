//! The streams a study records.

use vstd::prelude::*;
use vstd::string::*;

verus! {

/// How a stream's capture is to be read.
#[derive(Debug, Clone, Copy, PartialEq, Eq, Structural)]
pub enum StreamEncoding {
    /// Bytes, and nothing declared to read them as.
    Raw,
    Text,
    Samples,
    GattTranscript,
    /// Payloads of a declared layout.
    Struct { decoder: u8 },
    OutpostTrace,
}

/// One stream of a finished study.
#[derive(Debug)]
pub struct StreamEntry {
    pub id: u8,
    pub name: String,
    pub encoding: StreamEncoding,
    /// Whether there is a decoded rendering of it.
    pub rendered: bool,
    pub note: Option<String>,
    pub named: bool,
    pub timed: bool,
    pub self_excluded: bool,
}

} // verus!
