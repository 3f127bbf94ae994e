//! Audio routing: device and session records, capture and render requests,
//! the mixer's controls and spill buffer, and the route engine.
pub mod capture;
pub mod devices;
pub mod engine;
pub mod formats;
pub mod mixer;
pub mod render;
pub mod sessions;
pub mod types;

use vstd::prelude::*;

use crate::text::concat;

verus! {

/// Why an audio operation failed.
#[derive(Debug, Clone)]
pub enum AudioError {
    /// A capture stream could not be opened or read.
    CaptureFailed(String),
    /// The audio backend reported an error.
    Backend(String),
}

impl AudioError {
    /// The text that describes the error to the user.
    pub open spec fn message_view(&self) -> Seq<char> {
        match self {
            AudioError::CaptureFailed(detail) => "capture failed: "@ + detail@,
            AudioError::Backend(detail) => detail@,
        }
    }

    /// The text that describes the error to the user.
    pub fn message(&self) -> (r: String)
        ensures
            r@ == self.message_view(),
    {
        match self {
            AudioError::CaptureFailed(detail) => concat("capture failed: ", detail.as_str()),
            AudioError::Backend(detail) => detail.clone(),
        }
    }
}

} // verus!
