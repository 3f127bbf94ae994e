//! Render requests: the output stream that receives the mix.
use vstd::prelude::*;

use crate::audio::mixer::SAMPLE_RATE;

verus! {

/// A request to render to an output endpoint.
#[derive(Debug, Clone, PartialEq, Eq)]
pub struct RenderSpec {
    pub device_id: String,
    pub sample_rate: u32,
    pub channels: u16,
    pub frames_per_buffer: usize,
    pub downmix_to_mono: bool,
}

impl RenderSpec {
    /// Output to a virtual cable: one channel when downmixing to mono, else
    /// two, at the mixer's sample rate.
    pub fn cable(device_id: String, frames_per_buffer: usize, downmix_to_mono: bool) -> (r:
        RenderSpec)
        ensures
            r.device_id == device_id,
            r.sample_rate == SAMPLE_RATE,
            r.channels == if downmix_to_mono {
                1u16
            } else {
                2u16
            },
            r.frames_per_buffer == frames_per_buffer,
            r.downmix_to_mono == downmix_to_mono,
    {
        RenderSpec {
            device_id,
            sample_rate: SAMPLE_RATE,
            channels: if downmix_to_mono {
                1
            } else {
                2
            },
            frames_per_buffer,
            downmix_to_mono,
        }
    }
}

/// How many frames can be written now: the free part of the endpoint buffer,
/// at most the frames waiting.
pub fn writable_frames(buffer_frames: u32, padding: u32, waiting: usize) -> (r: usize)
    ensures
        r == if (if padding < buffer_frames {
            buffer_frames - padding
        } else {
            0int
        }) < waiting {
            (if padding < buffer_frames {
                buffer_frames - padding
            } else {
                0int
            })
        } else {
            waiting as int
        },
{
    let free = buffer_frames.saturating_sub(padding) as usize;
    if free < waiting {
        free
    } else {
        waiting
    }
}

} // verus!
