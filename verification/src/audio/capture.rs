//! Capture requests and the counters that tell how well a capture keeps up.
use vstd::prelude::*;

use crate::audio::mixer::SAMPLE_RATE;

verus! {

/// A request to capture a microphone.
#[derive(Debug, Clone, PartialEq, Eq)]
pub struct CaptureSpec {
    pub device_id: String,
    pub sample_rate: u32,
    pub channels: u16,
    pub frames_per_buffer: usize,
}

/// A request to capture the audio of a process and its children.
#[derive(Debug, Clone, PartialEq, Eq)]
pub struct ProcessLoopbackSpec {
    pub process_id: u32,
    pub frames_per_buffer: usize,
}

impl CaptureSpec {
    /// Stereo capture of a microphone at the mixer's sample rate.
    pub fn mic(device_id: String, frames_per_buffer: usize) -> (r: CaptureSpec)
        ensures
            r.device_id == device_id,
            r.sample_rate == SAMPLE_RATE,
            r.channels == 2,
            r.frames_per_buffer == frames_per_buffer,
    {
        CaptureSpec { device_id, sample_rate: SAMPLE_RATE, channels: 2, frames_per_buffer }
    }
}

impl ProcessLoopbackSpec {
    /// Capture of a process together with the processes it started.
    pub fn include_process_tree(process_id: u32, frames_per_buffer: usize) -> (r:
        ProcessLoopbackSpec)
        ensures
            r.process_id == process_id,
            r.frames_per_buffer == frames_per_buffer,
    {
        ProcessLoopbackSpec { process_id, frames_per_buffer }
    }
}

/// Counts of how reads of a capture went since the counts were last taken.
#[derive(Debug, Clone, Copy, PartialEq, Eq)]
pub struct CaptureDiagnostics {
    /// Reads that returned no frame.
    pub zero_reads: usize,
    /// Reads that returned fewer frames than asked for.
    pub short_reads: usize,
    /// Frames dropped from the spill buffer.
    pub pending_overflows: usize,
    /// Reads that failed.
    pub errors: usize,
}

/// `a + b`, saturating at `usize::MAX`.
pub open spec fn sat_add(a: usize, b: usize) -> usize {
    if a + b > usize::MAX {
        usize::MAX
    } else {
        (a + b) as usize
    }
}

impl CaptureDiagnostics {
    /// All counts zero.
    pub fn zero() -> (r: CaptureDiagnostics)
        ensures
            r.zero_reads == 0 && r.short_reads == 0 && r.pending_overflows == 0 && r.errors == 0,
    {
        CaptureDiagnostics { zero_reads: 0, short_reads: 0, pending_overflows: 0, errors: 0 }
    }

    /// Records the shape of a read: the frames dropped from the spill buffer
    /// meanwhile, and whether it returned nothing or fewer frames than asked
    /// for. A read that asked for nothing counts only the dropped frames.
    pub fn record_read_shape(&mut self, overflowed: usize, written: usize, requested: usize)
        ensures
            final(self).pending_overflows == sat_add(old(self).pending_overflows, overflowed),
            final(self).zero_reads == if requested > 0 && written == 0 {
                sat_add(old(self).zero_reads, 1)
            } else {
                old(self).zero_reads
            },
            final(self).short_reads == if requested > 0 && 0 < written < requested {
                sat_add(old(self).short_reads, 1)
            } else {
                old(self).short_reads
            },
            final(self).errors == old(self).errors,
    {
        self.pending_overflows = self.pending_overflows.saturating_add(overflowed);
        if requested == 0 {
            return;
        }
        if written == 0 {
            self.zero_reads = self.zero_reads.saturating_add(1);
        } else if written < requested {
            self.short_reads = self.short_reads.saturating_add(1);
        }
    }

    /// Records a failed read.
    pub fn record_capture_error(&mut self)
        ensures
            final(self).errors == sat_add(old(self).errors, 1),
            final(self).zero_reads == old(self).zero_reads,
            final(self).short_reads == old(self).short_reads,
            final(self).pending_overflows == old(self).pending_overflows,
    {
        self.errors = self.errors.saturating_add(1);
    }

    /// The counts, with the frames dropped since the last read added, after
    /// which the counts start again from zero.
    pub fn take(&mut self, overflowed: usize) -> (r: CaptureDiagnostics)
        ensures
            r.pending_overflows == sat_add(old(self).pending_overflows, overflowed),
            r.zero_reads == old(self).zero_reads,
            r.short_reads == old(self).short_reads,
            r.errors == old(self).errors,
            final(self).zero_reads == 0 && final(self).short_reads == 0
                && final(self).pending_overflows == 0 && final(self).errors == 0,
    {
        let r = CaptureDiagnostics {
            zero_reads: self.zero_reads,
            short_reads: self.short_reads,
            pending_overflows: self.pending_overflows.saturating_add(overflowed),
            errors: self.errors,
        };
        *self = CaptureDiagnostics::zero();
        r
    }
}

impl Default for CaptureDiagnostics {
    fn default() -> (r: CaptureDiagnostics)
        ensures
            r.zero_reads == 0 && r.short_reads == 0 && r.pending_overflows == 0 && r.errors == 0,
    {
        CaptureDiagnostics::zero()
    }
}

/// How a captured packet of `available` frames splits when `room` frames fit
/// in the caller's buffer: the frames copied now, and the frames spilled.
pub fn split_packet(available: usize, room: usize) -> (r: (usize, usize))
    ensures
        r.0 == if available < room {
            available
        } else {
            room
        },
        r.1 == available - r.0,
{
    let copy = if available < room {
        available
    } else {
        room
    };
    (copy, available - copy)
}

} // verus!
