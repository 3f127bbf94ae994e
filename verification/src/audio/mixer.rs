//! The mixer's controls, the lookup of one source's control, and the spill
//! buffer that keeps the frames of a capture packet that did not fit.
use vstd::prelude::*;

use std::collections::VecDeque;

use crate::audio::capture::split_packet;
use crate::audio::types::Level;
use crate::duplicate::{duplicate_vec, Duplicate};
use crate::text::{owned, same_text};

verus! {

/// The sample rate of every stream, in frames per second.
pub const SAMPLE_RATE: u32 = 48_000;

/// The default buffer length, in frames (20 ms at the sample rate).
pub const DEFAULT_BUFFER_FRAMES: usize = 960;

/// The gain and mute state of one source.
#[derive(Debug, Clone, PartialEq)]
pub struct SourceControl {
    pub id: String,
    pub gain: Level,
    pub muted: bool,
}

/// The controls of every source and of the output.
#[derive(Debug, Clone, PartialEq)]
pub struct MixerControls {
    pub mic_sources: Vec<SourceControl>,
    pub app_sources: Vec<SourceControl>,
    pub master_gain: Level,
    pub downmix_to_mono: bool,
}

impl Duplicate for SourceControl {
    fn duplicate(&self) -> (r: SourceControl) {
        SourceControl { id: self.id.duplicate(), gain: self.gain, muted: self.muted }
    }
}

/// Two sets of controls with the same content.
pub open spec fn same_controls(a: MixerControls, b: MixerControls) -> bool {
    &&& a.mic_sources@ == b.mic_sources@
    &&& a.app_sources@ == b.app_sources@
    &&& a.master_gain == b.master_gain
    &&& a.downmix_to_mono == b.downmix_to_mono
}

impl MixerControls {
    /// A copy with the same content.
    pub fn duplicate(&self) -> (r: MixerControls)
        ensures
            same_controls(r, *self),
    {
        MixerControls {
            mic_sources: duplicate_vec(&self.mic_sources),
            app_sources: duplicate_vec(&self.app_sources),
            master_gain: self.master_gain,
            downmix_to_mono: self.downmix_to_mono,
        }
    }
}

/// No source controls, unity master gain, mono downmix.
pub open spec fn is_default_controls(c: MixerControls) -> bool {
    &&& c.mic_sources@.len() == 0
    &&& c.app_sources@.len() == 0
    &&& c.master_gain.bits == Level::unity_bits()
    &&& c.downmix_to_mono
}

impl MixerControls {
    /// No source controls, unity master gain, mono downmix.
    pub fn defaults() -> (r: MixerControls)
        ensures
            is_default_controls(r),
    {
        MixerControls {
            mic_sources: Vec::new(),
            app_sources: Vec::new(),
            master_gain: Level::unity(),
            downmix_to_mono: true,
        }
    }
}

impl Default for MixerControls {
    fn default() -> (r: MixerControls)
        ensures
            is_default_controls(r),
    {
        MixerControls::defaults()
    }
}

/// The index of the first control of `id`, or -1.
pub open spec fn source_control_index(controls: Seq<SourceControl>, id: Seq<char>) -> int
    decreases controls.len(),
{
    if controls.len() == 0 {
        -1
    } else if controls[0].id@ == id {
        0
    } else {
        let k = source_control_index(controls.drop_first(), id);
        if k < 0 {
            -1
        } else {
            k + 1
        }
    }
}

proof fn lemma_source_control_index(controls: Seq<SourceControl>, id: Seq<char>)
    ensures
        -1 <= source_control_index(controls, id) < controls.len(),
        source_control_index(controls, id) >= 0 ==> controls[source_control_index(
            controls,
            id,
        )].id@ == id,
    decreases controls.len(),
{
    if controls.len() > 0 {
        lemma_source_control_index(controls.drop_first(), id);
    }
}

/// The control that applies to a source: the first with its id, or unity
/// gain, unmuted.
pub open spec fn effective_control(controls: Seq<SourceControl>, id: Seq<char>, c: SourceControl) -> bool {
    let k = source_control_index(controls, id);
    &&& c.id@ == id
    &&& if k >= 0 {
        c.gain == controls[k].gain && c.muted == controls[k].muted
    } else {
        c.gain.bits == Level::unity_bits() && !c.muted
    }
}

/// The control of source `id`: the first control with that id, or unity
/// gain, unmuted, where there is none.
pub fn source_control(controls: &[SourceControl], id: &str) -> (r: SourceControl)
    ensures
        effective_control(controls@, id@, r),
{
    let n = controls.len();
    let mut k: usize = 0;
    assert(controls@.skip(0) =~= controls@);
    proof {
        lemma_source_control_index(controls@, id@);
    }
    while k < n
        invariant
            n == controls@.len(),
            k <= n,
            source_control_index(controls@, id@) == if source_control_index(
                controls@.skip(k as int),
                id@,
            ) < 0 {
                -1
            } else {
                source_control_index(controls@.skip(k as int), id@) + k
            },
            -1 <= source_control_index(controls@, id@) < controls@.len(),
            source_control_index(controls@, id@) >= 0 ==> controls@[source_control_index(
                controls@,
                id@,
            )].id@ == id@,
        decreases n - k,
    {
        if same_text(controls[k].id.as_str(), id) {
            let c = &controls[k];
            return SourceControl { id: c.id.clone(), gain: c.gain, muted: c.muted };
        }
        assert(controls@.skip(k as int).drop_first() =~= controls@.skip(k + 1));
        k = k + 1;
    }
    SourceControl { id: owned(id), gain: Level::unity(), muted: false }
}

/// The frames pending after `frames` were appended to `pending` and the
/// oldest were dropped down to `capacity`.
pub open spec fn spill_after<F>(pending: Seq<F>, frames: Seq<F>, capacity: int) -> Seq<F> {
    let all = pending + frames;
    if all.len() > capacity {
        all.skip(all.len() - capacity)
    } else {
        all
    }
}

/// How many of the frames were dropped.
pub open spec fn dropped_count(pending_len: int, added: int, capacity: int) -> int {
    if pending_len + added > capacity {
        pending_len + added - capacity
    } else {
        0
    }
}

/// `a + b`, saturating at `usize::MAX`.
pub open spec fn saturating_sum(a: int, b: int) -> int {
    if a + b > usize::MAX {
        usize::MAX as int
    } else {
        a + b
    }
}

/// Below the capacity nothing is dropped: the frames follow the pending ones.
pub proof fn lemma_spill_within_capacity<F>(pending: Seq<F>, frames: Seq<F>, capacity: int)
    requires
        pending.len() + frames.len() <= capacity,
    ensures
        spill_after(pending, frames, capacity) == pending + frames,
        dropped_count(pending.len() as int, frames.len() as int, capacity) == 0,
{
}

/// Beyond the capacity the oldest frames go: what stays is the newest
/// `capacity` frames, in order, and the number dropped is the excess.
pub proof fn lemma_spill_keeps_newest<F>(pending: Seq<F>, frames: Seq<F>, capacity: int)
    requires
        capacity >= 0,
    ensures
        spill_after(pending, frames, capacity).len() <= capacity,
        spill_after(pending, frames, capacity).len() + dropped_count(
            pending.len() as int,
            frames.len() as int,
            capacity,
        ) == pending.len() + frames.len(),
        frames.len() > 0 && capacity > 0 ==> spill_after(pending, frames, capacity).last()
            == frames.last(),
        forall|i: int|
            0 <= i < spill_after(pending, frames, capacity).len() ==> #[trigger] spill_after(
                pending,
                frames,
                capacity,
            )[i] == (pending + frames)[i + dropped_count(
                pending.len() as int,
                frames.len() as int,
                capacity,
            )],
{
}

/// The frames of a capture packet that did not fit in the caller's buffer,
/// kept for the next read; bounded, the oldest are dropped first.
#[derive(Debug, Clone)]
pub struct FrameSpillBuffer<F> {
    pending: VecDeque<F>,
    capacity: usize,
    overflowed: usize,
}

impl<F> FrameSpillBuffer<F> {
    /// The pending frames, oldest first.
    pub closed spec fn pending_view(&self) -> Seq<F> {
        self.pending@
    }

    /// How many frames may be pending.
    pub closed spec fn capacity_view(&self) -> int {
        self.capacity as int
    }

    /// How many frames were dropped since the count was last taken.
    pub closed spec fn overflowed_view(&self) -> int {
        self.overflowed as int
    }

    /// The capacity is at least one frame and never exceeded.
    pub open spec fn wf(&self) -> bool {
        &&& self.capacity_view() >= 1
        &&& self.pending_view().len() <= self.capacity_view()
    }

    /// An empty buffer for `capacity` frames; a capacity of 0 holds one frame.
    pub fn new(capacity: usize) -> (r: FrameSpillBuffer<F>)
        ensures
            r.wf(),
            r.pending_view().len() == 0,
            r.capacity_view() == if capacity == 0 {
                1
            } else {
                capacity as int
            },
            r.overflowed_view() == 0,
    {
        FrameSpillBuffer {
            pending: VecDeque::with_capacity(capacity),
            capacity: if capacity > 1 {
                capacity
            } else {
                1
            },
            overflowed: 0,
        }
    }

    /// How many frames are pending.
    pub fn pending_len(&self) -> (r: usize)
        ensures
            r == self.pending_view().len(),
    {
        self.pending.len()
    }

    /// Appends `frames`, dropping the oldest pending frames beyond the
    /// capacity and counting them.
    pub fn push_frames(&mut self, frames: Vec<F>)
        requires
            old(self).wf(),
        ensures
            final(self).wf(),
            final(self).capacity_view() == old(self).capacity_view(),
            final(self).pending_view() == spill_after(
                old(self).pending_view(),
                frames@,
                old(self).capacity_view(),
            ),
            final(self).overflowed_view() == saturating_sum(
                old(self).overflowed_view(),
                dropped_count(
                    old(self).pending_view().len() as int,
                    frames@.len() as int,
                    old(self).capacity_view(),
                ),
            ),
    {
        let ghost p0 = self.pending@;
        let ghost o0 = self.overflowed as int;
        let ghost all = frames@;
        let cap = self.capacity;
        let mut rest = frames;
        let n = rest.len();
        let mut i: usize = 0;
        while i < n
            invariant
                n == all.len(),
                i <= n,
                rest@ == all.skip(i as int),
                self.capacity == cap,
                cap >= 1,
                self.pending@.len() <= cap,
                self.pending@ == spill_after(p0, all.take(i as int), cap as int),
                self.overflowed as int == saturating_sum(
                    o0,
                    dropped_count(p0.len() as int, i as int, cap as int),
                ),
                o0 >= 0,
            decreases n - i,
        {
            let frame = rest.remove(0);
            assert(rest@ =~= all.skip(i + 1));
            assert(frame == all[i as int]);
            let ghost before = self.pending@;
            self.pending.push_back(frame);
            if self.pending.len() > self.capacity {
                let _ = self.pending.pop_front();
                self.overflowed = self.overflowed.saturating_add(1);
            }
            proof {
                let whole = p0 + all.take(i + 1);
                assert(p0 + all.take(i as int) + seq![frame] =~= whole);
                if whole.len() > cap {
                    assert(self.pending@ =~= whole.skip(whole.len() - cap));
                } else {
                    assert(self.pending@ =~= whole);
                }
            }
            i = i + 1;
        }
        assert(all.take(n as int) =~= all);
    }

    /// Moves the oldest pending frames into `output`, as many as fit; returns
    /// how many were moved.
    pub fn drain_into(&mut self, output: &mut [F]) -> (written: usize)
        requires
            old(self).wf(),
        ensures
            final(self).wf(),
            final(self).capacity_view() == old(self).capacity_view(),
            final(self).overflowed_view() == old(self).overflowed_view(),
            written == if old(self).pending_view().len() < old(output)@.len() {
                old(self).pending_view().len() as int
            } else {
                old(output)@.len() as int
            },
            final(self).pending_view() == old(self).pending_view().skip(written as int),
            final(output)@.len() == old(output)@.len(),
            final(output)@.take(written as int) == old(self).pending_view().take(written as int),
            final(output)@.skip(written as int) == old(output)@.skip(written as int),
    {
        let ghost p0 = self.pending@;
        let ghost out0 = output@;
        let mut written: usize = 0;
        while written < output.len()
            invariant
                written <= out0.len(),
                output@.len() == out0.len(),
                written <= p0.len(),
                self.capacity == old(self).capacity,
                self.overflowed == old(self).overflowed,
                self.pending@ == p0.skip(written as int),
                p0 == old(self).pending@,
                output@.take(written as int) == p0.take(written as int),
                output@.skip(written as int) == out0.skip(written as int),
            ensures
                written == out0.len() || written == p0.len(),
                written <= out0.len(),
                written <= p0.len(),
                self.pending@ == p0.skip(written as int),
                output@.len() == out0.len(),
                output@.take(written as int) == p0.take(written as int),
                output@.skip(written as int) == out0.skip(written as int),
                self.capacity == old(self).capacity,
                self.overflowed == old(self).overflowed,
            decreases out0.len() - written,
        {
            let front = self.pending.pop_front();
            match front {
                Some(frame) => {
                    let ghost o = output@;
                    output[written] = frame;
                    assert(output@.take(written + 1) =~= p0.take(written + 1));
                    assert(output@.skip(written + 1) =~= out0.skip(written + 1)) by {
                        assert(o.skip(written as int).skip(1) =~= o.skip(written + 1));
                        assert(out0.skip(written as int).skip(1) =~= out0.skip(written + 1));
                    }
                    assert(self.pending@ =~= p0.skip(written + 1));
                    written = written + 1;
                },
                None => {
                    break;
                },
            }
        }
        written
    }

    /// Places a capture packet in a read that has filled `output` up to
    /// `written`: the frames that fit follow in `output`, the others are kept
    /// pending as `push_frames` keeps them. Returns how many went to `output`.
    pub fn place_packet(&mut self, output: &mut [F], written: usize, packet: Vec<F>) -> (r: usize) where
        F: Copy,
        requires
            old(self).wf(),
            written <= old(output)@.len(),
        ensures
            r == if packet@.len() < old(output)@.len() - written {
                packet@.len() as int
            } else {
                old(output)@.len() - written
            },
            final(output)@ == old(output)@.take(written as int) + packet@.take(r as int) + old(
                output,
            )@.skip(written + r),
            final(self).wf(),
            final(self).capacity_view() == old(self).capacity_view(),
            final(self).pending_view() == spill_after(
                old(self).pending_view(),
                packet@.skip(r as int),
                old(self).capacity_view(),
            ),
            final(self).overflowed_view() == saturating_sum(
                old(self).overflowed_view(),
                dropped_count(
                    old(self).pending_view().len() as int,
                    packet@.len() - r,
                    old(self).capacity_view(),
                ),
            ),
    {
        let ghost out0 = output@;
        let ghost all = packet@;
        let room = output.len() - written;
        let (copy, _spill) = split_packet(packet.len(), room);
        let mut head = packet;
        let rest = head.split_off(copy);
        let mut i: usize = 0;
        while i < copy
            invariant
                copy <= room,
                copy <= all.len(),
                room == out0.len() - written,
                output@.len() == out0.len(),
                written <= out0.len(),
                written + copy <= output.len(),
                head@ == all.take(copy as int),
                i <= copy,
                output@ == out0.take(written as int) + head@.take(i as int) + out0.skip(written + i),
            decreases copy - i,
        {
            let frame = head[i];
            output[written + i] = frame;
            assert(output@ =~= out0.take(written as int) + head@.take(i + 1) + out0.skip(
                written + i + 1,
            ));
            i = i + 1;
        }
        assert(head@.take(copy as int) =~= all.take(copy as int));
        assert(rest@ =~= all.skip(copy as int));
        if rest.len() > 0 {
            self.push_frames(rest);
        } else {
            assert(self.pending@ + rest@ =~= self.pending@);
        }
        copy
    }

    /// The number of frames dropped since the last call, resetting it to 0.
    pub fn take_overflowed(&mut self) -> (r: usize)
        ensures
            r == old(self).overflowed_view(),
            final(self).overflowed_view() == 0,
            final(self).pending_view() == old(self).pending_view(),
            final(self).capacity_view() == old(self).capacity_view(),
            old(self).wf() ==> final(self).wf(),
    {
        let overflowed = self.overflowed;
        self.overflowed = 0;
        overflowed
    }
}

} // verus!
