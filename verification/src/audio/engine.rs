//! The route engine: the decisions taken when routing starts, stops or its
//! controls change, the status the route worker reports, and the trackers
//! that decide when capture or output pressure is worth a warning.
use vstd::prelude::*;
use vstd::string::*;

use crate::audio::capture::{sat_add, CaptureDiagnostics};
use crate::audio::devices::{contains_device, lists_id, opt_view};
use crate::audio::mixer::{same_controls, MixerControls, SourceControl, DEFAULT_BUFFER_FRAMES};
use crate::audio::sessions::{same_executable, same_exe};
use crate::audio::types::{
    canonical_vb_cable_input_name, is_canonical_vb_cable_input_name,
    is_sixteen_channel_cable_name, is_stopped_status, same_meters, same_status,
    sixteen_channel_cable_name,
    AudioDevice, AudioSession, Level, LevelMeters, MeterReading, RouteState, RouteStatus,
    SessionState,
};
use crate::config::{same_config, AppConfig, AppSourceConfig, ControlUpdate, MicSourceConfig};
use crate::duplicate::Duplicate;
use crate::text::{
    concat, decimal, lemma_lex_le_reflexive, lemma_lex_le_total, lemma_lex_le_transitive, lex_le,
    lex_le_str, owned, push_decimal, same_text,
};

verus! {

/// The span over which capture pressure events are counted, in nanoseconds.
pub const CAPTURE_PRESSURE_WINDOW_NS: u64 = 5_000_000_000;

/// The least time between two pressure warnings, in nanoseconds.
pub const PRESSURE_WARNING_COOLDOWN_NS: u64 = 15_000_000_000;

/// Capture pressure events within a window that are worth a warning.
pub const CAPTURE_PRESSURE_WARNING_THRESHOLD: usize = 1;

/// Consecutive writes that the output refused before a warning.
pub const OUTPUT_ZERO_WRITE_WARNING_THRESHOLD: usize = 30;

/// The least time between two attempts to reopen an application capture, in
/// nanoseconds.
pub const APP_RETRY_INTERVAL_NS: u64 = 1_000_000_000;

/// The time from `since` to `now`, or zero where `now` is earlier: what
/// `Instant::duration_since` gives.
pub open spec fn elapsed(now: u64, since: u64) -> int {
    if now >= since {
        now - since
    } else {
        0
    }
}

/// Whether a warning may be given at `now`: none yet, or the last one at
/// least a cooldown ago.
pub open spec fn cooled_down(last_warning_at: Option<u64>, now: u64) -> bool {
    match last_warning_at {
        Some(last) => elapsed(now, last) >= PRESSURE_WARNING_COOLDOWN_NS,
        None => true,
    }
}

fn elapsed_at_least(now: u64, since: u64, span: u64) -> (r: bool)
    ensures
        r == (elapsed(now, since) >= span),
{
    now.saturating_sub(since) >= span
}

fn may_warn(last_warning_at: Option<u64>, now: u64) -> (r: bool)
    ensures
        r == cooled_down(last_warning_at, now),
{
    match last_warning_at {
        Some(last) => elapsed_at_least(now, last, PRESSURE_WARNING_COOLDOWN_NS),
        None => true,
    }
}

/// Pressure events counted over a sliding window, with a cooldown between
/// warnings.
#[derive(Debug, Clone, Copy, PartialEq, Eq)]
pub struct PressureEventWindow {
    pub started_at: u64,
    pub events: usize,
    pub last_warning_at: Option<u64>,
}

/// The window after `events` more events at `now`, and whether they are worth
/// a warning.
pub open spec fn window_after(
    w: PressureEventWindow,
    events: usize,
    threshold: usize,
    now: u64,
) -> (PressureEventWindow, bool) {
    if events == 0 {
        (w, false)
    } else {
        let restart = elapsed(now, w.started_at) >= CAPTURE_PRESSURE_WINDOW_NS;
        let started_at = if restart {
            now
        } else {
            w.started_at
        };
        let counted = sat_add(
            if restart {
                0usize
            } else {
                w.events
            },
            events,
        );
        if counted < threshold {
            (PressureEventWindow { started_at, events: counted, last_warning_at: w.last_warning_at }, false)
        } else if cooled_down(w.last_warning_at, now) {
            (PressureEventWindow { started_at, events: 0, last_warning_at: Some(now) }, true)
        } else {
            (PressureEventWindow { started_at, events: counted, last_warning_at: w.last_warning_at }, false)
        }
    }
}

/// A warning starts the count again and is remembered; otherwise the last
/// warning stays what it was.
pub proof fn lemma_window_warning(w: PressureEventWindow, events: usize, threshold: usize, now: u64)
    ensures
        window_after(w, events, threshold, now).1 ==> {
            &&& cooled_down(w.last_warning_at, now)
            &&& window_after(w, events, threshold, now).0.last_warning_at == Some(now)
            &&& window_after(w, events, threshold, now).0.events == 0
        },
        !window_after(w, events, threshold, now).1 ==> window_after(
            w,
            events,
            threshold,
            now,
        ).0.last_warning_at == w.last_warning_at,
{
}

/// Two warnings of one window are at least the cooldown apart.
pub proof fn lemma_window_warnings_spaced(
    w: PressureEventWindow,
    first_events: usize,
    second_events: usize,
    threshold: usize,
    first: u64,
    second: u64,
)
    ensures
        ({
            let (w1, warned1) = window_after(w, first_events, threshold, first);
            let (w2, warned2) = window_after(w1, second_events, threshold, second);
            warned1 && warned2 ==> elapsed(second, first) >= PRESSURE_WARNING_COOLDOWN_NS
        }),
{
}

/// The window after the first `k` of a run of calls, call `i` counting
/// `events[i]` at `times[i]`.
pub open spec fn window_before(
    w: PressureEventWindow,
    events: Seq<usize>,
    times: Seq<u64>,
    threshold: usize,
    k: nat,
) -> PressureEventWindow
    decreases k,
{
    if k == 0 {
        w
    } else {
        window_after(
            window_before(w, events, times, threshold, (k - 1) as nat),
            events[k - 1],
            threshold,
            times[k - 1],
        ).0
    }
}

/// Whether call `k` of a run warns.
pub open spec fn warned_at(
    w: PressureEventWindow,
    events: Seq<usize>,
    times: Seq<u64>,
    threshold: usize,
    k: int,
) -> bool {
    window_after(window_before(w, events, times, threshold, k as nat), events[k], threshold, times[k]).1
}

proof fn lemma_last_warning_since(
    w: PressureEventWindow,
    events: Seq<usize>,
    times: Seq<u64>,
    threshold: usize,
    i: int,
    k: int,
)
    requires
        0 <= i < k <= times.len(),
        events.len() == times.len(),
        forall|a: int, b: int| 0 <= a <= b < times.len() ==> times[a] <= times[b],
        warned_at(w, events, times, threshold, i),
    ensures
        window_before(w, events, times, threshold, k as nat).last_warning_at matches Some(t) && times[i]
            <= t <= times[k - 1],
    decreases k,
{
    let before = window_before(w, events, times, threshold, (k - 1) as nat);
    lemma_window_warning(before, events[k - 1], threshold, times[k - 1]);
    if k - 1 > i {
        lemma_last_warning_since(w, events, times, threshold, i, k - 1);
        assert(times[k - 2] <= times[k - 1]);
    }
}

/// In a run of calls at times that do not go back, any two warnings are at
/// least the cooldown apart.
pub proof fn lemma_run_warnings_spaced(
    w: PressureEventWindow,
    events: Seq<usize>,
    times: Seq<u64>,
    threshold: usize,
    i: int,
    j: int,
)
    requires
        events.len() == times.len(),
        0 <= i < j < times.len(),
        forall|a: int, b: int| 0 <= a <= b < times.len() ==> times[a] <= times[b],
        warned_at(w, events, times, threshold, i),
        warned_at(w, events, times, threshold, j),
    ensures
        times[j] - times[i] >= PRESSURE_WARNING_COOLDOWN_NS,
{
    lemma_last_warning_since(w, events, times, threshold, i, j);
    let before = window_before(w, events, times, threshold, j as nat);
    lemma_window_warning(before, events[j], threshold, times[j]);
    assert(times[j - 1] <= times[j]);
}

impl PressureEventWindow {
    /// A window that starts at `now`, with no events and no warning given.
    pub fn new(now: u64) -> (r: PressureEventWindow)
        ensures
            r.started_at == now,
            r.events == 0,
            r.last_warning_at is None,
    {
        PressureEventWindow { started_at: now, events: 0, last_warning_at: None }
    }

    /// Counts `events` at `now`; true when they reach `threshold` within the
    /// window and the cooldown since the last warning has passed, which
    /// starts the count again.
    pub fn record(&mut self, events: usize, threshold: usize, now: u64) -> (r: bool)
        ensures
            (*final(self), r) == window_after(*old(self), events, threshold, now),
    {
        if events == 0 {
            return false;
        }
        if elapsed_at_least(now, self.started_at, CAPTURE_PRESSURE_WINDOW_NS) {
            self.started_at = now;
            self.events = 0;
        }
        self.events = self.events.saturating_add(events);
        if self.events < threshold {
            return false;
        }
        if may_warn(self.last_warning_at, now) {
            self.events = 0;
            self.last_warning_at = Some(now);
            return true;
        }
        false
    }
}

/// The pressure of one microphone capture: totals of its diagnostics and the
/// window of its overflow and error events.
#[derive(Debug, Clone, Copy, PartialEq, Eq)]
pub struct CapturePressureTracker {
    pub window: PressureEventWindow,
    pub zero_reads: usize,
    pub short_reads: usize,
    pub pending_overflows: usize,
    pub errors: usize,
}

impl CapturePressureTracker {
    /// No events yet; the window starts at `now`.
    pub fn new(now: u64) -> (r: CapturePressureTracker)
        ensures
            r.window == PressureEventWindow::new_spec(now),
            r.zero_reads == 0 && r.short_reads == 0 && r.pending_overflows == 0 && r.errors == 0,
    {
        CapturePressureTracker {
            window: PressureEventWindow::new(now),
            zero_reads: 0,
            short_reads: 0,
            pending_overflows: 0,
            errors: 0,
        }
    }

    /// Adds a read's diagnostics; its overflows and errors are pressure
    /// events. True when they are worth a warning.
    pub fn record_diagnostics(&mut self, diagnostics: CaptureDiagnostics, now: u64) -> (r: bool)
        ensures
            final(self).zero_reads == sat_add(old(self).zero_reads, diagnostics.zero_reads),
            final(self).short_reads == sat_add(old(self).short_reads, diagnostics.short_reads),
            final(self).pending_overflows == sat_add(
                old(self).pending_overflows,
                diagnostics.pending_overflows,
            ),
            final(self).errors == sat_add(old(self).errors, diagnostics.errors),
            (final(self).window, r) == window_after(
                old(self).window,
                sat_add(diagnostics.pending_overflows, diagnostics.errors),
                CAPTURE_PRESSURE_WARNING_THRESHOLD,
                now,
            ),
    {
        self.zero_reads = self.zero_reads.saturating_add(diagnostics.zero_reads);
        self.short_reads = self.short_reads.saturating_add(diagnostics.short_reads);
        self.pending_overflows = self.pending_overflows.saturating_add(
            diagnostics.pending_overflows,
        );
        self.errors = self.errors.saturating_add(diagnostics.errors);
        let pressure_events = diagnostics.pending_overflows.saturating_add(diagnostics.errors);
        self.window.record(pressure_events, CAPTURE_PRESSURE_WARNING_THRESHOLD, now)
    }

    /// Adds a failed read, one pressure event. True when it is worth a
    /// warning.
    pub fn record_error(&mut self, now: u64) -> (r: bool)
        ensures
            final(self).errors == sat_add(old(self).errors, 1),
            final(self).zero_reads == old(self).zero_reads,
            final(self).short_reads == old(self).short_reads,
            final(self).pending_overflows == old(self).pending_overflows,
            (final(self).window, r) == window_after(
                old(self).window,
                1,
                CAPTURE_PRESSURE_WARNING_THRESHOLD,
                now,
            ),
    {
        self.errors = self.errors.saturating_add(1);
        self.window.record(1, CAPTURE_PRESSURE_WARNING_THRESHOLD, now)
    }
}

impl PressureEventWindow {
    /// A window that starts at `now`.
    pub open spec fn new_spec(now: u64) -> PressureEventWindow {
        PressureEventWindow { started_at: now, events: 0, last_warning_at: None }
    }
}

/// The pressure of the output: writes it refused.
#[derive(Debug, Clone, Copy, PartialEq, Eq)]
pub struct RenderPressureTracker {
    pub zero_writes: usize,
    pub consecutive_zero_writes: usize,
    pub last_warning_at: Option<u64>,
}

impl RenderPressureTracker {
    /// No refused writes yet.
    pub fn new() -> (r: RenderPressureTracker)
        ensures
            r.zero_writes == 0,
            r.consecutive_zero_writes == 0,
            r.last_warning_at is None,
    {
        RenderPressureTracker { zero_writes: 0, consecutive_zero_writes: 0, last_warning_at: None }
    }

    /// Counts a refused write at `now`; true when enough were refused in a
    /// row and the cooldown since the last warning has passed.
    pub fn record_zero_write(&mut self, now: u64) -> (r: bool)
        ensures
            final(self).zero_writes == sat_add(old(self).zero_writes, 1),
            final(self).consecutive_zero_writes == sat_add(old(self).consecutive_zero_writes, 1),
            r == (final(self).consecutive_zero_writes >= OUTPUT_ZERO_WRITE_WARNING_THRESHOLD
                && cooled_down(old(self).last_warning_at, now)),
            final(self).last_warning_at == if r {
                Some(now)
            } else {
                old(self).last_warning_at
            },
    {
        self.zero_writes = self.zero_writes.saturating_add(1);
        self.consecutive_zero_writes = self.consecutive_zero_writes.saturating_add(1);
        if self.consecutive_zero_writes < OUTPUT_ZERO_WRITE_WARNING_THRESHOLD {
            return false;
        }
        if may_warn(self.last_warning_at, now) {
            self.last_warning_at = Some(now);
            return true;
        }
        false
    }

    /// A write went through: the run of refused writes ends.
    pub fn record_progress(&mut self)
        ensures
            final(self).consecutive_zero_writes == 0,
            final(self).zero_writes == old(self).zero_writes,
            final(self).last_warning_at == old(self).last_warning_at,
    {
        self.consecutive_zero_writes = 0;
    }
}

/// The index of the first device with id `id`, where `i` is that index.
pub open spec fn first_with_id(devices: Seq<AudioDevice>, id: Seq<char>, i: int) -> bool {
    &&& 0 <= i < devices.len()
    &&& devices[i].id@ == id
    &&& forall|j: int| 0 <= j < i ==> (#[trigger] devices[j]).id@ != id
}

/// Where `i` is the index of the first two-channel VB-CABLE input.
pub open spec fn first_canonical(devices: Seq<AudioDevice>, i: int) -> bool {
    &&& 0 <= i < devices.len()
    &&& canonical_vb_cable_input_name(devices[i].name@)
    &&& forall|j: int| 0 <= j < i ==> !canonical_vb_cable_input_name((#[trigger] devices[j]).name@)
}

/// The output that a selection resolves to: the selected device where it is
/// listed, except that a sixteen-channel cable gives way to the two-channel
/// VB-CABLE input where one is listed.
pub open spec fn resolved_output(devices: Seq<AudioDevice>, selected: Option<Seq<char>>) -> Option<
    Seq<char>,
> {
    match selected {
        None => None,
        Some(id) => if exists|i: int| first_with_id(devices, id, i) {
            let i = choose|i: int| first_with_id(devices, id, i);
            if sixteen_channel_cable_name(devices[i].name@) && exists|c: int|
                first_canonical(devices, c) {
                Some(devices[choose|c: int| first_canonical(devices, c)].id@)
            } else {
                Some(devices[i].id@)
            }
        } else {
            None
        },
    }
}

/// The index of the first device with id `id`, if any.
fn find_device(devices: &[AudioDevice], id: &str) -> (r: Option<usize>)
    ensures
        match r {
            Some(i) => first_with_id(devices@, id@, i as int),
            None => forall|i: int| 0 <= i < devices@.len() ==> (#[trigger] devices@[i]).id@ != id@,
        },
{
    let n = devices.len();
    let mut i: usize = 0;
    while i < n
        invariant
            n == devices@.len(),
            i <= n,
            forall|j: int| 0 <= j < i ==> (#[trigger] devices@[j]).id@ != id@,
        decreases n - i,
    {
        if same_text(devices[i].id.as_str(), id) {
            return Some(i);
        }
        i = i + 1;
    }
    None
}

/// The output device that routing uses for a selection.
pub fn resolve_output_device_id(render_devices: &[AudioDevice], selected_id: &Option<String>) -> (r:
    Option<String>)
    ensures
        opt_view(r) == resolved_output(render_devices@, opt_view(*selected_id)),
{
    let wanted = match selected_id {
        Some(id) => id,
        None => {
            return None;
        },
    };
    let i = match find_device(render_devices, wanted.as_str()) {
        Some(i) => i,
        None => {
            assert(!exists|i: int| first_with_id(render_devices@, wanted@, i));
            return None;
        },
    };
    assert forall|k: int| first_with_id(render_devices@, wanted@, k) implies k == i by {
        if k < i {
        } else if k > i {
            assert(render_devices@[i as int].id@ == wanted@);
        }
    }
    let selected = &render_devices[i];
    if is_sixteen_channel_cable_name(selected.name.as_str()) {
        let n = render_devices.len();
        let mut c: usize = 0;
        while c < n
            invariant
                n == render_devices@.len(),
                c <= n,
                forall|j: int|
                    0 <= j < c ==> !canonical_vb_cable_input_name(
                        (#[trigger] render_devices@[j]).name@,
                    ),
                first_with_id(render_devices@, wanted@, i as int),
                forall|k: int| first_with_id(render_devices@, wanted@, k) ==> k == i,
                sixteen_channel_cable_name(render_devices@[i as int].name@),
                opt_view(*selected_id) == Some(wanted@),
            decreases n - c,
        {
            if is_canonical_vb_cable_input_name(render_devices[c].name.as_str()) {
                assert(first_canonical(render_devices@, c as int));
                assert forall|k: int| first_canonical(render_devices@, k) implies k == c by {
                    if k > c {
                        assert(canonical_vb_cable_input_name(render_devices@[c as int].name@));
                    }
                }
                return Some(render_devices[c].id.clone());
            }
            c = c + 1;
        }
    }
    Some(selected.id.clone())
}

/// The name under which a microphone source is reported: its device's name,
/// or the device id where the device is not listed.
pub open spec fn mic_display_name(source: MicSourceConfig, devices: Seq<AudioDevice>) -> Seq<char> {
    if exists|i: int| first_with_id(devices, source.device_id@, i) {
        devices[choose|i: int| first_with_id(devices, source.device_id@, i)].name@
    } else {
        source.device_id@
    }
}

/// The name under which a microphone source is reported.
pub fn source_name_for_mic(source: &MicSourceConfig, devices: &[AudioDevice]) -> (r: String)
    ensures
        r@ == mic_display_name(*source, devices@),
{
    match find_device(devices, source.device_id.as_str()) {
        Some(i) => {
            assert forall|k: int| first_with_id(devices@, source.device_id@, k) implies k == i by {
                if k > i {
                    assert(devices@[i as int].id@ == source.device_id@);
                }
            }
            devices[i].name.clone()
        },
        None => {
            assert(!exists|i: int| first_with_id(devices@, source.device_id@, i));
            source.device_id.clone()
        },
    }
}

/// The warning for a microphone source whose device is not listed.
pub open spec fn unavailable_warning(source: MicSourceConfig, devices: Seq<AudioDevice>) -> Seq<
    char,
> {
    mic_display_name(source, devices) + " is unavailable."@
}

/// The warnings for the microphone sources whose device is not listed, in
/// source order.
pub open spec fn mic_warnings(sources: Seq<MicSourceConfig>, devices: Seq<AudioDevice>) -> Seq<
    Seq<char>,
>
    decreases sources.len(),
{
    if sources.len() == 0 {
        Seq::empty()
    } else {
        let rest = mic_warnings(sources.drop_last(), devices);
        if lists_id(devices, Some(sources.last().device_id@)) {
            rest
        } else {
            rest.push(unavailable_warning(sources.last(), devices))
        }
    }
}

/// The views of a sequence of strings.
pub open spec fn string_views(s: Seq<String>) -> Seq<Seq<char>> {
    Seq::new(s.len(), |i: int| s[i]@)
}

/// The warnings for the microphone sources whose device is not listed.
pub fn source_warnings(config: &AppConfig, capture_devices: &[AudioDevice]) -> (r: Vec<String>)
    ensures
        string_views(r@) == mic_warnings(config.mic_sources@, capture_devices@),
{
    let mut warnings: Vec<String> = Vec::new();
    let n = config.mic_sources.len();
    let mut i: usize = 0;
    while i < n
        invariant
            n == config.mic_sources@.len(),
            i <= n,
            string_views(warnings@) == mic_warnings(
                config.mic_sources@.take(i as int),
                capture_devices@,
            ),
        decreases n - i,
    {
        let source = &config.mic_sources[i];
        assert(config.mic_sources@.take(i + 1).drop_last() =~= config.mic_sources@.take(i as int));
        let listed = contains_device(
            capture_devices,
            &Some(source.device_id.clone()),
        );
        if !listed {
            let name = source_name_for_mic(source, capture_devices);
            let warning = concat(name.as_str(), " is unavailable.");
            let ghost before = string_views(warnings@);
            warnings.push(warning);
            assert(string_views(warnings@) =~= before.push(warning@));
        }
        i = i + 1;
    }
    assert(config.mic_sources@.take(n as int) =~= config.mic_sources@);
    warnings
}

/// The control of a source as its configuration holds it.
pub open spec fn control_matches(id: Seq<char>, gain: Level, muted: bool, c: SourceControl) -> bool {
    c.id@ == id && c.gain == gain && c.muted == muted
}

/// The mixer controls that a configuration holds.
pub open spec fn controls_of_config(config: AppConfig, c: MixerControls) -> bool {
    &&& c.mic_sources@.len() == config.mic_sources@.len()
    &&& forall|i: int|
        0 <= i < c.mic_sources@.len() ==> control_matches(
            config.mic_sources@[i].id@,
            config.mic_sources@[i].gain,
            config.mic_sources@[i].muted,
            #[trigger] c.mic_sources@[i],
        )
    &&& c.app_sources@.len() == config.app_sources@.len()
    &&& forall|i: int|
        0 <= i < c.app_sources@.len() ==> control_matches(
            config.app_sources@[i].id@,
            config.app_sources@[i].gain,
            config.app_sources@[i].muted,
            #[trigger] c.app_sources@[i],
        )
    &&& c.master_gain == config.master_gain
    &&& c.downmix_to_mono == config.downmix_to_mono
}

/// The mixer controls that a configuration holds.
pub fn controls_from_config(config: &AppConfig) -> (r: MixerControls)
    ensures
        controls_of_config(*config, r),
{
    let mut mic_sources: Vec<SourceControl> = Vec::new();
    let n = config.mic_sources.len();
    let mut i: usize = 0;
    while i < n
        invariant
            n == config.mic_sources@.len(),
            i <= n,
            mic_sources@.len() == i,
            forall|j: int|
                0 <= j < i ==> control_matches(
                    config.mic_sources@[j].id@,
                    config.mic_sources@[j].gain,
                    config.mic_sources@[j].muted,
                    #[trigger] mic_sources@[j],
                ),
        decreases n - i,
    {
        let s = &config.mic_sources[i];
        mic_sources.push(SourceControl { id: s.id.clone(), gain: s.gain, muted: s.muted });
        i = i + 1;
    }
    let mut app_sources: Vec<SourceControl> = Vec::new();
    let m = config.app_sources.len();
    let mut j: usize = 0;
    while j < m
        invariant
            m == config.app_sources@.len(),
            j <= m,
            app_sources@.len() == j,
            forall|k: int|
                0 <= k < j ==> control_matches(
                    config.app_sources@[k].id@,
                    config.app_sources@[k].gain,
                    config.app_sources@[k].muted,
                    #[trigger] app_sources@[k],
                ),
        decreases m - j,
    {
        let s = &config.app_sources[j];
        app_sources.push(SourceControl { id: s.id.clone(), gain: s.gain, muted: s.muted });
        j = j + 1;
    }
    MixerControls {
        mic_sources,
        app_sources,
        master_gain: config.master_gain,
        downmix_to_mono: config.downmix_to_mono,
    }
}

/// The mixer controls that an update carries.
pub open spec fn controls_of_update(update: ControlUpdate, c: MixerControls) -> bool {
    &&& c.mic_sources@.len() == update.mic_sources@.len()
    &&& forall|i: int|
        0 <= i < c.mic_sources@.len() ==> control_matches(
            update.mic_sources@[i].id@,
            update.mic_sources@[i].gain,
            update.mic_sources@[i].muted,
            #[trigger] c.mic_sources@[i],
        )
    &&& c.app_sources@.len() == update.app_sources@.len()
    &&& forall|i: int|
        0 <= i < c.app_sources@.len() ==> control_matches(
            update.app_sources@[i].id@,
            update.app_sources@[i].gain,
            update.app_sources@[i].muted,
            #[trigger] c.app_sources@[i],
        )
    &&& c.master_gain == update.master_gain
    &&& c.downmix_to_mono == update.downmix_to_mono
}

/// The mixer controls that an update carries.
pub fn controls_from_update(update: &ControlUpdate) -> (r: MixerControls)
    ensures
        controls_of_update(*update, r),
{
    let mut mic_sources: Vec<SourceControl> = Vec::new();
    let n = update.mic_sources.len();
    let mut i: usize = 0;
    while i < n
        invariant
            n == update.mic_sources@.len(),
            i <= n,
            mic_sources@.len() == i,
            forall|j: int|
                0 <= j < i ==> control_matches(
                    update.mic_sources@[j].id@,
                    update.mic_sources@[j].gain,
                    update.mic_sources@[j].muted,
                    #[trigger] mic_sources@[j],
                ),
        decreases n - i,
    {
        let s = &update.mic_sources[i];
        mic_sources.push(SourceControl { id: s.id.clone(), gain: s.gain, muted: s.muted });
        i = i + 1;
    }
    let mut app_sources: Vec<SourceControl> = Vec::new();
    let m = update.app_sources.len();
    let mut j: usize = 0;
    while j < m
        invariant
            m == update.app_sources@.len(),
            j <= m,
            app_sources@.len() == j,
            forall|k: int|
                0 <= k < j ==> control_matches(
                    update.app_sources@[k].id@,
                    update.app_sources@[k].gain,
                    update.app_sources@[k].muted,
                    #[trigger] app_sources@[k],
                ),
        decreases m - j,
    {
        let s = &update.app_sources[j];
        app_sources.push(SourceControl { id: s.id.clone(), gain: s.gain, muted: s.muted });
        j = j + 1;
    }
    MixerControls {
        mic_sources,
        app_sources,
        master_gain: update.master_gain,
        downmix_to_mono: update.downmix_to_mono,
    }
}

/// `(id, peak)` pairs put into a map by id in order, a later pair replacing
/// the peak of an earlier one with the same id.
pub open spec fn peak_map(entries: Seq<(Seq<char>, Level)>) -> Map<Seq<char>, Level>
    decreases entries.len(),
{
    if entries.len() == 0 {
        Map::empty()
    } else {
        peak_map(entries.drop_last()).insert(entries.last().0, entries.last().1)
    }
}

/// Readings that hold the map `m`: one reading per id, ordered by id, each
/// with the peak that `m` gives its id.
pub open spec fn readings_hold(m: Map<Seq<char>, Level>, r: Seq<MeterReading>) -> bool {
    &&& forall|i: int, j: int|
        #![trigger r[i], r[j]]
        0 <= i < j < r.len() ==> lex_le(r[i].id@, r[j].id@) && r[i].id@ != r[j].id@
    &&& forall|k: int|
        0 <= k < r.len() ==> m.contains_key(#[trigger] r[k].id@) && m[r[k].id@] == r[k].peak
    &&& forall|key: Seq<char>|
        #[trigger] m.contains_key(key) ==> exists|k: int| 0 <= k < r.len() && #[trigger] r[k].id@ == key
}

/// Puts a reading among readings ordered by id: the peak of its id is
/// replaced, or the reading goes in at its place.
fn put_reading(
    out: &mut Vec<MeterReading>,
    id: String,
    peak: Level,
    Ghost(m): Ghost<Map<Seq<char>, Level>>,
)
    requires
        readings_hold(m, old(out)@),
    ensures
        readings_hold(m.insert(id@, peak), final(out)@),
{
    let n = out.len();
    let mut p: usize = 0;
    while p < n && !same_text(out[p].id.as_str(), id.as_str()) && lex_le_str(
        out[p].id.as_str(),
        id.as_str(),
    )
        invariant
            n == out@.len(),
            p <= n,
            readings_hold(m, out@),
            forall|k: int| 0 <= k < p ==> lex_le((#[trigger] out@[k]).id@, id@) && out@[k].id@ != id@,
        decreases n - p,
    {
        p = p + 1;
    }
    let ghost o = out@;
    let ghost mi = m.insert(id@, peak);
    let ghost idv = id@;
    if p < n && same_text(out[p].id.as_str(), id.as_str()) {
        out.set(p, MeterReading { id, peak });
        proof {
            let r = out@;
            assert(r =~= o.update(p as int, r[p as int]));
            assert forall|k: int| 0 <= k < r.len() implies (#[trigger] r[k]).id@ == o[k].id@ by {}
            assert forall|k: int| 0 <= k < r.len() implies mi.contains_key(#[trigger] r[k].id@)
                && mi[r[k].id@] == r[k].peak by {
                if k != p {
                    if k < p {
                        assert(o[k].id@ != o[p as int].id@);
                    } else {
                        assert(o[p as int].id@ != o[k].id@);
                    }
                    assert(m.contains_key(o[k].id@));
                }
            }
            assert forall|key: Seq<char>| #[trigger] mi.contains_key(key) implies exists|k: int|
                0 <= k < r.len() && #[trigger] r[k].id@ == key by {
                if key == idv {
                    assert(r[p as int].id@ == key);
                } else {
                    assert(m.contains_key(key));
                    let k = choose|k: int| 0 <= k < o.len() && #[trigger] o[k].id@ == key;
                    assert(r[k].id@ == key);
                }
            }
        }
    } else {
        proof {
            if p < n {
                lemma_lex_le_total(o[p as int].id@, idv);
                lemma_lex_le_reflexive(idv);
            }
        }
        out.insert(p, MeterReading { id, peak });
        proof {
            let r = out@;
            assert(r =~= o.insert(p as int, r[p as int]));
            assert(r[p as int].id@ == idv);
            assert forall|i: int, j: int| 0 <= i < j < r.len() implies lex_le(r[i].id@, r[j].id@)
                && r[i].id@ != r[j].id@ by {
                if j < p {
                    assert(r[i] == o[i] && r[j] == o[j]);
                } else if j == p {
                    assert(r[i] == o[i]);
                } else if i == p {
                    assert(r[j] == o[j - 1]);
                    if j - 1 > p {
                        assert(lex_le(o[p as int].id@, o[j - 1].id@));
                        lemma_lex_le_transitive(idv, o[p as int].id@, o[j - 1].id@);
                        if idv == o[j - 1].id@ {
                            assert(lex_le(o[p as int].id@, idv));
                        }
                    }
                } else if i < p {
                    assert(r[i] == o[i] && r[j] == o[j - 1]);
                } else {
                    assert(r[i] == o[i - 1] && r[j] == o[j - 1]);
                }
            }
            assert forall|k: int| 0 <= k < r.len() implies mi.contains_key(#[trigger] r[k].id@)
                && mi[r[k].id@] == r[k].peak by {
                if k < p {
                    assert(r[k] == o[k]);
                    assert(m.contains_key(o[k].id@));
                } else if k > p {
                    assert(r[k] == o[k - 1]);
                    assert(m.contains_key(o[k - 1].id@));
                    if k - 1 > p {
                        assert(lex_le(o[p as int].id@, o[k - 1].id@));
                        if idv == o[k - 1].id@ {
                            assert(lex_le(o[p as int].id@, idv));
                        }
                    }
                }
            }
            assert forall|key: Seq<char>| #[trigger] mi.contains_key(key) implies exists|k: int|
                0 <= k < r.len() && #[trigger] r[k].id@ == key by {
                if key == idv {
                    assert(r[p as int].id@ == key);
                } else {
                    assert(m.contains_key(key));
                    let k = choose|k: int| 0 <= k < o.len() && #[trigger] o[k].id@ == key;
                    if k < p {
                        assert(r[k] == o[k]);
                    } else {
                        assert(r[k + 1] == o[k]);
                    }
                }
            }
        }
    }
}

/// The silent reading of each microphone source, in source order.
pub open spec fn mic_silent_entries(s: Seq<MicSourceConfig>) -> Seq<(Seq<char>, Level)> {
    Seq::new(s.len(), |i: int| (s[i].id@, Level { bits: 0 }))
}

/// The silent reading of each application source, in source order.
pub open spec fn app_silent_entries(s: Seq<AppSourceConfig>) -> Seq<(Seq<char>, Level)> {
    Seq::new(s.len(), |i: int| (s[i].id@, Level { bits: 0 }))
}

/// A silent reading for the id of every source of a configuration, ordered by
/// id with each id once, and a silent output.
pub open spec fn silent_meters_for(config: AppConfig, m: LevelMeters) -> bool {
    &&& readings_hold(peak_map(mic_silent_entries(config.mic_sources@)), m.mic_peaks@)
    &&& readings_hold(peak_map(app_silent_entries(config.app_sources@)), m.app_peaks@)
    &&& m.output_peak.bits == 0
}

/// Silent readings for every source of a configuration.
pub fn meters_for_config(config: &AppConfig) -> (r: LevelMeters)
    ensures
        silent_meters_for(*config, r),
{
    let ghost mics = mic_silent_entries(config.mic_sources@);
    let mut mic_peaks: Vec<MeterReading> = Vec::new();
    let n = config.mic_sources.len();
    let mut i: usize = 0;
    while i < n
        invariant
            n == config.mic_sources@.len(),
            mics == mic_silent_entries(config.mic_sources@),
            i <= n,
            readings_hold(peak_map(mics.take(i as int)), mic_peaks@),
        decreases n - i,
    {
        let ghost before = peak_map(mics.take(i as int));
        let silent = Level::silent();
        assert(mics.take(i + 1).drop_last() =~= mics.take(i as int));
        assert(mics.take(i + 1).last() == (config.mic_sources@[i as int].id@, silent));
        put_reading(&mut mic_peaks, config.mic_sources[i].id.clone(), silent, Ghost(before));
        i = i + 1;
    }
    assert(mics.take(n as int) =~= mics);
    let ghost apps = app_silent_entries(config.app_sources@);
    let mut app_peaks: Vec<MeterReading> = Vec::new();
    let m = config.app_sources.len();
    let mut j: usize = 0;
    while j < m
        invariant
            m == config.app_sources@.len(),
            apps == app_silent_entries(config.app_sources@),
            j <= m,
            readings_hold(peak_map(apps.take(j as int)), app_peaks@),
        decreases m - j,
    {
        let ghost before = peak_map(apps.take(j as int));
        let silent = Level::silent();
        assert(apps.take(j + 1).drop_last() =~= apps.take(j as int));
        assert(apps.take(j + 1).last() == (config.app_sources@[j as int].id@, silent));
        put_reading(&mut app_peaks, config.app_sources[j].id.clone(), silent, Ghost(before));
        j = j + 1;
    }
    assert(apps.take(m as int) =~= apps);
    LevelMeters { mic_peaks, app_peaks, output_peak: Level::silent() }
}

/// The message when the selected output cannot be used.
pub open spec fn output_unavailable_message() -> Seq<char> {
    "Selected output is unavailable"@
}

/// The advice when the selected output cannot be used.
pub open spec fn output_unavailable_advice() -> Seq<char> {
    "Pick an active render endpoint, ideally VB-CABLE input."@
}

/// The message when no source is configured.
pub open spec fn no_sources_message() -> Seq<char> {
    "No input sources configured"@
}

/// The advice when no source is configured.
pub open spec fn no_sources_advice() -> Seq<char> {
    "Add at least one microphone or application source."@
}

/// The message of a route that starts.
pub open spec fn routing_message() -> Seq<char> {
    "Routing to selected output"@
}

/// A status with no readings and one warning.
pub open spec fn refusal_status(s: RouteStatus, state: RouteState, message: Seq<char>, advice: Seq<
    char,
>) -> bool {
    &&& s.state == state
    &&& s.message@ == message
    &&& s.meters.mic_peaks@.len() == 0
    &&& s.meters.app_peaks@.len() == 0
    &&& s.meters.output_peak.bits == 0
    &&& s.warnings@.len() == 1
    &&& s.warnings@[0]@ == advice
}

fn refusal(state: RouteState, message: &str, advice: &str) -> (r: RouteStatus)
    ensures
        refusal_status(r, state, message@, advice@),
{
    let mut warnings: Vec<String> = Vec::new();
    warnings.push(owned(advice));
    RouteStatus { state, message: owned(message), meters: LevelMeters::empty(), warnings }
}

/// What a route worker starts with.
#[derive(Debug, Clone)]
pub struct WorkerPlan {
    /// The configuration, with the resolved output.
    pub config: AppConfig,
    pub controls: MixerControls,
    pub status: RouteStatus,
}

/// What to do with the route worker after a start request.
#[derive(Debug, Clone)]
pub enum StartDecision {
    /// Routing cannot start: stop any worker and report the status.
    Refused(RouteStatus),
    /// Stop any worker and start one with the plan.
    Launch(WorkerPlan),
}

/// The decisions of the route engine; the worker thread itself is run by the
/// caller, which hands back the status it reports.
#[derive(Debug)]
pub struct AudioEngine {
    controls: MixerControls,
    status: RouteStatus,
}

impl AudioEngine {
    /// The controls that a running worker uses.
    pub closed spec fn controls_view(&self) -> MixerControls {
        self.controls
    }

    /// The last status known.
    pub closed spec fn status_view(&self) -> RouteStatus {
        self.status
    }

    /// A stopped engine with the default controls.
    pub fn new() -> (r: AudioEngine)
        ensures
            is_stopped_status(r.status_view()),
            crate::audio::mixer::is_default_controls(r.controls_view()),
    {
        AudioEngine { controls: MixerControls::defaults(), status: RouteStatus::stopped() }
    }

    /// A copy of the controls that a running worker uses.
    pub fn controls(&self) -> (r: MixerControls)
        ensures
            same_controls(r, self.controls_view()),
    {
        self.controls.duplicate()
    }

    /// Decides how routing starts for `config`, given the capture and render
    /// devices that are listed: refused (the output does not resolve to a
    /// listed device, or no source is configured), else launched with the
    /// configuration's controls, silent meters and a warning for each
    /// microphone whose device is not listed.
    pub fn start(
        &mut self,
        config: &AppConfig,
        capture_devices: &[AudioDevice],
        render_devices: &[AudioDevice],
    ) -> (r: StartDecision)
        ensures
            ({
                let out = resolved_output(render_devices@, opt_view(config.output_device_id));
                match r {
                    StartDecision::Refused(s) => {
                        &&& same_status(final(self).status_view(), s)
                        &&& final(self).controls_view() == old(self).controls_view()
                        &&& if out is None {
                            refusal_status(
                                s,
                                RouteState::DeviceMissing,
                                output_unavailable_message(),
                                output_unavailable_advice(),
                            )
                        } else {
                            &&& config.mic_sources@.len() == 0
                            &&& config.app_sources@.len() == 0
                            &&& refusal_status(
                                s,
                                RouteState::DeviceMissing,
                                no_sources_message(),
                                no_sources_advice(),
                            )
                        }
                    },
                    StartDecision::Launch(plan) => {
                        &&& out is Some
                        &&& config.mic_sources@.len() + config.app_sources@.len() > 0
                        &&& plan.status.state == RouteState::Running
                        &&& plan.status.message@ == routing_message()
                        &&& silent_meters_for(*config, plan.status.meters)
                        &&& string_views(plan.status.warnings@) == mic_warnings(
                            config.mic_sources@,
                            capture_devices@,
                        )
                        &&& controls_of_config(*config, plan.controls)
                        &&& opt_view(plan.config.output_device_id) == out
                        &&& plan.config.mic_sources@ == config.mic_sources@
                        &&& plan.config.app_sources@ == config.app_sources@
                        &&& plan.config.master_gain == config.master_gain
                        &&& plan.config.buffer_frames == config.buffer_frames
                        &&& plan.config.downmix_to_mono == config.downmix_to_mono
                        &&& plan.config.shortcuts == config.shortcuts
                        &&& plan.config.start_with_windows == config.start_with_windows
                        &&& plan.config.minimize_to_tray == config.minimize_to_tray
                        &&& same_status(final(self).status_view(), plan.status)
                        &&& same_controls(final(self).controls_view(), plan.controls)
                    },
                }
            }),
    {
        let output_device_id = match resolve_output_device_id(
            render_devices,
            &config.output_device_id,
        ) {
            Some(id) => id,
            None => {
                self.status = refusal(
                    RouteState::DeviceMissing,
                    "Selected output is unavailable",
                    "Pick an active render endpoint, ideally VB-CABLE input.",
                );
                return StartDecision::Refused(self.status.duplicate());
            },
        };
        if !contains_device(render_devices, &Some(output_device_id.clone())) {
            proof {
                let out = resolved_output(render_devices@, opt_view(config.output_device_id));
                let id = config.output_device_id->Some_0@;
                let i = choose|i: int| first_with_id(render_devices@, id, i);
                if sixteen_channel_cable_name(render_devices@[i].name@) && exists|c: int|
                    first_canonical(render_devices@, c) {
                    let c = choose|c: int| first_canonical(render_devices@, c);
                    assert(render_devices@[c].id@ == output_device_id@);
                } else {
                    assert(render_devices@[i].id@ == output_device_id@);
                }
            }
            self.status = refusal(
                RouteState::DeviceMissing,
                "Selected output is unavailable",
                "Pick an active render endpoint, ideally VB-CABLE input.",
            );
            return StartDecision::Refused(self.status.duplicate());
        }
        if config.mic_sources.len() == 0 && config.app_sources.len() == 0 {
            self.status = refusal(
                RouteState::DeviceMissing,
                "No input sources configured",
                "Add at least one microphone or application source.",
            );
            return StartDecision::Refused(self.status.duplicate());
        }
        let warnings = source_warnings(config, capture_devices);
        self.controls = controls_from_config(config);
        self.status = RouteStatus {
            state: RouteState::Running,
            message: owned("Routing to selected output"),
            meters: meters_for_config(config),
            warnings,
        };
        let mut worker_config = config.duplicate();
        worker_config.output_device_id = Some(output_device_id);
        StartDecision::Launch(
            WorkerPlan {
                config: worker_config,
                controls: self.controls.duplicate(),
                status: self.status.duplicate(),
            },
        )
    }

    /// Stops routing: the status becomes that of a stopped route, which is
    /// returned. The caller stops the worker.
    pub fn stop(&mut self) -> (r: RouteStatus)
        ensures
            is_stopped_status(r),
            same_status(final(self).status_view(), r),
            final(self).controls_view() == old(self).controls_view(),
    {
        self.status = RouteStatus::stopped();
        self.status.duplicate()
    }

    /// Replaces the controls by those of the update; the caller hands them to
    /// a running worker. Returns the current status.
    pub fn update_controls(&mut self, controls: &ControlUpdate, worker_status: Option<RouteStatus>) -> (r:
        RouteStatus)
        ensures
            controls_of_update(*controls, final(self).controls_view()),
            same_status(final(self).status_view(), r),
            match worker_status {
                Some(s) => same_status(r, s),
                None => same_status(r, old(self).status_view()),
            },
    {
        self.controls = controls_from_update(controls);
        self.current_status(worker_status)
    }

    /// The current status: what a running worker last reported, else the
    /// status last known.
    pub fn current_status(&mut self, worker_status: Option<RouteStatus>) -> (r: RouteStatus)
        ensures
            same_status(final(self).status_view(), r),
            final(self).controls_view() == old(self).controls_view(),
            match worker_status {
                Some(s) => same_status(r, s),
                None => same_status(r, old(self).status_view()),
            },
    {
        match worker_status {
            Some(s) => {
                self.status = s;
            },
            None => {},
        }
        self.status.duplicate()
    }
}

/// The warning when a microphone capture falls behind.
pub open spec fn capture_pressure_warning() -> Seq<char> {
    "Microphone capture is falling behind; increase buffer size or close audio-heavy apps."@
}

/// The warning when the output does not take audio quickly enough.
pub open spec fn output_pressure_warning() -> Seq<char> {
    "Output device is not accepting audio quickly enough; close apps using the virtual mic or increase buffer size."@
}

/// The warning when a microphone capture falls behind.
pub fn capture_pressure_warning_text() -> (r: String)
    ensures
        r@ == capture_pressure_warning(),
{
    owned("Microphone capture is falling behind; increase buffer size or close audio-heavy apps.")
}

/// The warning when the output does not take audio quickly enough.
pub fn output_pressure_warning_text() -> (r: String)
    ensures
        r@ == output_pressure_warning(),
{
    owned(
        "Output device is not accepting audio quickly enough; close apps using the virtual mic or increase buffer size.",
    )
}

/// The advice added to a failed route that has no warning yet.
pub open spec fn failure_advice() -> Seq<char> {
    "Adjust selections, then start again."@
}

/// Marks the route as failed with `message`; readings are cleared, and the
/// advice is added where there is no warning.
pub fn set_worker_failure(status: &mut RouteStatus, message: &str)
    ensures
        final(status).state == RouteState::CaptureFailed,
        final(status).message@ == message@,
        final(status).meters.mic_peaks@.len() == 0,
        final(status).meters.app_peaks@.len() == 0,
        final(status).meters.output_peak.bits == 0,
        final(status).warnings@ == if old(status).warnings@.len() == 0 {
            final(status).warnings@
        } else {
            old(status).warnings@
        },
        old(status).warnings@.len() == 0 ==> final(status).warnings@.len() == 1
            && final(status).warnings@[0]@ == failure_advice(),
{
    status.state = RouteState::CaptureFailed;
    status.message = owned(message);
    status.meters = LevelMeters::empty();
    if status.warnings.len() == 0 {
        status.warnings.push(owned("Adjust selections, then start again."));
    }
}

/// Adds a warning unless the same text is already there.
pub fn push_worker_warning(status: &mut RouteStatus, warning: String)
    ensures
        final(status).state == old(status).state,
        final(status).message == old(status).message,
        same_meters(final(status).meters, old(status).meters),
        final(status).warnings@ == if string_views(old(status).warnings@).contains(warning@) {
            old(status).warnings@
        } else {
            old(status).warnings@.push(warning)
        },
{
    let n = status.warnings.len();
    let mut i: usize = 0;
    while i < n
        invariant
            n == status.warnings@.len(),
            i <= n,
            forall|j: int| 0 <= j < i ==> (#[trigger] status.warnings@[j])@ != warning@,
        decreases n - i,
    {
        if status.warnings[i] == warning {
            assert(string_views(status.warnings@)[i as int] == warning@);
            return;
        }
        i = i + 1;
    }
    assert(!string_views(status.warnings@).contains(warning@)) by {
        if string_views(status.warnings@).contains(warning@) {
            let j = choose|j: int|
                0 <= j < status.warnings@.len() && string_views(status.warnings@)[j] == warning@;
            assert(status.warnings@[j]@ != warning@);
        }
    }
    status.warnings.push(warning);
}

/// One source as the worker sees it: its id, its meter peak, and whether its
/// capture is open.
#[derive(Debug, Clone)]
pub struct SourceActivity {
    pub id: String,
    pub peak: Level,
    pub capturing: bool,
}

/// How many of the sources capture.
pub open spec fn capturing_count(s: Seq<SourceActivity>) -> nat
    decreases s.len(),
{
    if s.len() == 0 {
        0
    } else {
        capturing_count(s.drop_last()) + if s.last().capturing {
            1nat
        } else {
            0nat
        }
    }
}

/// The message of a running route with `active` open captures.
pub open spec fn running_message(active: nat) -> Seq<char> {
    if active == 0 {
        "Waiting for configured sources"@
    } else if active == 1 {
        "Routing 1 source to selected output"@
    } else {
        "Routing "@ + decimal(active) + " sources to selected output"@
    }
}

/// The reading of each source, in source order.
pub open spec fn activity_entries(s: Seq<SourceActivity>) -> Seq<(Seq<char>, Level)> {
    Seq::new(s.len(), |i: int| (s[i].id@, s[i].peak))
}

/// The readings of the sources: one per id, ordered by id, each with the
/// peak of the last source of that id.
pub open spec fn readings_of(s: Seq<SourceActivity>, r: Seq<MeterReading>) -> bool {
    readings_hold(peak_map(activity_entries(s)), r)
}

fn readings(sources: &[SourceActivity]) -> (r: (Vec<MeterReading>, usize))
    ensures
        readings_of(sources@, r.0@),
        r.1 == capturing_count(sources@),
{
    let ghost entries = activity_entries(sources@);
    let n = sources.len();
    let mut out: Vec<MeterReading> = Vec::new();
    let mut active: usize = 0;
    let mut i: usize = 0;
    while i < n
        invariant
            n == sources@.len(),
            entries == activity_entries(sources@),
            i <= n,
            readings_hold(peak_map(entries.take(i as int)), out@),
            active == capturing_count(sources@.take(i as int)),
            active <= i,
        decreases n - i,
    {
        let s = &sources[i];
        let ghost before = peak_map(entries.take(i as int));
        assert(entries.take(i + 1).drop_last() =~= entries.take(i as int));
        assert(entries.take(i + 1).last() == (s.id@, s.peak));
        put_reading(&mut out, s.id.clone(), s.peak, Ghost(before));
        assert(sources@.take(i + 1).drop_last() =~= sources@.take(i as int));
        if s.capturing {
            active = active + 1;
        }
        i = i + 1;
    }
    assert(sources@.take(n as int) =~= sources@);
    assert(entries.take(n as int) =~= entries);
    (out, active)
}

/// Reports a running route: the readings of every source and of the output,
/// and how many sources capture; warnings are kept.
pub fn set_running_status(
    status: &mut RouteStatus,
    mic_sources: &[SourceActivity],
    app_sources: &[SourceActivity],
    output_peak: Level,
)
    ensures
        final(status).state == RouteState::Running,
        final(status).message@ == running_message(
            capturing_count(mic_sources@) + capturing_count(app_sources@),
        ),
        readings_of(mic_sources@, final(status).meters.mic_peaks@),
        readings_of(app_sources@, final(status).meters.app_peaks@),
        final(status).meters.output_peak == output_peak,
        final(status).warnings@ == old(status).warnings@,
{
    let (mic_peaks, mic_active) = readings(mic_sources);
    let (app_peaks, app_active) = readings(app_sources);
    let active: u128 = mic_active as u128 + app_active as u128;
    status.state = RouteState::Running;
    status.message = if active == 0 {
        owned("Waiting for configured sources")
    } else if active == 1 {
        owned("Routing 1 source to selected output")
    } else {
        let mut m = owned("Routing ");
        push_decimal(&mut m, active);
        m.append(" sources to selected output");
        m
    };
    status.meters = LevelMeters { mic_peaks, app_peaks, output_peak };
}

/// The message when the route's output cannot be opened or written.
pub open spec fn output_render_failed(error: Seq<char>) -> Seq<char> {
    "Output render failed: "@ + error
}

/// The message when the route's output cannot be opened or written.
pub fn output_render_failed_message(error: &str) -> (r: String)
    ensures
        r@ == output_render_failed(error@),
{
    concat("Output render failed: ", error)
}

/// The message when the route has no output to write to.
pub fn output_unavailable_text() -> (r: String)
    ensures
        r@ == output_unavailable_message(),
{
    owned("Selected output is unavailable")
}

/// What the route worker reports.
#[derive(Debug, Clone)]
pub enum WorkerEvent {
    /// The readings of the sources and of the output after a pass.
    Readings { mic: Vec<SourceActivity>, app: Vec<SourceActivity>, output_peak: Level },
    /// A warning to show.
    Warning(String),
    /// The route failed with this message.
    Failure(String),
}

/// How a worker's status may change in one step: a failed status stays as it
/// is, and a running or failed status stays running or failed.
pub open spec fn worker_transition(before: RouteStatus, after: RouteStatus) -> bool {
    &&& before.state == RouteState::CaptureFailed ==> after == before
    &&& (before.state == RouteState::Running || before.state == RouteState::CaptureFailed) ==> (
    after.state == RouteState::Running || after.state == RouteState::CaptureFailed)
}

/// Applies what the worker reports to its status. Once the status reports a
/// failure, nothing changes it any more.
pub fn apply_worker_event(status: &mut RouteStatus, event: WorkerEvent)
    ensures
        worker_transition(*old(status), *final(status)),
        old(status).state != RouteState::CaptureFailed ==> match event {
            WorkerEvent::Readings { mic, app, output_peak } => {
                &&& final(status).state == RouteState::Running
                &&& final(status).message@ == running_message(
                    capturing_count(mic@) + capturing_count(app@),
                )
                &&& readings_of(mic@, final(status).meters.mic_peaks@)
                &&& readings_of(app@, final(status).meters.app_peaks@)
                &&& final(status).meters.output_peak == output_peak
                &&& final(status).warnings@ == old(status).warnings@
            },
            WorkerEvent::Warning(warning) => {
                &&& final(status).state == old(status).state
                &&& final(status).message == old(status).message
                &&& same_meters(final(status).meters, old(status).meters)
                &&& final(status).warnings@ == if string_views(old(status).warnings@).contains(
                    warning@,
                ) {
                    old(status).warnings@
                } else {
                    old(status).warnings@.push(warning)
                }
            },
            WorkerEvent::Failure(message) => {
                &&& final(status).state == RouteState::CaptureFailed
                &&& final(status).message@ == message@
                &&& final(status).meters.mic_peaks@.len() == 0
                &&& final(status).meters.app_peaks@.len() == 0
                &&& final(status).meters.output_peak.bits == 0
                &&& old(status).warnings@.len() != 0 ==> final(status).warnings@
                    == old(status).warnings@
                &&& old(status).warnings@.len() == 0 ==> final(status).warnings@.len() == 1
                    && final(status).warnings@[0]@ == failure_advice()
            },
        },
{
    if status.state == RouteState::CaptureFailed {
        return;
    }
    match event {
        WorkerEvent::Readings { mic, app, output_peak } => {
            set_running_status(status, mic.as_slice(), app.as_slice(), output_peak);
        },
        WorkerEvent::Warning(warning) => {
            push_worker_warning(status, warning);
        },
        WorkerEvent::Failure(message) => {
            set_worker_failure(status, message.as_str());
        },
    }
}

proof fn lemma_worker_states(statuses: Seq<RouteStatus>, j: int)
    requires
        0 <= j < statuses.len(),
        statuses[0].state == RouteState::Running,
        forall|k: int|
            #![trigger statuses[k]]
            0 <= k < statuses.len() - 1 ==> worker_transition(statuses[k], statuses[k + 1]),
    ensures
        statuses[j].state == RouteState::Running || statuses[j].state == RouteState::CaptureFailed,
    decreases j,
{
    if j > 0 {
        lemma_worker_states(statuses, j - 1);
        assert(worker_transition(statuses[j - 1], statuses[j]));
    }
}

/// The statuses of a route worker that starts running: every one is running
/// or failed, and once one is failed every later one is the same.
pub proof fn lemma_failed_route_stays_failed(statuses: Seq<RouteStatus>, i: int, j: int)
    requires
        0 <= i <= j < statuses.len(),
        statuses[0].state == RouteState::Running,
        forall|k: int|
            #![trigger statuses[k]]
            0 <= k < statuses.len() - 1 ==> worker_transition(statuses[k], statuses[k + 1]),
    ensures
        statuses[j].state == RouteState::Running || statuses[j].state == RouteState::CaptureFailed,
        statuses[i].state == RouteState::CaptureFailed ==> statuses[j] == statuses[i],
    decreases j - i,
{
    lemma_worker_states(statuses, j);
    if j > i {
        lemma_failed_route_stays_failed(statuses, i, j - 1);
        assert(worker_transition(statuses[j - 1], statuses[j]));
    }
}

/// The process of the first active session of `executable` (in any case).
pub open spec fn selected_process(sessions: Seq<AudioSession>, executable: Seq<char>, i: int) -> bool {
    &&& 0 <= i < sessions.len()
    &&& same_exe(sessions[i].executable@, executable)
    &&& sessions[i].state == SessionState::Active
    &&& forall|j: int|
        0 <= j < i ==> !(same_exe((#[trigger] sessions[j]).executable@, executable)
            && sessions[j].state == SessionState::Active)
}

/// The process id of the first active session of `executable`, if any.
pub fn selected_app_process_id(sessions: &[AudioSession], executable: &str) -> (r: Option<u32>)
    ensures
        match r {
            Some(pid) => exists|i: int|
                selected_process(sessions@, executable@, i) && sessions@[i].process_id == pid,
            None => forall|i: int| !selected_process(sessions@, executable@, i),
        },
{
    let n = sessions.len();
    let mut i: usize = 0;
    while i < n
        invariant
            n == sessions@.len(),
            i <= n,
            forall|j: int|
                0 <= j < i ==> !(same_exe((#[trigger] sessions@[j]).executable@, executable@)
                    && sessions@[j].state == SessionState::Active),
        decreases n - i,
    {
        let s = &sessions[i];
        if same_executable(s.executable.as_str(), executable) && s.state == SessionState::Active {
            assert(selected_process(sessions@, executable@, i as int));
            return Some(s.process_id);
        }
        i = i + 1;
    }
    None
}

/// The buffer length a worker uses: the configured one, at least the default.
pub fn worker_frames(buffer_frames: usize) -> (r: usize)
    ensures
        r == if buffer_frames > DEFAULT_BUFFER_FRAMES {
            buffer_frames
        } else {
            DEFAULT_BUFFER_FRAMES
        },
{
    if buffer_frames > DEFAULT_BUFFER_FRAMES {
        buffer_frames
    } else {
        DEFAULT_BUFFER_FRAMES
    }
}

/// Whether a closed application capture may be reopened at `now`.
pub fn app_retry_due(last_retry: u64, now: u64) -> (r: bool)
    ensures
        r == (elapsed(now, last_retry) >= APP_RETRY_INTERVAL_NS),
{
    elapsed_at_least(now, last_retry, APP_RETRY_INTERVAL_NS)
}

/// Whether one more refused write is worth an output-pressure warning at
/// `now`: it makes the run of refusals reach the threshold and the cooldown
/// since the last warning has passed.
pub open spec fn output_pressure_due(t: RenderPressureTracker, now: u64) -> bool {
    sat_add(t.consecutive_zero_writes, 1) >= OUTPUT_ZERO_WRITE_WARNING_THRESHOLD && cooled_down(
        t.last_warning_at,
        now,
    )
}

/// What happened to one write to the output.
#[derive(Debug, Clone, Copy, PartialEq, Eq)]
pub enum WriteOutcome {
    /// The output took this many frames.
    Wrote(usize),
    /// The write failed.
    Failed,
}

/// What the worker does after a write.
#[derive(Debug, Clone, Copy, PartialEq, Eq)]
pub enum WriteStep {
    /// Continue from this offset into the mix.
    Advance(usize),
    /// The output refused: wait a moment and retry; warn where asked.
    Wait { warn: bool },
    /// Give up: the route failed.
    Fail,
}

/// The step after a write at `offset` into a mix of `total` frames: progress
/// advances the offset and ends a run of refusals; a refusal is counted by
/// the tracker; a failure ends the route.
pub fn render_write_step(
    tracker: &mut RenderPressureTracker,
    offset: usize,
    total: usize,
    outcome: WriteOutcome,
    now: u64,
) -> (r: WriteStep)
    requires
        offset <= total,
    ensures
        match outcome {
            WriteOutcome::Wrote(0) => {
                &&& r == WriteStep::Wait { warn: output_pressure_due(*old(tracker), now) }
                &&& final(tracker).last_warning_at == if output_pressure_due(*old(tracker), now) {
                    Some(now)
                } else {
                    old(tracker).last_warning_at
                }
                &&& final(tracker).zero_writes == sat_add(old(tracker).zero_writes, 1)
                &&& final(tracker).consecutive_zero_writes == sat_add(
                    old(tracker).consecutive_zero_writes,
                    1,
                )
            },
            WriteOutcome::Wrote(n) => {
                &&& r == WriteStep::Advance(
                    if n > total - offset {
                        total
                    } else {
                        (offset + n) as usize
                    },
                )
                &&& final(tracker).consecutive_zero_writes == 0
                &&& final(tracker).zero_writes == old(tracker).zero_writes
                &&& final(tracker).last_warning_at == old(tracker).last_warning_at
            },
            WriteOutcome::Failed => r == WriteStep::Fail && *final(tracker) == *old(tracker),
        },
{
    match outcome {
        WriteOutcome::Wrote(written) => {
            if written == 0 {
                let warn = tracker.record_zero_write(now);
                WriteStep::Wait { warn }
            } else {
                tracker.record_progress();
                if written > total - offset {
                    WriteStep::Advance(total)
                } else {
                    WriteStep::Advance(offset + written)
                }
            }
        },
        WriteOutcome::Failed => WriteStep::Fail,
    }
}

/// Whether the worker goes on after reporting `status`: it stops for good
/// once it reported a failure, so a failed status is never overwritten.
pub fn worker_continues(status: &RouteStatus) -> (r: bool)
    ensures
        r == (status.state != RouteState::CaptureFailed),
{
    status.state != RouteState::CaptureFailed
}

/// What one read of a capture gave.
#[derive(Debug, Clone)]
pub enum CaptureRead {
    /// This many frames, with the capture's diagnostics since the last read.
    Frames(usize, CaptureDiagnostics),
    /// The read failed; the error's description.
    Failed(String),
}

/// What the worker does with a microphone source after a read.
#[derive(Debug, Clone)]
pub struct MicReadStep {
    /// Frames read; none after a failure.
    pub frames: usize,
    /// Whether the capture stays open.
    pub keep_capture: bool,
    /// A warning to add to the status.
    pub warning: Option<String>,
}

/// The warning when a microphone capture could not be opened.
pub open spec fn mic_open_failed(source: MicSourceConfig, error: Seq<char>) -> Seq<char> {
    mic_display_name(source, Seq::empty()) + " capture failed: "@ + error
}

/// The warning when a microphone capture stopped.
pub open spec fn mic_stopped(source: MicSourceConfig, error: Seq<char>) -> Seq<char> {
    mic_display_name(source, Seq::empty()) + " capture stopped: "@ + error
}

/// The warning when a microphone capture could not be opened.
pub fn mic_open_failed_warning(source: &MicSourceConfig, error: &str) -> (r: String)
    ensures
        r@ == mic_open_failed(*source, error@),
{
    let no_devices: Vec<AudioDevice> = Vec::new();
    let name = source_name_for_mic(source, no_devices.as_slice());
    assert(no_devices@ =~= Seq::<AudioDevice>::empty());
    let mut r = concat(name.as_str(), " capture failed: ");
    r.append(error);
    r
}

/// The step after a read of a microphone capture: frames read are counted
/// with their diagnostics, and warned of where the pressure tracker says so;
/// a failure counts as an error, closes the capture and is reported.
pub fn mic_read_step(
    tracker: &mut CapturePressureTracker,
    source: &MicSourceConfig,
    read: CaptureRead,
    now: u64,
) -> (r: MicReadStep)
    ensures
        match read {
            CaptureRead::Frames(n, diagnostics) => {
                &&& r.frames == n
                &&& r.keep_capture
                &&& final(tracker).zero_reads == sat_add(
                    old(tracker).zero_reads,
                    diagnostics.zero_reads,
                )
                &&& final(tracker).short_reads == sat_add(
                    old(tracker).short_reads,
                    diagnostics.short_reads,
                )
                &&& final(tracker).pending_overflows == sat_add(
                    old(tracker).pending_overflows,
                    diagnostics.pending_overflows,
                )
                &&& final(tracker).errors == sat_add(old(tracker).errors, diagnostics.errors)
                &&& final(tracker).window == window_after(
                    old(tracker).window,
                    sat_add(diagnostics.pending_overflows, diagnostics.errors),
                    CAPTURE_PRESSURE_WARNING_THRESHOLD,
                    now,
                ).0
                &&& match r.warning {
                    Some(w) => window_after(
                        old(tracker).window,
                        sat_add(diagnostics.pending_overflows, diagnostics.errors),
                        CAPTURE_PRESSURE_WARNING_THRESHOLD,
                        now,
                    ).1 && w@ == capture_pressure_warning(),
                    None => !window_after(
                        old(tracker).window,
                        sat_add(diagnostics.pending_overflows, diagnostics.errors),
                        CAPTURE_PRESSURE_WARNING_THRESHOLD,
                        now,
                    ).1,
                }
            },
            CaptureRead::Failed(error) => {
                &&& r.frames == 0
                &&& !r.keep_capture
                &&& r.warning matches Some(w) && w@ == mic_stopped(*source, error@)
                &&& final(tracker).errors == sat_add(old(tracker).errors, 1)
                &&& final(tracker).zero_reads == old(tracker).zero_reads
                &&& final(tracker).short_reads == old(tracker).short_reads
                &&& final(tracker).pending_overflows == old(tracker).pending_overflows
                &&& final(tracker).window == window_after(
                    old(tracker).window,
                    1,
                    CAPTURE_PRESSURE_WARNING_THRESHOLD,
                    now,
                ).0
            },
        },
{
    match read {
        CaptureRead::Frames(frames, diagnostics) => {
            let warn = tracker.record_diagnostics(diagnostics, now);
            let warning = if warn {
                Some(capture_pressure_warning_text())
            } else {
                None
            };
            MicReadStep { frames, keep_capture: true, warning }
        },
        CaptureRead::Failed(error) => {
            let _ = tracker.record_error(now);
            let no_devices: Vec<AudioDevice> = Vec::new();
            let name = source_name_for_mic(source, no_devices.as_slice());
            assert(no_devices@ =~= Seq::<AudioDevice>::empty());
            let mut warning = concat(name.as_str(), " capture stopped: ");
            warning.append(error.as_str());
            MicReadStep { frames: 0, keep_capture: false, warning: Some(warning) }
        },
    }
}

/// What the worker keeps of an application source after a read.
#[derive(Debug, Clone, Copy, PartialEq, Eq)]
pub struct AppReadStep {
    /// Frames read; none after a failure.
    pub frames: usize,
    /// Whether the capture stays open.
    pub keep_capture: bool,
    /// The process captured from.
    pub active_pid: Option<u32>,
    /// When reopening was last tried.
    pub last_retry: u64,
}

/// The step after a read of an application capture: frames read keep the
/// capture as it is; a failure closes it silently, forgets its process and
/// starts the retry interval at `now`.
pub fn app_read_step(active_pid: Option<u32>, last_retry: u64, read: &CaptureRead, now: u64) -> (r:
    AppReadStep)
    ensures
        match read {
            CaptureRead::Frames(n, _) => r == AppReadStep {
                frames: *n,
                keep_capture: true,
                active_pid,
                last_retry,
            },
            CaptureRead::Failed(_) => r == AppReadStep {
                frames: 0,
                keep_capture: false,
                active_pid: None,
                last_retry: now,
            },
        },
{
    match read {
        CaptureRead::Frames(frames, _) => AppReadStep {
            frames: *frames,
            keep_capture: true,
            active_pid,
            last_retry,
        },
        CaptureRead::Failed(_) => AppReadStep {
            frames: 0,
            keep_capture: false,
            active_pid: None,
            last_retry: now,
        },
    }
}

impl Default for AudioEngine {
    fn default() -> (r: AudioEngine)
        ensures
            is_stopped_status(r.status_view()),
            crate::audio::mixer::is_default_controls(r.controls_view()),
    {
        AudioEngine::new()
    }
}

} // verus!
