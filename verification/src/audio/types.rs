//! Records of audio endpoints, application sessions and route status, and the
//! recognition of virtual-cable endpoint names.
use vstd::prelude::*;

use crate::duplicate::{duplicate_vec, Duplicate};
use crate::text::{contains_str, contains_text, lower, owned, to_ascii_lowercase};

verus! {

/// A linear amplitude factor (a gain or a level-meter peak), held as the bit
/// pattern of its IEEE-754 single-precision value.
#[derive(Debug, Clone, Copy, PartialEq, Eq, Structural)]
pub struct Level {
    pub bits: u32,
}

impl Level {
    /// The bit pattern of 1.0.
    pub open spec fn unity_bits() -> u32 {
        0x3f80_0000
    }

    /// Gain 1.0: the signal passes unchanged.
    pub fn unity() -> (r: Level)
        ensures
            r.bits == Level::unity_bits(),
    {
        Level { bits: 0x3f80_0000 }
    }

    /// Level 0.0: silence.
    pub fn silent() -> (r: Level)
        ensures
            r.bits == 0,
    {
        Level { bits: 0 }
    }
}

/// Whether an endpoint captures or renders audio.
#[derive(Debug, Clone, Copy, PartialEq, Eq, Structural)]
pub enum DeviceFlow {
    Capture,
    Render,
}

/// The state of an application's audio session.
#[derive(Debug, Clone, Copy, PartialEq, Eq, Structural)]
pub enum SessionState {
    Active,
    Inactive,
    Expired,
}

/// The state of the route from the sources to the output.
#[derive(Debug, Clone, Copy, PartialEq, Eq, Structural)]
pub enum RouteState {
    Stopped,
    Running,
    DeviceMissing,
    AppInactive,
    CaptureFailed,
}

/// How an application source was discovered.
#[derive(Debug, Clone, Copy, PartialEq, Eq, Structural)]
pub enum AppDiscoverySource {
    /// It has an audio session.
    AudioSession,
    /// It has a visible window but no audio session yet.
    Window,
    /// Both an audio session and a visible window were found.
    Merged,
}

/// An audio endpoint.
#[derive(Debug, Clone)]
pub struct AudioDevice {
    pub id: String,
    pub name: String,
    pub flow: DeviceFlow,
    pub is_default: bool,
    pub is_virtual_cable_like: bool,
    pub channels: Option<u16>,
    pub sample_rate: Option<u32>,
}

/// An application that can be routed.
#[derive(Debug, Clone)]
pub struct AudioSession {
    pub id: String,
    pub display_name: String,
    pub executable: String,
    pub process_id: u32,
    pub state: SessionState,
    pub is_excluded_default: bool,
    pub window_title: Option<String>,
    pub has_audio_session: bool,
    pub discovery_source: AppDiscoverySource,
}

/// The peak level of one source.
#[derive(Debug, Clone)]
pub struct MeterReading {
    pub id: String,
    pub peak: Level,
}

/// The level meters of a route: one reading per source id, ordered by id.
#[derive(Debug, Clone)]
pub struct LevelMeters {
    pub mic_peaks: Vec<MeterReading>,
    pub app_peaks: Vec<MeterReading>,
    pub output_peak: Level,
}

impl LevelMeters {
    /// No readings and a silent output.
    pub fn empty() -> (r: LevelMeters)
        ensures
            r.mic_peaks@.len() == 0,
            r.app_peaks@.len() == 0,
            r.output_peak.bits == 0,
    {
        LevelMeters { mic_peaks: Vec::new(), app_peaks: Vec::new(), output_peak: Level::silent() }
    }
}

/// What the route is doing, for the user.
#[derive(Debug, Clone)]
pub struct RouteStatus {
    pub state: RouteState,
    pub message: String,
    pub meters: LevelMeters,
    pub warnings: Vec<String>,
}

/// The message of a stopped route.
pub open spec fn stopped_message() -> Seq<char> {
    "Routing stopped"@
}

/// The status of a route that is not running: no readings, no warnings.
pub open spec fn is_stopped_status(s: RouteStatus) -> bool {
    &&& s.state == RouteState::Stopped
    &&& s.message@ == stopped_message()
    &&& s.meters.mic_peaks@.len() == 0
    &&& s.meters.app_peaks@.len() == 0
    &&& s.meters.output_peak.bits == 0
    &&& s.warnings@.len() == 0
}

impl RouteStatus {
    /// The status of a stopped route.
    pub fn stopped() -> (r: RouteStatus)
        ensures
            is_stopped_status(r),
    {
        RouteStatus {
            state: RouteState::Stopped,
            message: owned("Routing stopped"),
            meters: LevelMeters::empty(),
            warnings: Vec::new(),
        }
    }
}

impl Default for RouteStatus {
    fn default() -> (r: RouteStatus)
        ensures
            is_stopped_status(r),
    {
        RouteStatus::stopped()
    }
}

impl Duplicate for MeterReading {
    fn duplicate(&self) -> (r: MeterReading) {
        MeterReading { id: self.id.duplicate(), peak: self.peak }
    }
}

/// Two meter sets with the same readings.
pub open spec fn same_meters(a: LevelMeters, b: LevelMeters) -> bool {
    a.mic_peaks@ == b.mic_peaks@ && a.app_peaks@ == b.app_peaks@ && a.output_peak == b.output_peak
}

/// Two statuses that say the same.
pub open spec fn same_status(a: RouteStatus, b: RouteStatus) -> bool {
    &&& a.state == b.state
    &&& a.message == b.message
    &&& same_meters(a.meters, b.meters)
    &&& a.warnings@ == b.warnings@
}

impl LevelMeters {
    /// A copy with the same readings.
    pub fn duplicate(&self) -> (r: LevelMeters)
        ensures
            same_meters(r, *self),
    {
        LevelMeters {
            mic_peaks: duplicate_vec(&self.mic_peaks),
            app_peaks: duplicate_vec(&self.app_peaks),
            output_peak: self.output_peak,
        }
    }
}

impl RouteStatus {
    /// A copy that says the same.
    pub fn duplicate(&self) -> (r: RouteStatus)
        ensures
            same_status(r, *self),
    {
        RouteStatus {
            state: self.state,
            message: self.message.duplicate(),
            meters: self.meters.duplicate(),
            warnings: duplicate_vec(&self.warnings),
        }
    }
}

/// The name of a virtual audio cable endpoint.
pub open spec fn virtual_cable_name(name: Seq<char>) -> bool {
    let n = lower(name);
    ||| contains_text(n, "vb-audio"@)
    ||| contains_text(n, "vb cable"@)
    ||| contains_text(n, "vb-cable"@)
    ||| contains_text(n, "cable input"@)
    ||| contains_text(n, "virtual cable"@)
    ||| contains_text(n, "voicemeeter"@)
}

/// The name of a sixteen-channel cable endpoint.
pub open spec fn sixteen_channel_cable_name(name: Seq<char>) -> bool {
    contains_text(lower(name), "cable"@) && contains_text(lower(name), "16ch"@)
}

/// The name of the two-channel VB-CABLE input endpoint.
pub open spec fn canonical_vb_cable_input_name(name: Seq<char>) -> bool {
    virtual_cable_name(name) && contains_text(lower(name), "cable input"@)
        && !sixteen_channel_cable_name(name)
}

/// Whether an endpoint name looks like a virtual audio cable.
pub fn is_virtual_cable_name(name: &str) -> (r: bool)
    ensures
        r == virtual_cable_name(name@),
{
    let normalized = to_ascii_lowercase(name);
    let n = normalized.as_str();
    contains_str(n, "vb-audio") || contains_str(n, "vb cable") || contains_str(n, "vb-cable")
        || contains_str(n, "cable input") || contains_str(n, "virtual cable") || contains_str(
        n,
        "voicemeeter",
    )
}

/// Whether an endpoint name is that of the two-channel VB-CABLE input.
pub fn is_canonical_vb_cable_input_name(name: &str) -> (r: bool)
    ensures
        r == canonical_vb_cable_input_name(name@),
{
    let normalized = to_ascii_lowercase(name);
    is_virtual_cable_name(name) && contains_str(normalized.as_str(), "cable input")
        && !is_sixteen_channel_cable_name(name)
}

/// Whether an endpoint name is that of a sixteen-channel cable.
pub fn is_sixteen_channel_cable_name(name: &str) -> (r: bool)
    ensures
        r == sixteen_channel_cable_name(name@),
{
    let normalized = to_ascii_lowercase(name);
    contains_str(normalized.as_str(), "cable") && contains_str(normalized.as_str(), "16ch")
}

} // verus!
