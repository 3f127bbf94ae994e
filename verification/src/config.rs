//! The saved configuration: source ids, executable names, shortcut and source
//! sanitising, migration of the single-source layout, and control updates.
use vstd::prelude::*;
use vstd::string::*;

use crate::audio::engine::string_views;
use crate::audio::mixer::DEFAULT_BUFFER_FRAMES;
use crate::audio::types::Level;
use crate::duplicate::{duplicate_vec, Duplicate};
use crate::text::{
    concat, contains_char, same_text, ends_with, ends_with_str, is_blank, lower, owned, starts_with,
    starts_with_str, to_ascii_lowercase, trim, trim_str, is_white_space, lemma_trim_idempotent,
    lemma_trim_not_blank,
};

verus! {

/// A microphone source.
#[derive(Debug, Clone, PartialEq)]
pub struct MicSourceConfig {
    pub id: String,
    pub device_id: String,
    pub gain: Level,
    pub muted: bool,
}

/// An application source, found again by its executable name.
#[derive(Debug, Clone, PartialEq)]
pub struct AppSourceConfig {
    pub id: String,
    pub executable: String,
    pub display_name: Option<String>,
    pub gain: Level,
    pub muted: bool,
}

/// The global shortcuts.
#[derive(Debug, Clone, PartialEq, Eq)]
pub struct ShortcutConfig {
    pub mic_mute: String,
    pub app_mute: String,
    pub routing: String,
}

/// The whole configuration.
#[derive(Debug, Clone, PartialEq)]
pub struct AppConfig {
    pub mic_sources: Vec<MicSourceConfig>,
    pub app_sources: Vec<AppSourceConfig>,
    pub output_device_id: Option<String>,
    pub master_gain: Level,
    pub buffer_frames: usize,
    pub downmix_to_mono: bool,
    pub shortcuts: ShortcutConfig,
    pub start_with_windows: bool,
    pub minimize_to_tray: bool,
}

/// New gain and mute state of one source.
#[derive(Debug, Clone, PartialEq)]
pub struct SourceControlUpdate {
    pub id: String,
    pub gain: Level,
    pub muted: bool,
}

/// New gains and mute states of the sources and of the output.
#[derive(Debug, Clone)]
pub struct ControlUpdate {
    pub mic_sources: Vec<SourceControlUpdate>,
    pub app_sources: Vec<SourceControlUpdate>,
    pub master_gain: Level,
    pub downmix_to_mono: bool,
}

/// The configuration as it was saved, by this or an earlier version: every
/// field may be missing, and the older single-source fields may be present.
#[derive(Debug, Clone)]
pub struct RawAppConfig {
    pub mic_sources: Vec<MicSourceConfig>,
    pub app_sources: Vec<AppSourceConfig>,
    pub output_device_id: Option<String>,
    pub master_gain: Option<Level>,
    pub buffer_frames: Option<usize>,
    pub downmix_to_mono: Option<bool>,
    pub shortcuts: Option<ShortcutConfig>,
    pub start_with_windows: Option<bool>,
    pub minimize_to_tray: Option<bool>,
    pub excluded_processes: Option<Vec<String>>,
    pub mic_device_id: Option<String>,
    pub app_session_id: Option<String>,
    pub app_process_name: Option<String>,
    pub mic_gain: Option<Level>,
    pub app_gain: Option<Level>,
    pub mic_muted: Option<bool>,
    pub app_muted: Option<bool>,
}

impl Duplicate for MicSourceConfig {
    fn duplicate(&self) -> (r: MicSourceConfig) {
        MicSourceConfig {
            id: self.id.duplicate(),
            device_id: self.device_id.duplicate(),
            gain: self.gain,
            muted: self.muted,
        }
    }
}

impl Duplicate for AppSourceConfig {
    fn duplicate(&self) -> (r: AppSourceConfig) {
        AppSourceConfig {
            id: self.id.duplicate(),
            executable: self.executable.duplicate(),
            display_name: self.display_name.duplicate(),
            gain: self.gain,
            muted: self.muted,
        }
    }
}

impl Duplicate for ShortcutConfig {
    fn duplicate(&self) -> (r: ShortcutConfig) {
        ShortcutConfig {
            mic_mute: self.mic_mute.duplicate(),
            app_mute: self.app_mute.duplicate(),
            routing: self.routing.duplicate(),
        }
    }
}

/// Two configurations with the same content.
pub open spec fn same_config(a: AppConfig, b: AppConfig) -> bool {
    &&& a.mic_sources@ == b.mic_sources@
    &&& a.app_sources@ == b.app_sources@
    &&& a.output_device_id == b.output_device_id
    &&& a.master_gain == b.master_gain
    &&& a.buffer_frames == b.buffer_frames
    &&& a.downmix_to_mono == b.downmix_to_mono
    &&& a.shortcuts == b.shortcuts
    &&& a.start_with_windows == b.start_with_windows
    &&& a.minimize_to_tray == b.minimize_to_tray
}

impl AppConfig {
    /// A copy with the same content.
    pub fn duplicate(&self) -> (r: AppConfig)
        ensures
            same_config(r, *self),
    {
        AppConfig {
            mic_sources: duplicate_vec(&self.mic_sources),
            app_sources: duplicate_vec(&self.app_sources),
            output_device_id: self.output_device_id.duplicate(),
            master_gain: self.master_gain,
            buffer_frames: self.buffer_frames,
            downmix_to_mono: self.downmix_to_mono,
            shortcuts: self.shortcuts.duplicate(),
            start_with_windows: self.start_with_windows,
            minimize_to_tray: self.minimize_to_tray,
        }
    }
}

/// The id of the microphone source of a device.
pub open spec fn mic_id(device_id: Seq<char>) -> Seq<char> {
    "mic:"@ + device_id
}

/// The id of the application source of an executable; case does not matter.
pub open spec fn app_id(executable: Seq<char>) -> Seq<char> {
    "app:"@ + lower(executable)
}

/// The trimmed name, where it names a `.exe` file in any case.
pub open spec fn normalized_executable(executable: Seq<char>) -> Option<Seq<char>> {
    let name = trim(executable);
    if name.len() == 0 || !ends_with(lower(name), ".exe"@) {
        None
    } else {
        Some(name)
    }
}

/// The id of the microphone source of a device.
pub fn mic_source_id(device_id: &str) -> (r: String)
    ensures
        r@ == mic_id(device_id@),
{
    concat("mic:", device_id)
}

/// The id of the application source of an executable.
pub fn app_source_id(executable: &str) -> (r: String)
    ensures
        r@ == app_id(executable@),
{
    let lowered = to_ascii_lowercase(executable);
    concat("app:", lowered.as_str())
}

/// The trimmed executable name, or `None` where it is blank or not a `.exe`.
pub fn normalize_executable(executable: &str) -> (r: Option<String>)
    ensures
        match r {
            Some(name) => normalized_executable(executable@) == Some(name@),
            None => normalized_executable(executable@) is None,
        },
{
    let name = trim_str(executable);
    let lowered = to_ascii_lowercase(name.as_str());
    if name.as_str().unicode_len() == 0 || !ends_with_str(lowered.as_str(), ".exe") {
        return None;
    }
    Some(name)
}

impl MicSourceConfig {
    /// The source of a device, with the device's source id.
    pub fn new(device_id: String, gain: Level, muted: bool) -> (r: MicSourceConfig)
        ensures
            r.id@ == mic_id(device_id@),
            r.device_id == device_id,
            r.gain == gain,
            r.muted == muted,
    {
        MicSourceConfig { id: mic_source_id(device_id.as_str()), device_id, gain, muted }
    }
}

/// The executable name an application source keeps: the normalised name, or
/// the name as given where it does not normalise.
pub open spec fn kept_executable(executable: Seq<char>) -> Seq<char> {
    match normalized_executable(executable) {
        Some(n) => n,
        None => executable,
    }
}

impl AppSourceConfig {
    /// The source of an executable, with the executable's source id.
    pub fn new(executable: String, display_name: Option<String>, gain: Level, muted: bool) -> (r:
        AppSourceConfig)
        ensures
            r.executable@ == kept_executable(executable@),
            r.id@ == app_id(kept_executable(executable@)),
            r.display_name == display_name,
            r.gain == gain,
            r.muted == muted,
    {
        let executable = match normalize_executable(executable.as_str()) {
            Some(n) => n,
            None => executable,
        };
        AppSourceConfig {
            id: app_source_id(executable.as_str()),
            executable,
            display_name,
            gain,
            muted,
        }
    }
}

/// The default shortcuts.
pub open spec fn default_shortcuts_view(s: ShortcutConfig) -> bool {
    &&& s.mic_mute@ == "Ctrl+Alt+M"@
    &&& s.app_mute@ == "Ctrl+Alt+A"@
    &&& s.routing@ == "Ctrl+Alt+S"@
}

impl ShortcutConfig {
    /// The default shortcuts.
    pub fn defaults() -> (r: ShortcutConfig)
        ensures
            default_shortcuts_view(r),
    {
        ShortcutConfig {
            mic_mute: owned("Ctrl+Alt+M"),
            app_mute: owned("Ctrl+Alt+A"),
            routing: owned("Ctrl+Alt+S"),
        }
    }
}

impl Default for ShortcutConfig {
    fn default() -> (r: ShortcutConfig)
        ensures
            default_shortcuts_view(r),
    {
        ShortcutConfig::defaults()
    }
}

/// The default configuration: no sources, no output, unity master gain, the
/// default buffer, mono downmix, default shortcuts, start with Windows and
/// minimise to the tray.
pub open spec fn is_default_config(c: AppConfig) -> bool {
    &&& c.mic_sources@.len() == 0
    &&& c.app_sources@.len() == 0
    &&& c.output_device_id is None
    &&& c.master_gain.bits == Level::unity_bits()
    &&& c.buffer_frames == DEFAULT_BUFFER_FRAMES
    &&& c.downmix_to_mono
    &&& default_shortcuts_view(c.shortcuts)
    &&& c.start_with_windows
    &&& c.minimize_to_tray
}

impl AppConfig {
    /// The default configuration.
    pub fn defaults() -> (r: AppConfig)
        ensures
            is_default_config(r),
    {
        AppConfig {
            mic_sources: Vec::new(),
            app_sources: Vec::new(),
            output_device_id: None,
            master_gain: Level::unity(),
            buffer_frames: DEFAULT_BUFFER_FRAMES,
            downmix_to_mono: true,
            shortcuts: ShortcutConfig::defaults(),
            start_with_windows: true,
            minimize_to_tray: true,
        }
    }
}

impl Default for AppConfig {
    fn default() -> (r: AppConfig)
        ensures
            is_default_config(r),
    {
        AppConfig::defaults()
    }
}

/// A shortcut trimmed, or the fallback where it is blank.
pub open spec fn sanitized_shortcut(value: Seq<char>, fallback: Seq<char>) -> Seq<char> {
    if trim(value).len() == 0 {
        fallback
    } else {
        trim(value)
    }
}

/// The trimmed shortcut, or `fallback` where it is blank.
pub fn sanitize_shortcut(value: String, fallback: &str) -> (r: String)
    ensures
        r@ == sanitized_shortcut(value@, fallback@),
{
    let value = trim_str(value.as_str());
    if value.as_str().unicode_len() == 0 {
        owned(fallback)
    } else {
        value
    }
}

/// Each shortcut trimmed, or its default where it is blank.
pub open spec fn sanitized_shortcuts(s: ShortcutConfig, r: ShortcutConfig) -> bool {
    &&& r.mic_mute@ == sanitized_shortcut(s.mic_mute@, "Ctrl+Alt+M"@)
    &&& r.app_mute@ == sanitized_shortcut(s.app_mute@, "Ctrl+Alt+A"@)
    &&& r.routing@ == sanitized_shortcut(s.routing@, "Ctrl+Alt+S"@)
}

/// Each shortcut trimmed, or its default where it is blank.
pub fn sanitize_shortcuts(shortcuts: ShortcutConfig) -> (r: ShortcutConfig)
    ensures
        sanitized_shortcuts(shortcuts, r),
{
    let defaults = ShortcutConfig::defaults();
    ShortcutConfig {
        mic_mute: sanitize_shortcut(shortcuts.mic_mute, defaults.mic_mute.as_str()),
        app_mute: sanitize_shortcut(shortcuts.app_mute, defaults.app_mute.as_str()),
        routing: sanitize_shortcut(shortcuts.routing, defaults.routing.as_str()),
    }
}

/// Whether entry `i` is the first with its key; entries without a key are
/// never first.
pub open spec fn first_occurrence(keys: Seq<Option<Seq<char>>>, i: int) -> bool {
    keys[i] is Some && forall|j: int| 0 <= j < i ==> keys[j] != keys[i]
}

/// The indices of the entries that are the first with their key, ascending.
pub open spec fn first_occurrences(keys: Seq<Option<Seq<char>>>) -> Seq<int>
    decreases keys.len(),
{
    if keys.len() == 0 {
        Seq::empty()
    } else {
        let r = first_occurrences(keys.drop_last());
        if first_occurrence(keys, keys.len() - 1) {
            r.push(keys.len() - 1)
        } else {
            r
        }
    }
}

proof fn lemma_earlier_first(keys: Seq<Option<Seq<char>>>, i: int, j: int)
    requires
        0 <= j < i < keys.len(),
        keys[i] is Some,
        keys[j] == keys[i],
    ensures
        exists|k: int| 0 <= k <= j && first_occurrence(keys, k) && keys[k] == keys[i],
    decreases j,
{
    if !first_occurrence(keys, j) {
        let j2 = choose|j2: int| 0 <= j2 < j && keys[j2] == keys[j];
        lemma_earlier_first(keys, i, j2);
    }
}

/// The first occurrences come in ascending order, each a first occurrence.
pub proof fn lemma_first_occurrences(keys: Seq<Option<Seq<char>>>)
    ensures
        forall|q: int|
            0 <= q < first_occurrences(keys).len() ==> 0 <= #[trigger] first_occurrences(keys)[q]
                < keys.len() && first_occurrence(keys, first_occurrences(keys)[q]),
        forall|q1: int, q2: int|
            0 <= q1 < q2 < first_occurrences(keys).len() ==> first_occurrences(keys)[q1]
                < first_occurrences(keys)[q2],
    decreases keys.len(),
{
    if keys.len() > 0 {
        let d = keys.drop_last();
        lemma_first_occurrences(d);
        let f = first_occurrences(d);
        assert forall|q: int| 0 <= q < f.len() implies first_occurrence(keys, #[trigger] f[q]) by {
            assert(first_occurrence(d, f[q]));
            assert forall|j: int| 0 <= j < f[q] implies #[trigger] keys[j] != keys[f[q]] by {
                assert(d[j] != d[f[q]]);
            }
        }
    }
}

/// Two kept entries have different keys.
pub proof fn lemma_first_occurrences_distinct(keys: Seq<Option<Seq<char>>>)
    ensures
        forall|q1: int, q2: int|
            0 <= q1 < first_occurrences(keys).len() && 0 <= q2 < first_occurrences(keys).len()
                && q1 != q2 ==> keys[first_occurrences(keys)[q1]] != keys[first_occurrences(
                keys,
            )[q2]],
{
    lemma_first_occurrences(keys);
    let f = first_occurrences(keys);
    assert forall|q1: int, q2: int|
        0 <= q1 < f.len() && 0 <= q2 < f.len() && q1 != q2 implies keys[f[q1]] != keys[f[q2]] by {
        if q1 < q2 {
            assert(f[q1] < f[q2]);
            assert(first_occurrence(keys, f[q2]));
        } else {
            assert(f[q2] < f[q1]);
            assert(first_occurrence(keys, f[q1]));
        }
    }
}

/// Whether some string of `seen` has the characters `t`.
fn contains_string(seen: &Vec<String>, t: &String) -> (r: bool)
    ensures
        r == exists|q: int| 0 <= q < seen@.len() && (#[trigger] seen@[q])@ == t@,
{
    let n = seen.len();
    let mut q: usize = 0;
    while q < n
        invariant
            n == seen@.len(),
            q <= n,
            forall|p: int| 0 <= p < q ==> (#[trigger] seen@[p])@ != t@,
        decreases n - q,
    {
        if seen[q] == *t {
            assert(seen@[q as int]@ == t@);
            return true;
        }
        q = q + 1;
    }
    false
}

/// The key by which microphone sources are told apart: the trimmed device id,
/// where it is not blank.
pub open spec fn mic_key(s: MicSourceConfig) -> Option<Seq<char>> {
    if trim(s.device_id@).len() == 0 {
        None
    } else {
        Some(trim(s.device_id@))
    }
}

/// The keys of microphone sources.
pub open spec fn mic_keys(s: Seq<MicSourceConfig>) -> Seq<Option<Seq<char>>> {
    Seq::new(s.len(), |i: int| mic_key(s[i]))
}

/// A kept microphone source: device id trimmed, a blank id replaced by the
/// device's source id.
pub open spec fn sanitized_mic(src: MicSourceConfig, out: MicSourceConfig) -> bool {
    &&& out.device_id@ == trim(src.device_id@)
    &&& out.id@ == if trim(src.id@).len() == 0 {
        mic_id(trim(src.device_id@))
    } else {
        src.id@
    }
    &&& out.gain == src.gain
    &&& out.muted == src.muted
}

/// The microphone sources kept from `s`: the first source of each non-blank
/// device id, in order, each sanitised.
pub open spec fn sanitized_mics(s: Seq<MicSourceConfig>, r: Seq<MicSourceConfig>) -> bool {
    let kept = first_occurrences(mic_keys(s));
    &&& r.len() == kept.len()
    &&& forall|q: int| 0 <= q < r.len() ==> sanitized_mic(s[kept[q]], #[trigger] r[q])
}

/// Drops microphone sources with a blank device id, and every source of a
/// device after its first; trims device ids and fills in blank ids.
pub fn sanitize_mic_sources(sources: Vec<MicSourceConfig>) -> (r: Vec<MicSourceConfig>)
    ensures
        sanitized_mics(sources@, r@),
{
    let ghost orig = sources@;
    let ghost keys = mic_keys(orig);
    let ghost mut kept: Seq<int> = Seq::empty();
    let mut seen: Vec<String> = Vec::new();
    let mut r: Vec<MicSourceConfig> = Vec::new();
    let mut rest = sources;
    let n = rest.len();
    let mut i: usize = 0;
    while i < n
        invariant
            n == orig.len(),
            keys == mic_keys(orig),
            i <= n,
            rest@ == orig.skip(i as int),
            kept == first_occurrences(keys.take(i as int)),
            seen@.len() == kept.len(),
            r@.len() == kept.len(),
            forall|q: int|
                0 <= q < kept.len() ==> 0 <= #[trigger] kept[q] < i && first_occurrence(
                    keys,
                    kept[q],
                ) && keys[kept[q]] == Some(seen@[q]@) && sanitized_mic(orig[kept[q]], r@[q]),
            forall|j: int|
                0 <= j < i && first_occurrence(keys, j) ==> exists|q: int|
                    0 <= q < kept.len() && #[trigger] kept[q] == j,
        decreases n - i,
    {
        let source = rest.remove(0);
        assert(rest@ =~= orig.skip(i + 1));
        assert(source == orig[i as int]);
        assert(keys.take(i + 1).drop_last() =~= keys.take(i as int));
        let ghost is_first = first_occurrence(keys, i as int);
        assert forall|j: int| 0 <= j <= i implies keys.take(i + 1)[j] == keys[j] by {}
        assert(first_occurrence(keys.take(i + 1), i as int) == is_first);
        let device_id = trim_str(source.device_id.as_str());
        assert(keys[i as int] == mic_key(source));
        if device_id.as_str().unicode_len() == 0 {
            assert(!is_first);
        } else if contains_string(&seen, &device_id) {
            proof {
                let q = choose|q: int| 0 <= q < seen@.len() && (#[trigger] seen@[q])@ == device_id@;
                assert(0 <= kept[q] < i);
                assert(keys[kept[q]] == keys[i as int]);
            }
            assert(!is_first);
        } else {
            assert(is_first) by {
                assert forall|j: int| 0 <= j < i implies keys[j] != keys[i as int] by {
                    if keys[j] == keys[i as int] {
                        lemma_earlier_first(keys, i as int, j);
                        let k = choose|k: int|
                            0 <= k <= j && first_occurrence(keys, k) && keys[k] == keys[i as int];
                        let q = choose|q: int| 0 <= q < kept.len() && #[trigger] kept[q] == k;
                        assert(seen@[q]@ == device_id@);
                    }
                }
            }
            let id = if is_blank(source.id.as_str()) {
                mic_source_id(device_id.as_str())
            } else {
                source.id
            };
            seen.push(device_id.clone());
            r.push(MicSourceConfig { id, device_id, gain: source.gain, muted: source.muted });
            proof {
                let old_kept = kept;
                kept = kept.push(i as int);
                assert forall|j: int| 0 <= j < i + 1 && first_occurrence(keys, j) implies exists|q: int|
                    0 <= q < kept.len() && #[trigger] kept[q] == j by {
                    if j < i {
                        let q = choose|q: int| 0 <= q < old_kept.len() && #[trigger] old_kept[q] == j;
                        assert(kept[q] == j);
                    } else {
                        assert(kept[old_kept.len() as int] == j);
                    }
                }
            }
        }
        i = i + 1;
    }
    assert(keys.take(n as int) =~= keys);
    r
}

/// Sanitised microphone sources have pairwise different, non-empty device ids.
pub proof fn lemma_sanitized_mics_distinct(s: Seq<MicSourceConfig>, r: Seq<MicSourceConfig>)
    requires
        sanitized_mics(s, r),
    ensures
        forall|q: int| 0 <= q < r.len() ==> (#[trigger] r[q]).device_id@.len() > 0,
        forall|q1: int, q2: int|
            0 <= q1 < r.len() && 0 <= q2 < r.len() && q1 != q2 ==> r[q1].device_id@
                != r[q2].device_id@,
{
    let keys = mic_keys(s);
    lemma_first_occurrences(keys);
    lemma_first_occurrences_distinct(keys);
    let f = first_occurrences(keys);
    assert forall|q: int| 0 <= q < r.len() implies (#[trigger] r[q]).device_id@.len() > 0 by {
        assert(first_occurrence(keys, f[q]));
        assert(sanitized_mic(s[f[q]], r[q]));
    }
    assert forall|q1: int, q2: int|
        0 <= q1 < r.len() && 0 <= q2 < r.len() && q1 != q2 implies r[q1].device_id@
        != r[q2].device_id@ by {
        assert(sanitized_mic(s[f[q1]], r[q1]));
        assert(sanitized_mic(s[f[q2]], r[q2]));
        assert(keys[f[q1]] != keys[f[q2]]);
        assert(first_occurrence(keys, f[q1]));
        assert(first_occurrence(keys, f[q2]));
    }
}

/// The key by which application sources are told apart: the lower-cased
/// normalised executable, where there is one.
pub open spec fn app_key(s: AppSourceConfig) -> Option<Seq<char>> {
    match normalized_executable(s.executable@) {
        Some(e) => Some(lower(e)),
        None => None,
    }
}

/// The keys of application sources.
pub open spec fn app_keys(s: Seq<AppSourceConfig>) -> Seq<Option<Seq<char>>> {
    Seq::new(s.len(), |i: int| app_key(s[i]))
}

/// A kept application source: executable normalised, a blank id replaced by
/// the executable's source id, a blank display name dropped.
pub open spec fn sanitized_app(src: AppSourceConfig, out: AppSourceConfig) -> bool {
    let exe = normalized_executable(src.executable@)->Some_0;
    &&& out.executable@ == exe
    &&& out.id@ == if trim(src.id@).len() == 0 {
        app_id(exe)
    } else {
        src.id@
    }
    &&& out.display_name == match src.display_name {
        Some(name) => if trim(name@).len() == 0 {
            None
        } else {
            Some(name)
        },
        None => None,
    }
    &&& out.gain == src.gain
    &&& out.muted == src.muted
}

/// The application sources kept from `s`: the first source of each
/// executable (in any case) that normalises, in order, each sanitised.
pub open spec fn sanitized_apps(s: Seq<AppSourceConfig>, r: Seq<AppSourceConfig>) -> bool {
    let kept = first_occurrences(app_keys(s));
    &&& r.len() == kept.len()
    &&& forall|q: int| 0 <= q < r.len() ==> sanitized_app(s[kept[q]], #[trigger] r[q])
}

/// Sanitised application sources name pairwise different executables, ASCII
/// case aside.
pub proof fn lemma_sanitized_apps_distinct(s: Seq<AppSourceConfig>, r: Seq<AppSourceConfig>)
    requires
        sanitized_apps(s, r),
    ensures
        forall|q1: int, q2: int|
            0 <= q1 < r.len() && 0 <= q2 < r.len() && q1 != q2 ==> lower(r[q1].executable@)
                != lower(r[q2].executable@),
{
    let keys = app_keys(s);
    lemma_first_occurrences(keys);
    lemma_first_occurrences_distinct(keys);
    let f = first_occurrences(keys);
    assert forall|q1: int, q2: int|
        0 <= q1 < r.len() && 0 <= q2 < r.len() && q1 != q2 implies lower(r[q1].executable@)
        != lower(r[q2].executable@) by {
        assert(sanitized_app(s[f[q1]], r[q1]));
        assert(sanitized_app(s[f[q2]], r[q2]));
        assert(keys[f[q1]] != keys[f[q2]]);
        assert(first_occurrence(keys, f[q1]));
        assert(first_occurrence(keys, f[q2]));
    }
}

/// Application source ids ignore ASCII case: two executables get the same id
/// exactly when they differ in case only.
pub proof fn lemma_app_id_ignores_case(a: Seq<char>, b: Seq<char>)
    ensures
        (app_id(a) == app_id(b)) == (lower(a) == lower(b)),
{
    if app_id(a) == app_id(b) {
        let n = "app:"@.len();
        assert(app_id(a).skip(n as int) =~= lower(a));
        assert(app_id(b).skip(n as int) =~= lower(b));
    }
}

/// Drops application sources whose executable does not normalise, and every
/// source of an executable after its first; fills in blank ids and drops blank
/// display names.
pub fn sanitize_app_sources(sources: Vec<AppSourceConfig>) -> (r: Vec<AppSourceConfig>)
    ensures
        sanitized_apps(sources@, r@),
{
    let ghost orig = sources@;
    let ghost keys = app_keys(orig);
    let ghost mut kept: Seq<int> = Seq::empty();
    let mut seen: Vec<String> = Vec::new();
    let mut r: Vec<AppSourceConfig> = Vec::new();
    let mut rest = sources;
    let n = rest.len();
    let mut i: usize = 0;
    while i < n
        invariant
            n == orig.len(),
            keys == app_keys(orig),
            i <= n,
            rest@ == orig.skip(i as int),
            kept == first_occurrences(keys.take(i as int)),
            seen@.len() == kept.len(),
            r@.len() == kept.len(),
            forall|q: int|
                0 <= q < kept.len() ==> 0 <= #[trigger] kept[q] < i && first_occurrence(
                    keys,
                    kept[q],
                ) && keys[kept[q]] == Some(seen@[q]@) && sanitized_app(orig[kept[q]], r@[q]),
            forall|j: int|
                0 <= j < i && first_occurrence(keys, j) ==> exists|q: int|
                    0 <= q < kept.len() && #[trigger] kept[q] == j,
        decreases n - i,
    {
        let source = rest.remove(0);
        assert(rest@ =~= orig.skip(i + 1));
        assert(source == orig[i as int]);
        assert(keys.take(i + 1).drop_last() =~= keys.take(i as int));
        let ghost is_first = first_occurrence(keys, i as int);
        assert forall|j: int| 0 <= j <= i implies keys.take(i + 1)[j] == keys[j] by {}
        assert(first_occurrence(keys.take(i + 1), i as int) == is_first);
        assert(keys[i as int] == app_key(source));
        match normalize_executable(source.executable.as_str()) {
            None => {
                assert(!is_first);
            },
            Some(executable) => {
                let key = to_ascii_lowercase(executable.as_str());
                if contains_string(&seen, &key) {
                    proof {
                        let q = choose|q: int| 0 <= q < seen@.len() && (#[trigger] seen@[q])@ == key@;
                        assert(0 <= kept[q] < i);
                        assert(keys[kept[q]] == keys[i as int]);
                    }
                    assert(!is_first);
                } else {
                    assert(is_first) by {
                        assert forall|j: int| 0 <= j < i implies keys[j] != keys[i as int] by {
                            if keys[j] == keys[i as int] {
                                lemma_earlier_first(keys, i as int, j);
                                let k = choose|k: int|
                                    0 <= k <= j && first_occurrence(keys, k) && keys[k]
                                        == keys[i as int];
                                let q = choose|q: int|
                                    0 <= q < kept.len() && #[trigger] kept[q] == k;
                                assert(seen@[q]@ == key@);
                            }
                        }
                    }
                    let id = if is_blank(source.id.as_str()) {
                        app_source_id(executable.as_str())
                    } else {
                        source.id
                    };
                    let display_name = match source.display_name {
                        Some(name) => if is_blank(name.as_str()) {
                            None
                        } else {
                            Some(name)
                        },
                        None => None,
                    };
                    seen.push(key);
                    r.push(
                        AppSourceConfig {
                            id,
                            executable,
                            display_name,
                            gain: source.gain,
                            muted: source.muted,
                        },
                    );
                    proof {
                        let old_kept = kept;
                        kept = kept.push(i as int);
                        assert forall|j: int| 0 <= j < i + 1 && first_occurrence(keys, j) implies exists|q: int|
                            0 <= q < kept.len() && #[trigger] kept[q] == j by {
                            if j < i {
                                let q = choose|q: int| 0 <= q < old_kept.len() && #[trigger] old_kept[q] == j;
                                assert(kept[q] == j);
                            } else {
                                assert(kept[old_kept.len() as int] == j);
                            }
                        }
                    }
                }
            },
        }
        i = i + 1;
    }
    assert(keys.take(n as int) =~= keys);
    r
}

/// The name of the executable in a legacy session id
/// `session:<executable>:<process id>`: three parts separated by colons, the
/// first `session`, the executable normalised.
pub open spec fn legacy_parts(rest: Seq<char>, k: int) -> bool {
    &&& 0 <= k < rest.len()
    &&& rest[k] == ':'
    &&& !rest.take(k).contains(':')
    &&& !rest.skip(k + 1).contains(':')
}

/// The executable that a legacy session id names, normalised.
pub open spec fn legacy_executable(session_id: Seq<char>) -> Option<Seq<char>> {
    let rest = session_id.skip("session:"@.len() as int);
    if starts_with(session_id, "session:"@) && exists|k: int| legacy_parts(rest, k) {
        normalized_executable(rest.take(choose|k: int| legacy_parts(rest, k)))
    } else {
        None
    }
}

/// The normalised executable named by a legacy session id
/// `session:<executable>:<process id>`, if it has that form.
pub fn executable_from_legacy_session_id(session_id: &str) -> (r: Option<String>)
    ensures
        match r {
            Some(e) => legacy_executable(session_id@) == Some(e@),
            None => legacy_executable(session_id@) is None,
        },
{
    if !starts_with_str(session_id, "session:") {
        return None;
    }
    let n = session_id.unicode_len();
    let m = "session:".unicode_len();
    let rest = owned(session_id.substring_char(m, n));
    assert(rest@ =~= session_id@.skip("session:"@.len() as int));
    let len = rest.as_str().unicode_len();
    let mut k: usize = 0;
    while k < len && rest.as_str().get_char(k) != ':'
        invariant
            len == rest@.len(),
            k <= len,
            forall|j: int| 0 <= j < k ==> rest@[j] != ':',
        decreases len - k,
    {
        k = k + 1;
    }
    if k == len {
        assert forall|k2: int| !legacy_parts(rest@, k2) by {
            if 0 <= k2 < rest@.len() {
                assert(rest@[k2] != ':');
            }
        }
        return None;
    }
    let tail = owned(rest.as_str().substring_char(k + 1, len));
    assert(tail@ =~= rest@.skip(k + 1));
    if contains_char(tail.as_str(), ':') {
        assert forall|k2: int| !legacy_parts(rest@, k2) by {
            if legacy_parts(rest@, k2) {
                if k2 > k {
                    assert(rest@.take(k2)[k as int] == ':');
                } else if k2 == k {
                } else {
                    assert(rest@[k2] != ':');
                }
            }
        }
        return None;
    }
    let head = owned(rest.as_str().substring_char(0, k));
    assert(head@ =~= rest@.take(k as int));
    assert(!rest@.take(k as int).contains(':')) by {
        if rest@.take(k as int).contains(':') {
            let j = choose|j: int| 0 <= j < k && rest@.take(k as int)[j] == ':';
            assert(rest@[j] == ':');
        }
    }
    assert(legacy_parts(rest@, k as int));
    assert forall|k2: int| legacy_parts(rest@, k2) implies k2 == k by {
        if k2 > k {
            assert(rest@.take(k2)[k as int] == ':');
        } else if k2 < k {
            assert(rest@[k2] != ':');
        }
    }
    normalize_executable(head.as_str())
}

/// A source id's control: the index of the first update of `id`, or -1.
pub open spec fn control_index(controls: Seq<SourceControlUpdate>, id: Seq<char>) -> int
    decreases controls.len(),
{
    if controls.len() == 0 {
        -1
    } else if controls[0].id@ == id {
        0
    } else {
        let k = control_index(controls.drop_first(), id);
        if k < 0 {
            -1
        } else {
            k + 1
        }
    }
}

proof fn lemma_control_index_bounds(controls: Seq<SourceControlUpdate>, id: Seq<char>)
    ensures
        -1 <= control_index(controls, id) < controls.len(),
        control_index(controls, id) >= 0 ==> controls[control_index(controls, id)].id@ == id,
    decreases controls.len(),
{
    if controls.len() > 0 {
        lemma_control_index_bounds(controls.drop_first(), id);
    }
}

proof fn lemma_control_index_at(controls: Seq<SourceControlUpdate>, i: int)
    requires
        0 <= i < controls.len(),
        forall|j: int| 0 <= j < i ==> (#[trigger] controls[j]).id@ != controls[i].id@,
    ensures
        control_index(controls, controls[i].id@) == i,
    decreases i,
{
    if i > 0 {
        let d = controls.drop_first();
        assert forall|j: int| 0 <= j < i - 1 implies (#[trigger] d[j]).id@ != d[i - 1].id@ by {
            assert(d[j] == controls[j + 1]);
        }
        lemma_control_index_at(d, i - 1);
        assert(controls[0].id@ != controls[i].id@);
    }
}

/// The index of the first update of `id`, if any.
fn find_control(controls: &[SourceControlUpdate], id: &str) -> (r: Option<usize>)
    ensures
        match r {
            Some(k) => k == control_index(controls@, id@),
            None => control_index(controls@, id@) < 0,
        },
{
    let n = controls.len();
    let mut k: usize = 0;
    assert(controls@.skip(0) =~= controls@);
    while k < n
        invariant
            n == controls@.len(),
            k <= n,
            control_index(controls@, id@) == if control_index(controls@.skip(k as int), id@) < 0 {
                -1
            } else {
                control_index(controls@.skip(k as int), id@) + k
            },
        decreases n - k,
    {
        if same_text(controls[k].id.as_str(), id) {
            return Some(k);
        }
        assert(controls@.skip(k as int).drop_first() =~= controls@.skip(k + 1));
        k = k + 1;
    }
    None
}

/// A configured source whose gain and mute state can be updated by id.
pub trait SourceConfig: Sized {
    /// The source's id.
    spec fn source_id(&self) -> Seq<char>;

    /// The source with the given gain and mute state, all else kept.
    spec fn with_control(self, gain: Level, muted: bool) -> Self;

    /// The source's id.
    fn id(&self) -> (r: &str)
        ensures
            r@ == self.source_id(),
    ;

    /// Sets the gain and mute state.
    fn set_gain_muted(&mut self, gain: Level, muted: bool)
        ensures
            *final(self) == old(self).with_control(gain, muted),
    ;
}

impl SourceConfig for MicSourceConfig {
    open spec fn source_id(&self) -> Seq<char> {
        self.id@
    }

    open spec fn with_control(self, gain: Level, muted: bool) -> MicSourceConfig {
        MicSourceConfig { id: self.id, device_id: self.device_id, gain, muted }
    }

    fn id(&self) -> (r: &str) {
        self.id.as_str()
    }

    fn set_gain_muted(&mut self, gain: Level, muted: bool) {
        self.gain = gain;
        self.muted = muted;
    }
}

impl SourceConfig for AppSourceConfig {
    open spec fn source_id(&self) -> Seq<char> {
        self.id@
    }

    open spec fn with_control(self, gain: Level, muted: bool) -> AppSourceConfig {
        AppSourceConfig {
            id: self.id,
            executable: self.executable,
            display_name: self.display_name,
            gain,
            muted,
        }
    }

    fn id(&self) -> (r: &str) {
        self.id.as_str()
    }

    fn set_gain_muted(&mut self, gain: Level, muted: bool) {
        self.gain = gain;
        self.muted = muted;
    }
}

/// A source after the updates: the first update of its id applies.
pub open spec fn controlled<T: SourceConfig>(s: T, controls: Seq<SourceControlUpdate>) -> T {
    let k = control_index(controls, s.source_id());
    if k >= 0 {
        s.with_control(controls[k].gain, controls[k].muted)
    } else {
        s
    }
}

/// Applies to each source the first update with its id; sources without an
/// update are kept as they are.
pub fn apply_source_controls<T: SourceConfig>(sources: &mut Vec<T>, controls: &[SourceControlUpdate])
    ensures
        final(sources)@.len() == old(sources)@.len(),
        forall|i: int|
            0 <= i < old(sources)@.len() ==> #[trigger] final(sources)@[i] == controlled(
                old(sources)@[i],
                controls@,
            ),
{
    let ghost orig = sources@;
    let n = sources.len();
    let mut i: usize = 0;
    while i < n
        invariant
            n == orig.len(),
            sources@.len() == n,
            i <= n,
            forall|j: int| 0 <= j < i ==> #[trigger] sources@[j] == controlled(orig[j], controls@),
            forall|j: int| i <= j < n ==> #[trigger] sources@[j] == orig[j],
        decreases n - i,
    {
        let mut source = sources.remove(i);
        proof {
            lemma_control_index_bounds(controls@, source.source_id());
        }
        match find_control(controls, source.id()) {
            Some(k) => {
                source.set_gain_muted(controls[k].gain, controls[k].muted);
            },
            None => {},
        }
        sources.insert(i, source);
        i = i + 1;
    }
}

proof fn lemma_control_index_absent(controls: Seq<SourceControlUpdate>, id: Seq<char>)
    requires
        forall|j: int| 0 <= j < controls.len() ==> (#[trigger] controls[j]).id@ != id,
    ensures
        control_index(controls, id) == -1,
{
    lemma_control_index_bounds(controls, id);
}

/// A microphone source under a list of updates: the first update with its id
/// sets its gain and mute state and leaves its id and device as they are; a
/// source that no update names is kept as it is.
pub proof fn lemma_mic_controls_apply(s: MicSourceConfig, controls: Seq<SourceControlUpdate>, k: int)
    ensures
        (0 <= k < controls.len() && controls[k].id@ == s.id@ && forall|j: int|
            0 <= j < k ==> (#[trigger] controls[j]).id@ != s.id@) ==> {
            let c = controlled(s, controls);
            &&& c.gain == controls[k].gain
            &&& c.muted == controls[k].muted
            &&& c.id == s.id
            &&& c.device_id == s.device_id
        },
        (forall|j: int| 0 <= j < controls.len() ==> (#[trigger] controls[j]).id@ != s.id@)
            ==> controlled(s, controls) == s,
{
    if 0 <= k < controls.len() && controls[k].id@ == s.id@ && forall|j: int|
        0 <= j < k ==> (#[trigger] controls[j]).id@ != s.id@ {
        lemma_control_index_at(controls, k);
    }
    if forall|j: int| 0 <= j < controls.len() ==> (#[trigger] controls[j]).id@ != s.id@ {
        lemma_control_index_absent(controls, s.id@);
    }
}

/// An application source under a list of updates: the first update with its
/// id sets its gain and mute state and leaves its id, executable and display
/// name as they are; a source that no update names is kept as it is.
pub proof fn lemma_app_controls_apply(s: AppSourceConfig, controls: Seq<SourceControlUpdate>, k: int)
    ensures
        (0 <= k < controls.len() && controls[k].id@ == s.id@ && forall|j: int|
            0 <= j < k ==> (#[trigger] controls[j]).id@ != s.id@) ==> {
            let c = controlled(s, controls);
            &&& c.gain == controls[k].gain
            &&& c.muted == controls[k].muted
            &&& c.id == s.id
            &&& c.executable == s.executable
            &&& c.display_name == s.display_name
        },
        (forall|j: int| 0 <= j < controls.len() ==> (#[trigger] controls[j]).id@ != s.id@)
            ==> controlled(s, controls) == s,
{
    if 0 <= k < controls.len() && controls[k].id@ == s.id@ && forall|j: int|
        0 <= j < k ==> (#[trigger] controls[j]).id@ != s.id@ {
        lemma_control_index_at(controls, k);
    }
    if forall|j: int| 0 <= j < controls.len() ==> (#[trigger] controls[j]).id@ != s.id@ {
        lemma_control_index_absent(controls, s.id@);
    }
}

/// An update that carries a source's id, gain and mute state.
pub open spec fn control_of<T: SourceConfig>(s: T, gain: Level, muted: bool, c: SourceControlUpdate) -> bool {
    c.id@ == s.source_id() && c.gain == gain && c.muted == muted
}

impl ControlUpdate {
    /// The controls that a configuration holds.
    pub fn from_config(config: &AppConfig) -> (r: ControlUpdate)
        ensures
            r.mic_sources@.len() == config.mic_sources@.len(),
            forall|i: int|
                0 <= i < r.mic_sources@.len() ==> control_of(
                    config.mic_sources@[i],
                    config.mic_sources@[i].gain,
                    config.mic_sources@[i].muted,
                    #[trigger] r.mic_sources@[i],
                ),
            r.app_sources@.len() == config.app_sources@.len(),
            forall|i: int|
                0 <= i < r.app_sources@.len() ==> control_of(
                    config.app_sources@[i],
                    config.app_sources@[i].gain,
                    config.app_sources@[i].muted,
                    #[trigger] r.app_sources@[i],
                ),
            r.master_gain == config.master_gain,
            r.downmix_to_mono == config.downmix_to_mono,
    {
        let mut mic_sources: Vec<SourceControlUpdate> = Vec::new();
        let n = config.mic_sources.len();
        let mut i: usize = 0;
        while i < n
            invariant
                n == config.mic_sources@.len(),
                i <= n,
                mic_sources@.len() == i,
                forall|j: int|
                    0 <= j < i ==> control_of(
                        config.mic_sources@[j],
                        config.mic_sources@[j].gain,
                        config.mic_sources@[j].muted,
                        #[trigger] mic_sources@[j],
                    ),
            decreases n - i,
        {
            let source = &config.mic_sources[i];
            mic_sources.push(
                SourceControlUpdate { id: source.id.clone(), gain: source.gain, muted: source.muted },
            );
            i = i + 1;
        }
        let mut app_sources: Vec<SourceControlUpdate> = Vec::new();
        let m = config.app_sources.len();
        let mut j: usize = 0;
        while j < m
            invariant
                m == config.app_sources@.len(),
                j <= m,
                app_sources@.len() == j,
                forall|k: int|
                    0 <= k < j ==> control_of(
                        config.app_sources@[k],
                        config.app_sources@[k].gain,
                        config.app_sources@[k].muted,
                        #[trigger] app_sources@[k],
                    ),
            decreases m - j,
        {
            let source = &config.app_sources[j];
            app_sources.push(
                SourceControlUpdate { id: source.id.clone(), gain: source.gain, muted: source.muted },
            );
            j = j + 1;
        }
        ControlUpdate {
            mic_sources,
            app_sources,
            master_gain: config.master_gain,
            downmix_to_mono: config.downmix_to_mono,
        }
    }
}

/// Applying the controls that a configuration holds leaves its sources as
/// they are, where the ids within each source list are pairwise different.
pub proof fn lemma_own_controls_change_nothing(config: AppConfig, update: ControlUpdate)
    requires
        update.mic_sources@.len() == config.mic_sources@.len(),
        forall|i: int|
            0 <= i < update.mic_sources@.len() ==> control_of(
                config.mic_sources@[i],
                config.mic_sources@[i].gain,
                config.mic_sources@[i].muted,
                #[trigger] update.mic_sources@[i],
            ),
        update.app_sources@.len() == config.app_sources@.len(),
        forall|i: int|
            0 <= i < update.app_sources@.len() ==> control_of(
                config.app_sources@[i],
                config.app_sources@[i].gain,
                config.app_sources@[i].muted,
                #[trigger] update.app_sources@[i],
            ),
        forall|i: int, j: int|
            0 <= i < j < config.mic_sources@.len() ==> config.mic_sources@[i].id@
                != config.mic_sources@[j].id@,
        forall|i: int, j: int|
            0 <= i < j < config.app_sources@.len() ==> config.app_sources@[i].id@
                != config.app_sources@[j].id@,
    ensures
        forall|i: int|
            0 <= i < config.mic_sources@.len() ==> controlled(
                #[trigger] config.mic_sources@[i],
                update.mic_sources@,
            ) == config.mic_sources@[i],
        forall|i: int|
            0 <= i < config.app_sources@.len() ==> controlled(
                #[trigger] config.app_sources@[i],
                update.app_sources@,
            ) == config.app_sources@[i],
{
    assert forall|i: int| 0 <= i < config.mic_sources@.len() implies controlled(
        #[trigger] config.mic_sources@[i],
        update.mic_sources@,
    ) == config.mic_sources@[i] by {
        let u = update.mic_sources@;
        assert forall|j: int| 0 <= j < i implies (#[trigger] u[j]).id@ != u[i].id@ by {
            assert(control_of(config.mic_sources@[j], config.mic_sources@[j].gain, config.mic_sources@[j].muted, u[j]));
            assert(control_of(config.mic_sources@[i], config.mic_sources@[i].gain, config.mic_sources@[i].muted, u[i]));
        }
        lemma_control_index_at(u, i);
        assert(control_of(config.mic_sources@[i], config.mic_sources@[i].gain, config.mic_sources@[i].muted, u[i]));
    }
    assert forall|i: int| 0 <= i < config.app_sources@.len() implies controlled(
        #[trigger] config.app_sources@[i],
        update.app_sources@,
    ) == config.app_sources@[i] by {
        let u = update.app_sources@;
        assert forall|j: int| 0 <= j < i implies (#[trigger] u[j]).id@ != u[i].id@ by {
            assert(control_of(config.app_sources@[j], config.app_sources@[j].gain, config.app_sources@[j].muted, u[j]));
            assert(control_of(config.app_sources@[i], config.app_sources@[i].gain, config.app_sources@[i].muted, u[i]));
        }
        lemma_control_index_at(u, i);
        assert(control_of(config.app_sources@[i], config.app_sources@[i].gain, config.app_sources@[i].muted, u[i]));
    }
}

impl AppConfig {
    /// Applies the updates of each source's id, the master gain and the
    /// downmix choice; everything else is kept.
    pub fn apply_controls(&mut self, controls: &ControlUpdate)
        ensures
            final(self).mic_sources@.len() == old(self).mic_sources@.len(),
            forall|i: int|
                0 <= i < old(self).mic_sources@.len() ==> #[trigger] final(self).mic_sources@[i]
                    == controlled(old(self).mic_sources@[i], controls.mic_sources@),
            final(self).app_sources@.len() == old(self).app_sources@.len(),
            forall|i: int|
                0 <= i < old(self).app_sources@.len() ==> #[trigger] final(self).app_sources@[i]
                    == controlled(old(self).app_sources@[i], controls.app_sources@),
            final(self).master_gain == controls.master_gain,
            final(self).downmix_to_mono == controls.downmix_to_mono,
            final(self).output_device_id == old(self).output_device_id,
            final(self).buffer_frames == old(self).buffer_frames,
            final(self).shortcuts == old(self).shortcuts,
            final(self).start_with_windows == old(self).start_with_windows,
            final(self).minimize_to_tray == old(self).minimize_to_tray,
    {
        apply_source_controls(&mut self.mic_sources, controls.mic_sources.as_slice());
        apply_source_controls(&mut self.app_sources, controls.app_sources.as_slice());
        self.master_gain = controls.master_gain;
        self.downmix_to_mono = controls.downmix_to_mono;
    }
}

/// `o`'s value, or `d` where it is missing.
pub open spec fn or_else<T>(o: Option<T>, d: T) -> T {
    match o {
        Some(v) => v,
        None => d,
    }
}

/// The shortcuts that a saved configuration yields: the saved ones, or the
/// defaults where none were saved, each trimmed or replaced by its default
/// where blank.
pub open spec fn migrated_shortcuts(saved: Option<ShortcutConfig>, r: ShortcutConfig) -> bool {
    match saved {
        Some(s) => sanitized_shortcuts(s, r),
        None => {
            &&& r.mic_mute@ == sanitized_shortcut("Ctrl+Alt+M"@, "Ctrl+Alt+M"@)
            &&& r.app_mute@ == sanitized_shortcut("Ctrl+Alt+A"@, "Ctrl+Alt+A"@)
            &&& r.routing@ == sanitized_shortcut("Ctrl+Alt+S"@, "Ctrl+Alt+S"@)
        },
    }
}

/// The microphone sources that a saved configuration yields: the sanitised
/// list where it keeps any source, else the single legacy device, if any.
pub open spec fn migrated_mics(raw: RawAppConfig, r: Seq<MicSourceConfig>) -> bool {
    if first_occurrences(mic_keys(raw.mic_sources@)).len() > 0 {
        sanitized_mics(raw.mic_sources@, r)
    } else {
        match raw.mic_device_id {
            Some(d) => {
                &&& r.len() == 1
                &&& r[0].device_id == d
                &&& r[0].id@ == mic_id(d@)
                &&& r[0].gain.bits == or_else(raw.mic_gain, Level { bits: Level::unity_bits() }).bits
                &&& r[0].muted == or_else(raw.mic_muted, false)
            },
            None => r.len() == 0,
        }
    }
}

/// The executable of the legacy single application source: the normalised
/// process name, else the one named by the legacy session id.
pub open spec fn legacy_app_executable(raw: RawAppConfig) -> Option<Seq<char>> {
    let by_name = match raw.app_process_name {
        Some(n) => normalized_executable(n@),
        None => None,
    };
    match by_name {
        Some(e) => Some(e),
        None => match raw.app_session_id {
            Some(id) => legacy_executable(id@),
            None => None,
        },
    }
}

/// The application sources that a saved configuration yields: the sanitised
/// list where it keeps any source, else the single legacy application, if any.
pub open spec fn migrated_apps(raw: RawAppConfig, r: Seq<AppSourceConfig>) -> bool {
    if first_occurrences(app_keys(raw.app_sources@)).len() > 0 {
        sanitized_apps(raw.app_sources@, r)
    } else {
        match legacy_app_executable(raw) {
            Some(e) => {
                &&& r.len() == 1
                &&& r[0].executable@ == kept_executable(e)
                &&& r[0].id@ == app_id(kept_executable(e))
                &&& r[0].display_name is None
                &&& r[0].gain.bits == or_else(raw.app_gain, Level { bits: Level::unity_bits() }).bits
                &&& r[0].muted == or_else(raw.app_muted, false)
            },
            None => r.len() == 0,
        }
    }
}

/// The configuration that a saved one yields: missing fields take their
/// defaults, sources are sanitised, and the single-source layout of earlier
/// versions becomes one-element source lists.
pub open spec fn migrated(raw: RawAppConfig, c: AppConfig) -> bool {
    &&& migrated_mics(raw, c.mic_sources@)
    &&& migrated_apps(raw, c.app_sources@)
    &&& c.output_device_id == raw.output_device_id
    &&& c.master_gain.bits == or_else(raw.master_gain, Level { bits: Level::unity_bits() }).bits
    &&& c.buffer_frames == or_else(raw.buffer_frames, DEFAULT_BUFFER_FRAMES)
    &&& c.downmix_to_mono == or_else(raw.downmix_to_mono, true)
    &&& migrated_shortcuts(raw.shortcuts, c.shortcuts)
    &&& c.start_with_windows == or_else(raw.start_with_windows, true)
    &&& c.minimize_to_tray == or_else(raw.minimize_to_tray, true)
}

fn level_or_unity(o: Option<Level>) -> (r: Level)
    ensures
        r.bits == or_else(o, Level { bits: Level::unity_bits() }).bits,
{
    match o {
        Some(l) => l,
        None => Level::unity(),
    }
}

fn flag_or(o: Option<bool>, d: bool) -> (r: bool)
    ensures
        r == or_else(o, d),
{
    match o {
        Some(b) => b,
        None => d,
    }
}

impl AppConfig {
    /// The configuration that a saved one yields.
    pub fn from_raw(raw: RawAppConfig) -> (r: AppConfig)
        ensures
            migrated(raw, r),
    {
        let shortcuts = match raw.shortcuts {
            Some(s) => sanitize_shortcuts(s),
            None => sanitize_shortcuts(ShortcutConfig::defaults()),
        };
        let mut mic_sources = sanitize_mic_sources(raw.mic_sources);
        if mic_sources.len() == 0 {
            match raw.mic_device_id {
                Some(device_id) => {
                    mic_sources.push(
                        MicSourceConfig::new(
                            device_id,
                            level_or_unity(raw.mic_gain),
                            flag_or(raw.mic_muted, false),
                        ),
                    );
                },
                None => {},
            }
        }
        let mut app_sources = sanitize_app_sources(raw.app_sources);
        if app_sources.len() == 0 {
            let by_name = match &raw.app_process_name {
                Some(name) => normalize_executable(name.as_str()),
                None => None,
            };
            let executable = match by_name {
                Some(e) => Some(e),
                None => match &raw.app_session_id {
                    Some(id) => executable_from_legacy_session_id(id.as_str()),
                    None => None,
                },
            };
            match executable {
                Some(executable) => {
                    app_sources.push(
                        AppSourceConfig::new(
                            executable,
                            None,
                            level_or_unity(raw.app_gain),
                            flag_or(raw.app_muted, false),
                        ),
                    );
                },
                None => {},
            }
        }
        let buffer_frames = match raw.buffer_frames {
            Some(b) => b,
            None => DEFAULT_BUFFER_FRAMES,
        };
        AppConfig {
            mic_sources,
            app_sources,
            output_device_id: raw.output_device_id,
            master_gain: level_or_unity(raw.master_gain),
            buffer_frames,
            downmix_to_mono: flag_or(raw.downmix_to_mono, true),
            shortcuts,
            start_with_windows: flag_or(raw.start_with_windows, true),
            minimize_to_tray: flag_or(raw.minimize_to_tray, true),
        }
    }
}

proof fn lemma_first_occurrences_all(keys: Seq<Option<Seq<char>>>)
    requires
        forall|i: int| 0 <= i < keys.len() ==> (#[trigger] keys[i]) is Some,
        forall|i: int, j: int| 0 <= i < keys.len() && 0 <= j < keys.len() && i != j ==> keys[i] != keys[j],
    ensures
        first_occurrences(keys) =~= Seq::new(keys.len(), |i: int| i),
    decreases keys.len(),
{
    if keys.len() > 0 {
        let d = keys.drop_last();
        assert forall|i: int, j: int| 0 <= i < d.len() && 0 <= j < d.len() && i != j implies d[i] != d[j] by {
            assert(d[i] == keys[i] && d[j] == keys[j]);
        }
        lemma_first_occurrences_all(d);
        let n = keys.len() - 1;
        assert forall|j: int| 0 <= j < n implies keys[j] != keys[n] by {}
        assert(first_occurrence(keys, n));
    }
}

proof fn lemma_prefixed_id_not_blank(prefix: Seq<char>, rest: Seq<char>)
    requires
        prefix.len() > 0,
        !is_white_space(prefix[0]),
    ensures
        trim(prefix + rest).len() > 0,
{
    assert((prefix + rest)[0] == prefix[0]);
    lemma_trim_not_blank(prefix + rest);
}

/// Microphone sources as sanitising leaves them: trimmed, non-empty and
/// pairwise different device ids, and non-blank ids.
pub open spec fn mics_sanitized(s: Seq<MicSourceConfig>) -> bool {
    &&& forall|q: int|
        0 <= q < s.len() ==> trim((#[trigger] s[q]).device_id@) == s[q].device_id@
            && s[q].device_id@.len() > 0 && trim(s[q].id@).len() > 0
    &&& forall|q1: int, q2: int|
        0 <= q1 < s.len() && 0 <= q2 < s.len() && q1 != q2 ==> s[q1].device_id@ != s[q2].device_id@
}

/// Two lists of microphone sources with the same content.
pub open spec fn same_mics(a: Seq<MicSourceConfig>, b: Seq<MicSourceConfig>) -> bool {
    &&& a.len() == b.len()
    &&& forall|q: int|
        0 <= q < a.len() ==> (#[trigger] a[q]).id@ == b[q].id@ && a[q].device_id@ == b[q].device_id@
            && a[q].gain == b[q].gain && a[q].muted == b[q].muted
}

/// What sanitising microphone sources gives is sanitised.
pub proof fn lemma_sanitized_mics_are_sanitized(s: Seq<MicSourceConfig>, r: Seq<MicSourceConfig>)
    requires
        sanitized_mics(s, r),
    ensures
        mics_sanitized(r),
{
    lemma_sanitized_mics_distinct(s, r);
    let f = first_occurrences(mic_keys(s));
    reveal_strlit("mic:");
    assert forall|q: int| 0 <= q < r.len() implies trim((#[trigger] r[q]).device_id@) == r[q].device_id@
        && r[q].device_id@.len() > 0 && trim(r[q].id@).len() > 0 by {
        let src = s[f[q]];
        assert(sanitized_mic(src, r[q]));
        lemma_trim_idempotent(src.device_id@);
        if trim(src.id@).len() == 0 {
            assert("mic:"@[0] == 'm');
            lemma_prefixed_id_not_blank("mic:"@, trim(src.device_id@));
        }
    }
}

/// Sanitised microphone sources are kept as they are.
pub proof fn lemma_sanitized_mics_kept(s: Seq<MicSourceConfig>, r: Seq<MicSourceConfig>)
    requires
        mics_sanitized(s),
        sanitized_mics(s, r),
    ensures
        same_mics(r, s),
{
    let keys = mic_keys(s);
    assert forall|i: int| 0 <= i < keys.len() implies (#[trigger] keys[i]) == Some(s[i].device_id@) by {
        assert(trim(s[i].device_id@) == s[i].device_id@);
    }
    assert forall|i: int, j: int| 0 <= i < keys.len() && 0 <= j < keys.len() && i != j implies keys[i]
        != keys[j] by {
        assert(keys[i] == Some(s[i].device_id@));
        assert(keys[j] == Some(s[j].device_id@));
    }
    lemma_first_occurrences_all(keys);
    assert forall|q: int| 0 <= q < r.len() implies (#[trigger] r[q]).id@ == s[q].id@
        && r[q].device_id@ == s[q].device_id@ && r[q].gain == s[q].gain && r[q].muted == s[q].muted by {
        assert(first_occurrences(keys)[q] == q);
        assert(sanitized_mic(s[q], r[q]));
    }
}

/// Sanitising microphone sources a second time changes nothing.
pub proof fn lemma_sanitize_mics_idempotent(
    s: Seq<MicSourceConfig>,
    r: Seq<MicSourceConfig>,
    r2: Seq<MicSourceConfig>,
)
    requires
        sanitized_mics(s, r),
        sanitized_mics(r, r2),
    ensures
        same_mics(r2, r),
{
    lemma_sanitized_mics_are_sanitized(s, r);
    lemma_sanitized_mics_kept(r, r2);
}

/// Application sources as sanitising leaves them: normalised executables,
/// pairwise different in ASCII case aside, non-blank ids, and display names
/// that are missing or not blank.
pub open spec fn apps_sanitized(s: Seq<AppSourceConfig>) -> bool {
    &&& forall|q: int|
        0 <= q < s.len() ==> normalized_executable((#[trigger] s[q]).executable@) == Some(
            s[q].executable@,
        ) && trim(s[q].id@).len() > 0 && (s[q].display_name matches Some(n) ==> trim(n@).len() > 0)
    &&& forall|q1: int, q2: int|
        0 <= q1 < s.len() && 0 <= q2 < s.len() && q1 != q2 ==> lower(s[q1].executable@) != lower(
            s[q2].executable@,
        )
}

/// Two lists of application sources with the same content.
pub open spec fn same_apps(a: Seq<AppSourceConfig>, b: Seq<AppSourceConfig>) -> bool {
    &&& a.len() == b.len()
    &&& forall|q: int|
        0 <= q < a.len() ==> (#[trigger] a[q]).id@ == b[q].id@ && a[q].executable@
            == b[q].executable@ && a[q].display_name == b[q].display_name && a[q].gain == b[q].gain
            && a[q].muted == b[q].muted
}

/// What sanitising application sources gives is sanitised.
pub proof fn lemma_sanitized_apps_are_sanitized(s: Seq<AppSourceConfig>, r: Seq<AppSourceConfig>)
    requires
        sanitized_apps(s, r),
    ensures
        apps_sanitized(r),
{
    lemma_sanitized_apps_distinct(s, r);
    let keys = app_keys(s);
    lemma_first_occurrences(keys);
    let f = first_occurrences(keys);
    reveal_strlit("app:");
    assert forall|q: int| 0 <= q < r.len() implies normalized_executable(
        (#[trigger] r[q]).executable@,
    ) == Some(r[q].executable@) && trim(r[q].id@).len() > 0 && (r[q].display_name matches Some(n)
        ==> trim(n@).len() > 0) by {
        let src = s[f[q]];
        assert(sanitized_app(src, r[q]));
        assert(first_occurrence(keys, f[q]));
        assert(keys[f[q]] == app_key(src));
        let e = normalized_executable(src.executable@)->Some_0;
        lemma_trim_idempotent(src.executable@);
        assert(trim(e) == e);
        if trim(src.id@).len() == 0 {
            assert("app:"@[0] == 'a');
            lemma_prefixed_id_not_blank("app:"@, lower(e));
        }
    }
}

/// Sanitised application sources are kept as they are.
pub proof fn lemma_sanitized_apps_kept(s: Seq<AppSourceConfig>, r: Seq<AppSourceConfig>)
    requires
        apps_sanitized(s),
        sanitized_apps(s, r),
    ensures
        same_apps(r, s),
{
    let keys = app_keys(s);
    assert forall|i: int| 0 <= i < keys.len() implies (#[trigger] keys[i]) == Some(
        lower(s[i].executable@),
    ) by {
        assert(normalized_executable(s[i].executable@) == Some(s[i].executable@));
    }
    assert forall|i: int, j: int| 0 <= i < keys.len() && 0 <= j < keys.len() && i != j implies keys[i]
        != keys[j] by {
        assert(keys[i] == Some(lower(s[i].executable@)));
        assert(keys[j] == Some(lower(s[j].executable@)));
    }
    lemma_first_occurrences_all(keys);
    assert forall|q: int| 0 <= q < r.len() implies (#[trigger] r[q]).id@ == s[q].id@
        && r[q].executable@ == s[q].executable@ && r[q].display_name == s[q].display_name
        && r[q].gain == s[q].gain && r[q].muted == s[q].muted by {
        assert(first_occurrences(keys)[q] == q);
        assert(sanitized_app(s[q], r[q]));
        assert(normalized_executable(s[q].executable@) == Some(s[q].executable@));
    }
}

/// Sanitising application sources a second time changes nothing.
pub proof fn lemma_sanitize_apps_idempotent(
    s: Seq<AppSourceConfig>,
    r: Seq<AppSourceConfig>,
    r2: Seq<AppSourceConfig>,
)
    requires
        sanitized_apps(s, r),
        sanitized_apps(r, r2),
    ensures
        same_apps(r2, r),
{
    lemma_sanitized_apps_are_sanitized(s, r);
    lemma_sanitized_apps_kept(r, r2);
}

/// A shortcut as sanitising leaves it: trimmed and not empty.
pub open spec fn shortcut_sanitized(s: Seq<char>) -> bool {
    trim(s) == s && s.len() > 0
}

/// A configuration as loading leaves it: sanitised sources and shortcuts.
pub open spec fn config_sanitized(c: AppConfig) -> bool {
    &&& mics_sanitized(c.mic_sources@)
    &&& apps_sanitized(c.app_sources@)
    &&& shortcut_sanitized(c.shortcuts.mic_mute@)
    &&& shortcut_sanitized(c.shortcuts.app_mute@)
    &&& shortcut_sanitized(c.shortcuts.routing@)
}

/// How a configuration is saved and read back before migration: every field
/// present, and none of the single-source fields of earlier versions.
pub open spec fn saved_form(c: AppConfig, raw: RawAppConfig) -> bool {
    &&& raw.mic_sources@ == c.mic_sources@
    &&& raw.app_sources@ == c.app_sources@
    &&& raw.output_device_id == c.output_device_id
    &&& raw.master_gain == Some(c.master_gain)
    &&& raw.buffer_frames == Some(c.buffer_frames)
    &&& raw.downmix_to_mono == Some(c.downmix_to_mono)
    &&& raw.shortcuts == Some(c.shortcuts)
    &&& raw.start_with_windows == Some(c.start_with_windows)
    &&& raw.minimize_to_tray == Some(c.minimize_to_tray)
    &&& raw.mic_device_id is None
    &&& raw.app_session_id is None
    &&& raw.app_process_name is None
}

/// A sanitised configuration, saved and loaded again, comes back with the
/// same content.
pub proof fn lemma_saved_config_loads_back(c: AppConfig, raw: RawAppConfig, r: AppConfig)
    requires
        config_sanitized(c),
        saved_form(c, raw),
        migrated(raw, r),
    ensures
        same_mics(r.mic_sources@, c.mic_sources@),
        same_apps(r.app_sources@, c.app_sources@),
        r.output_device_id == c.output_device_id,
        r.master_gain == c.master_gain,
        r.buffer_frames == c.buffer_frames,
        r.downmix_to_mono == c.downmix_to_mono,
        r.shortcuts.mic_mute@ == c.shortcuts.mic_mute@,
        r.shortcuts.app_mute@ == c.shortcuts.app_mute@,
        r.shortcuts.routing@ == c.shortcuts.routing@,
        r.start_with_windows == c.start_with_windows,
        r.minimize_to_tray == c.minimize_to_tray,
{
    let mics = c.mic_sources@;
    let apps = c.app_sources@;
    if mics.len() > 0 {
        let keys = mic_keys(mics);
        assert forall|i: int| 0 <= i < keys.len() implies (#[trigger] keys[i]) is Some by {
            assert(trim(mics[i].device_id@) == mics[i].device_id@);
        }
        assert forall|i: int, j: int| 0 <= i < keys.len() && 0 <= j < keys.len() && i != j implies keys[i]
            != keys[j] by {
            assert(trim(mics[i].device_id@) == mics[i].device_id@);
            assert(trim(mics[j].device_id@) == mics[j].device_id@);
        }
        lemma_first_occurrences_all(keys);
        lemma_sanitized_mics_kept(mics, r.mic_sources@);
    } else {
        assert(first_occurrences(mic_keys(mics)).len() == 0);
    }
    if apps.len() > 0 {
        let keys = app_keys(apps);
        assert forall|i: int| 0 <= i < keys.len() implies (#[trigger] keys[i]) is Some by {
            assert(normalized_executable(apps[i].executable@) == Some(apps[i].executable@));
        }
        assert forall|i: int, j: int| 0 <= i < keys.len() && 0 <= j < keys.len() && i != j implies keys[i]
            != keys[j] by {
            assert(normalized_executable(apps[i].executable@) == Some(apps[i].executable@));
            assert(normalized_executable(apps[j].executable@) == Some(apps[j].executable@));
        }
        lemma_first_occurrences_all(keys);
        lemma_sanitized_apps_kept(apps, r.app_sources@);
    } else {
        assert(first_occurrences(app_keys(apps)).len() == 0);
    }
    assert(r.master_gain.bits == c.master_gain.bits);
}

/// The directory under which the configuration file lives: the roaming
/// application data directory, else the XDG configuration directory, else the
/// home directory, else the temporary directory.
#[derive(Debug, Clone, Copy, PartialEq, Eq, Structural)]
pub enum ConfigBase {
    AppData,
    XdgConfigHome,
    Home,
    TempDir,
}

/// The first base directory that is set, in the order `APPDATA`,
/// `XDG_CONFIG_HOME`, `HOME`; the temporary directory where none is.
pub fn config_base(appdata_set: bool, xdg_config_home_set: bool, home_set: bool) -> (r: ConfigBase)
    ensures
        r == if appdata_set {
            ConfigBase::AppData
        } else if xdg_config_home_set {
            ConfigBase::XdgConfigHome
        } else if home_set {
            ConfigBase::Home
        } else {
            ConfigBase::TempDir
        },
{
    if appdata_set {
        ConfigBase::AppData
    } else if xdg_config_home_set {
        ConfigBase::XdgConfigHome
    } else if home_set {
        ConfigBase::Home
    } else {
        ConfigBase::TempDir
    }
}

/// The path components of the configuration file below its base directory:
/// `PipeMic/config.json` below a configuration directory, and
/// `.config/PipeMic/config.json` below the home or temporary directory.
pub fn config_path_suffix(base: ConfigBase) -> (r: Vec<String>)
    ensures
        string_views(r@) == if base is AppData || base is XdgConfigHome {
            seq!["PipeMic"@, "config.json"@]
        } else {
            seq![".config"@, "PipeMic"@, "config.json"@]
        },
{
    let mut r: Vec<String> = Vec::new();
    match base {
        ConfigBase::AppData | ConfigBase::XdgConfigHome => {},
        ConfigBase::Home | ConfigBase::TempDir => {
            r.push(owned(".config"));
        },
    }
    r.push(owned("PipeMic"));
    r.push(owned("config.json"));
    assert(string_views(r@) =~= if base is AppData || base is XdgConfigHome {
        seq!["PipeMic"@, "config.json"@]
    } else {
        seq![".config"@, "PipeMic"@, "config.json"@]
    });
    r
}

} // verus!
