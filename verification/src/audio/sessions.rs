//! Which application sessions may be selected as sources, and how the audio
//! sessions and visible windows of one executable are merged into one entry.
use vstd::prelude::*;
use vstd::string::*;
use vstd::utf8::encode_utf8;

use crate::audio::types::{AppDiscoverySource, AudioSession, SessionState};
use crate::order::{
    is_sorted, items_of, keyed_le, kviews, lemma_stable_sort_pairwise, lemma_stable_sort_sorted,
    sort_keyed, stable_sort, unkey, Keyed, KeyedView,
};
use crate::text::{
    lex_le, concat, contains_char, decimal, ends_with, ends_with_str, eq_ignore_ascii_case, is_blank,
    lower, owned, push_decimal, strip_suffixes, to_ascii_lowercase, trim, trim_end_matches_str,
    trim_str,
};

verus! {

/// The executable name that stands for PipeMic itself.
pub open spec fn self_executable() -> Seq<char> {
    "pipemic.exe"@
}

/// A session that may be selected: not expired, a bare `.exe` file name (no
/// path), and not PipeMic itself.
pub open spec fn selectable(s: AudioSession) -> bool {
    let exe = trim(s.executable@);
    &&& s.state != SessionState::Expired
    &&& ends_with(lower(exe), ".exe"@)
    &&& lower(exe) != self_executable()
    &&& !exe.contains('\\')
    &&& !exe.contains('/')
}

/// The selectable sessions of `s`, in their order.
pub open spec fn selectable_only(s: Seq<AudioSession>) -> Seq<AudioSession>
    decreases s.len(),
{
    if s.len() == 0 {
        s
    } else if selectable(s.last()) {
        selectable_only(s.drop_last()).push(s.last())
    } else {
        selectable_only(s.drop_last())
    }
}

/// 4 for an active session, plus 2 with an audio session, plus 1 with a window.
pub open spec fn session_rank(s: AudioSession) -> u8 {
    ((if s.state == SessionState::Active { 4int } else { 0 }) + (if s.has_audio_session {
        2int
    } else {
        0
    }) + (if s.window_title is Some { 1int } else { 0 })) as u8
}

/// The lower-cased window title, or display name where the title is blank.
pub open spec fn session_label(s: AudioSession) -> Seq<char> {
    match s.window_title {
        Some(t) => if trim(t@).len() != 0 {
            lower(t@)
        } else {
            lower(s.display_name@)
        },
        None => lower(s.display_name@),
    }
}

/// The sort keys of sessions.
pub open spec fn session_keys(s: Seq<AudioSession>) -> Seq<KeyedView<AudioSession>> {
    Seq::new(s.len(), |i: int| (session_rank(s[i]), session_label(s[i]), s[i]))
}

/// Sessions with the highest rank first, equal ranks by label, otherwise in
/// their order.
pub open spec fn by_rank_then_label(s: Seq<AudioSession>) -> Seq<AudioSession> {
    items_of(stable_sort(session_keys(s)))
}

/// An executable name without a `.exe` or `.EXE` extension.
pub open spec fn exe_stem(exe: Seq<char>) -> Seq<char> {
    if ends_with(exe, ".exe"@) {
        exe.subrange(0, exe.len() - ".exe"@.len())
    } else if ends_with(exe, ".EXE"@) {
        exe.subrange(0, exe.len() - ".EXE"@.len())
    } else {
        exe
    }
}

/// How much a window title says: its length in characters, plus 1000 when it
/// differs from the executable's name and is longer in UTF-8 bytes (the length
/// `str::len` reports).
pub open spec fn title_score(title: Seq<char>, exe: Seq<char>) -> int {
    let stem = lower(exe_stem(exe));
    let t = lower(title);
    let context = t != stem && (encode_utf8(t).len() as usize) > (encode_utf8(stem).len() as usize);
    title.len() + if context {
        1000int
    } else {
        0
    }
}

/// The window title kept when two entries of one executable merge.
pub open spec fn merged_title(e: AudioSession, n: AudioSession) -> Option<String> {
    match e.window_title {
        None => n.window_title,
        Some(l) => match n.window_title {
            None => Some(l),
            Some(r) => if title_score(r@, n.executable@) > title_score(l@, e.executable@) {
                Some(r)
            } else {
                Some(l)
            },
        },
    }
}

/// `e` merged with a later entry `n` of the same executable: an active `n`
/// replaces the identity of an inactive `e`; audio and window evidence
/// accumulate.
pub open spec fn merge_pair(e: AudioSession, n: AudioSession) -> AudioSession {
    let take = e.state != SessionState::Active && n.state == SessionState::Active;
    let title = merged_title(e, n);
    let has_audio = e.has_audio_session || n.has_audio_session;
    let name = if take {
        n.display_name
    } else {
        e.display_name
    };
    AudioSession {
        id: if take {
            n.id
        } else {
            e.id
        },
        display_name: if title is None && trim(name@).len() == 0 && trim(n.display_name@).len()
            != 0 {
            n.display_name
        } else {
            name
        },
        executable: e.executable,
        process_id: if take {
            n.process_id
        } else {
            e.process_id
        },
        state: if take {
            n.state
        } else {
            e.state
        },
        is_excluded_default: e.is_excluded_default,
        window_title: title,
        has_audio_session: has_audio,
        discovery_source: if has_audio && title is Some {
            AppDiscoverySource::Merged
        } else if has_audio {
            AppDiscoverySource::AudioSession
        } else {
            AppDiscoverySource::Window
        },
    }
}

/// Two executable names that differ in ASCII case only.
pub open spec fn same_exe(a: Seq<char>, b: Seq<char>) -> bool {
    lower(a) == lower(b)
}

/// The first index in `m` whose executable is `exe`, or -1.
pub open spec fn exe_index(m: Seq<AudioSession>, exe: Seq<char>) -> int
    decreases m.len(),
{
    if m.len() == 0 {
        -1
    } else if same_exe(m[0].executable@, exe) {
        0
    } else {
        let k = exe_index(m.drop_first(), exe);
        if k < 0 {
            -1
        } else {
            k + 1
        }
    }
}

/// `x` merged into the entry of its executable, or appended.
pub open spec fn merge_into(m: Seq<AudioSession>, x: AudioSession) -> Seq<AudioSession> {
    let k = exe_index(m, x.executable@);
    if k < 0 {
        m.push(x)
    } else {
        m.update(k, merge_pair(m[k], x))
    }
}

/// The sessions merged by executable, in order of first appearance.
pub open spec fn merge_all(s: Seq<AudioSession>) -> Seq<AudioSession>
    decreases s.len(),
{
    if s.len() == 0 {
        s
    } else {
        merge_into(merge_all(s.drop_last()), s.last())
    }
}

/// The merged sessions, ordered by rank and label.
pub open spec fn merged_by_executable(s: Seq<AudioSession>) -> Seq<AudioSession> {
    by_rank_then_label(merge_all(s))
}

/// The sessions offered for selection.
pub open spec fn selectable_sessions(s: Seq<AudioSession>) -> Seq<AudioSession> {
    merged_by_executable(by_rank_then_label(selectable_only(s)))
}

/// Ordering by rank and label keeps the sessions: the same number, each
/// one of the input, and two positions hold two positions of the input.
pub proof fn lemma_by_rank_then_label_members(s: Seq<AudioSession>, apart: spec_fn(AudioSession, AudioSession) -> bool)
    requires
        forall|i: int, j: int| 0 <= i < s.len() && 0 <= j < s.len() && i != j ==> apart(s[i], s[j]),
    ensures
        by_rank_then_label(s).len() == s.len(),
        forall|k: int|
            0 <= k < s.len() ==> exists|i: int|
                0 <= i < s.len() && #[trigger] by_rank_then_label(s)[k] == s[i],
        forall|i: int, j: int|
            0 <= i < s.len() && 0 <= j < s.len() && i != j ==> apart(
                by_rank_then_label(s)[i],
                by_rank_then_label(s)[j],
            ),
{
    let keys = session_keys(s);
    lemma_stable_sort_pairwise(keys, apart);
    let sorted = stable_sort(keys);
    assert forall|k: int| 0 <= k < s.len() implies exists|i: int|
        0 <= i < s.len() && #[trigger] by_rank_then_label(s)[k] == s[i] by {
        let i = choose|i: int| 0 <= i < keys.len() && #[trigger] sorted[k] == keys[i];
        assert(by_rank_then_label(s)[k] == s[i]);
    }
}

proof fn lemma_selectable_only(s: Seq<AudioSession>)
    ensures
        forall|k: int| 0 <= k < selectable_only(s).len() ==> selectable(#[trigger] selectable_only(s)[k]),
    decreases s.len(),
{
    if s.len() > 0 {
        lemma_selectable_only(s.drop_last());
        let r = selectable_only(s.drop_last());
        if selectable(s.last()) {
            assert forall|k: int| 0 <= k < r.len() + 1 implies selectable(
                #[trigger] r.push(s.last())[k],
            ) by {
                if k < r.len() {
                    assert(r.push(s.last())[k] == r[k]);
                }
            }
        }
    }
}

proof fn lemma_exe_index_absent(m: Seq<AudioSession>, exe: Seq<char>)
    requires
        exe_index(m, exe) < 0,
    ensures
        forall|i: int| 0 <= i < m.len() ==> !same_exe(#[trigger] m[i].executable@, exe),
    decreases m.len(),
{
    if m.len() > 0 {
        lemma_exe_index_absent(m.drop_first(), exe);
        assert forall|i: int| 0 <= i < m.len() implies !same_exe(#[trigger] m[i].executable@, exe) by {
            if i > 0 {
                assert(m[i] == m.drop_first()[i - 1]);
                assert(!same_exe(m.drop_first()[i - 1].executable@, exe));
            }
        }
    }
}

proof fn lemma_merge_all(s: Seq<AudioSession>)
    requires
        forall|k: int| 0 <= k < s.len() ==> selectable(#[trigger] s[k]),
    ensures
        forall|k: int| 0 <= k < merge_all(s).len() ==> selectable(#[trigger] merge_all(s)[k]),
        forall|i: int, j: int|
            0 <= i < merge_all(s).len() && 0 <= j < merge_all(s).len() && i != j ==> !same_exe(
                merge_all(s)[i].executable@,
                merge_all(s)[j].executable@,
            ),
    decreases s.len(),
{
    if s.len() > 0 {
        let d = s.drop_last();
        let x = s.last();
        lemma_merge_all(d);
        let m = merge_all(d);
        lemma_exe_index_bounds(m, x.executable@);
        let k = exe_index(m, x.executable@);
        if k < 0 {
            lemma_exe_index_absent(m, x.executable@);
            let r = m.push(x);
            assert forall|i: int, j: int|
                0 <= i < r.len() && 0 <= j < r.len() && i != j implies !same_exe(
                r[i].executable@,
                r[j].executable@,
            ) by {
                if j == m.len() {
                    assert(!same_exe(m[i].executable@, x.executable@));
                } else if i == m.len() {
                    assert(!same_exe(m[j].executable@, x.executable@));
                }
            }
        } else {
            let r = m.update(k, merge_pair(m[k], x));
            assert(r[k].executable == m[k].executable);
            assert(selectable(r[k]));
            assert forall|i: int| 0 <= i < r.len() implies #[trigger] r[i].executable
                == m[i].executable by {}
            assert forall|i: int, j: int|
                0 <= i < r.len() && 0 <= j < r.len() && i != j implies !same_exe(
                r[i].executable@,
                r[j].executable@,
            ) by {
                assert(r[i].executable == m[i].executable);
                assert(r[j].executable == m[j].executable);
            }
        }
    }
}

/// Sessions ordered by rank and label: an active session comes before every
/// session that is not active, whatever audio or window the latter has; and
/// of two sessions that are both active or both not, one without an audio
/// session never comes before one with an audio session.
pub proof fn lemma_rank_order_active_first(t: Seq<AudioSession>)
    ensures
        forall|i: int, j: int|
            0 <= i < j < by_rank_then_label(t).len() ==> {
                let a = #[trigger] by_rank_then_label(t)[i];
                let b = #[trigger] by_rank_then_label(t)[j];
                &&& b.state == SessionState::Active ==> a.state == SessionState::Active
                &&& ((a.state == SessionState::Active) == (b.state == SessionState::Active)
                    && b.has_audio_session) ==> a.has_audio_session
            },
{
    let keys = session_keys(t);
    let sorted = stable_sort(keys);
    lemma_stable_sort_sorted(keys);
    lemma_stable_sort_pairwise(keys, |a: AudioSession, b: AudioSession| true);
    let r = by_rank_then_label(t);
    assert forall|i: int, j: int| 0 <= i < j < r.len() implies {
        let a = #[trigger] r[i];
        let b = #[trigger] r[j];
        &&& b.state == SessionState::Active ==> a.state == SessionState::Active
        &&& ((a.state == SessionState::Active) == (b.state == SessionState::Active)
            && b.has_audio_session) ==> a.has_audio_session
    } by {
        let ki = choose|k: int| 0 <= k < keys.len() && #[trigger] sorted[i] == keys[k];
        let kj = choose|k: int| 0 <= k < keys.len() && #[trigger] sorted[j] == keys[k];
        assert(keyed_le(sorted[i], sorted[j]));
        assert(r[i] == sorted[i].2);
        assert(r[j] == sorted[j].2);
        assert(sorted[i].0 == session_rank(r[i]));
        assert(sorted[j].0 == session_rank(r[j]));
    }
}

/// The sessions offered for selection: every active one comes before every
/// one that is not active, and of two equally active ones, one with an audio
/// session comes before one without.
pub proof fn lemma_offered_sessions_active_first(s: Seq<AudioSession>)
    ensures
        forall|i: int, j: int|
            0 <= i < j < selectable_sessions(s).len() ==> {
                let a = #[trigger] selectable_sessions(s)[i];
                let b = #[trigger] selectable_sessions(s)[j];
                &&& b.state == SessionState::Active ==> a.state == SessionState::Active
                &&& ((a.state == SessionState::Active) == (b.state == SessionState::Active)
                    && b.has_audio_session) ==> a.has_audio_session
            },
{
    lemma_rank_order_active_first(merge_all(by_rank_then_label(selectable_only(s))));
}

/// Sessions merged by executable: every active entry comes before every entry
/// that is not active, and of two equally active ones, one with an audio
/// session comes before one without.
pub proof fn lemma_merged_sessions_active_first(s: Seq<AudioSession>)
    ensures
        forall|i: int, j: int|
            0 <= i < j < merged_by_executable(s).len() ==> {
                let a = #[trigger] merged_by_executable(s)[i];
                let b = #[trigger] merged_by_executable(s)[j];
                &&& b.state == SessionState::Active ==> a.state == SessionState::Active
                &&& ((a.state == SessionState::Active) == (b.state == SessionState::Active)
                    && b.has_audio_session) ==> a.has_audio_session
            },
{
    lemma_rank_order_active_first(merge_all(s));
}

/// When two entries of one executable merge, the window title kept is one of
/// theirs: the only one where only one has a title, and where both have one,
/// the title whose score (its length, plus 1000 where it says more than the
/// executable's name) is higher, the earlier entry's on a tie.
pub proof fn lemma_merged_title_best(e: AudioSession, n: AudioSession)
    ensures
        e.window_title is None ==> merge_pair(e, n).window_title == n.window_title,
        n.window_title is None ==> merge_pair(e, n).window_title == e.window_title,
        match (e.window_title, n.window_title) {
            (Some(l), Some(r)) => {
                &&& title_score(r@, n.executable@) <= title_score(l@, e.executable@) ==> merge_pair(
                    e,
                    n,
                ).window_title == Some(l)
                &&& title_score(r@, n.executable@) > title_score(l@, e.executable@) ==> merge_pair(
                    e,
                    n,
                ).window_title == Some(r)
            },
            _ => true,
        },
{
}

/// Every session offered for selection is selectable: not expired, named by
/// a bare `.exe` file name, and not PipeMic itself.
pub proof fn lemma_offered_sessions_selectable(s: Seq<AudioSession>)
    ensures
        forall|k: int|
            0 <= k < selectable_sessions(s).len() ==> selectable(#[trigger] selectable_sessions(s)[k]),
{
    let kept = selectable_only(s);
    lemma_selectable_only(s);
    let always = |a: AudioSession, b: AudioSession| true;
    lemma_by_rank_then_label_members(kept, always);
    let sorted = by_rank_then_label(kept);
    assert forall|k: int| 0 <= k < sorted.len() implies selectable(#[trigger] sorted[k]) by {
        let i = choose|i: int| 0 <= i < kept.len() && #[trigger] sorted[k] == kept[i];
    }
    lemma_merge_all(sorted);
    let merged = merge_all(sorted);
    lemma_by_rank_then_label_members(merged, always);
    let r = by_rank_then_label(merged);
    assert forall|k: int| 0 <= k < r.len() implies selectable(#[trigger] r[k]) by {
        let i = choose|i: int| 0 <= i < merged.len() && #[trigger] r[k] == merged[i];
    }
}

/// The sessions offered for selection name pairwise different executables,
/// ASCII case aside.
pub proof fn lemma_offered_sessions_distinct(s: Seq<AudioSession>)
    ensures
        forall|i: int, j: int|
            0 <= i < selectable_sessions(s).len() && 0 <= j < selectable_sessions(s).len() && i
                != j ==> !same_exe(
                selectable_sessions(s)[i].executable@,
                selectable_sessions(s)[j].executable@,
            ),
{
    let kept = selectable_only(s);
    lemma_selectable_only(s);
    let always = |a: AudioSession, b: AudioSession| true;
    lemma_by_rank_then_label_members(kept, always);
    let sorted = by_rank_then_label(kept);
    assert forall|k: int| 0 <= k < sorted.len() implies selectable(#[trigger] sorted[k]) by {
        let i = choose|i: int| 0 <= i < kept.len() && #[trigger] sorted[k] == kept[i];
    }
    lemma_merge_all(sorted);
    let merged = merge_all(sorted);
    let apart = |a: AudioSession, b: AudioSession| !same_exe(a.executable@, b.executable@);
    assert forall|i: int, j: int|
        0 <= i < merged.len() && 0 <= j < merged.len() && i != j implies apart(merged[i], merged[j]) by {}
    lemma_by_rank_then_label_members(merged, apart);
}

/// The sessions offered for selection come by rank, highest first, and
/// sessions of equal rank by label.
pub proof fn lemma_offered_sessions_ordered(s: Seq<AudioSession>)
    ensures
        forall|i: int, j: int|
            0 <= i < j < selectable_sessions(s).len() ==> {
                let a = #[trigger] selectable_sessions(s)[i];
                let b = #[trigger] selectable_sessions(s)[j];
                session_rank(a) > session_rank(b) || (session_rank(a) == session_rank(b) && lex_le(
                    session_label(a),
                    session_label(b),
                ))
            },
{
    let merged = merge_all(by_rank_then_label(selectable_only(s)));
    let keys = session_keys(merged);
    let sorted = stable_sort(keys);
    lemma_stable_sort_sorted(keys);
    lemma_stable_sort_pairwise(keys, |a: AudioSession, b: AudioSession| true);
    let r = selectable_sessions(s);
    assert forall|i: int, j: int| 0 <= i < j < r.len() implies {
        let a = #[trigger] r[i];
        let b = #[trigger] r[j];
        session_rank(a) > session_rank(b) || (session_rank(a) == session_rank(b) && lex_le(
            session_label(a),
            session_label(b),
        ))
    } by {
        let ki = choose|k: int| 0 <= k < keys.len() && #[trigger] sorted[i] == keys[k];
        let kj = choose|k: int| 0 <= k < keys.len() && #[trigger] sorted[j] == keys[k];
        assert(keyed_le(sorted[i], sorted[j]));
        assert(r[i] == sorted[i].2);
        assert(r[j] == sorted[j].2);
    }
}

/// Whether a session may be selected as a source.
pub fn is_selectable_application_session(session: &AudioSession) -> (r: bool)
    ensures
        r == selectable(*session),
{
    let executable = trim_str(session.executable.as_str());
    let lowered = to_ascii_lowercase(executable.as_str());
    session.state != SessionState::Expired && ends_with_str(lowered.as_str(), ".exe")
        && !is_self_process(executable.as_str()) && !contains_char(executable.as_str(), '\\')
        && !contains_char(executable.as_str(), '/')
}

/// Whether an executable name is PipeMic's own.
fn is_self_process(executable: &str) -> (r: bool)
    ensures
        r == (lower(executable@) == self_executable()),
{
    let lowered = to_ascii_lowercase(executable);
    let own = owned("pipemic.exe");
    lowered == own
}

/// `session_rank`.
fn session_rank_of(session: &AudioSession) -> (r: u8)
    ensures
        r == session_rank(*session),
{
    let active: u8 = if session.state == SessionState::Active {
        4
    } else {
        0
    };
    let audio: u8 = if session.has_audio_session {
        2
    } else {
        0
    };
    let window: u8 = if session.window_title.is_some() {
        1
    } else {
        0
    };
    active + audio + window
}

/// `session_label`.
fn session_label_of(session: &AudioSession) -> (r: String)
    ensures
        r@ == session_label(*session),
{
    match &session.window_title {
        Some(title) => {
            if !is_blank(title.as_str()) {
                to_ascii_lowercase(title.as_str())
            } else {
                to_ascii_lowercase(session.display_name.as_str())
            }
        },
        None => to_ascii_lowercase(session.display_name.as_str()),
    }
}

/// Orders sessions by rank, highest first, then by label; stable.
fn sort_by_rank_then_label(sessions: Vec<AudioSession>) -> (r: Vec<AudioSession>)
    ensures
        r@ == by_rank_then_label(sessions@),
{
    let ghost orig = sessions@;
    let mut rest = sessions;
    let mut keyed: Vec<Keyed<AudioSession>> = Vec::new();
    let n = rest.len();
    let mut i: usize = 0;
    while i < n
        invariant
            n == orig.len(),
            i <= n,
            rest@ == orig.skip(i as int),
            kviews(keyed@) == session_keys(orig.take(i as int)),
        decreases n - i,
    {
        let s = rest.remove(0);
        assert(rest@ =~= orig.skip(i + 1));
        assert(s == orig[i as int]);
        let rank = session_rank_of(&s);
        let label = session_label_of(&s);
        let ghost before = kviews(keyed@);
        keyed.push(Keyed { rank, label, item: s });
        assert(kviews(keyed@) =~= before.push((rank, label@, s)));
        assert(session_keys(orig.take(i + 1)) =~= session_keys(orig.take(i as int)).push(
            (session_rank(orig[i as int]), session_label(orig[i as int]), orig[i as int]),
        ));
        i = i + 1;
    }
    assert(orig.take(n as int) =~= orig);
    let sorted = sort_keyed(keyed);
    unkey(sorted)
}

/// `str::strip_suffix` of `.exe`, then of `.EXE`, else the name itself.
fn executable_stem(executable: &str) -> (r: String)
    ensures
        r@ == exe_stem(executable@),
{
    let n = executable.unicode_len();
    if ends_with_str(executable, ".exe") {
        let m = ".exe".unicode_len();
        owned(executable.substring_char(0, n - m))
    } else if ends_with_str(executable, ".EXE") {
        let m = ".EXE".unicode_len();
        owned(executable.substring_char(0, n - m))
    } else {
        owned(executable)
    }
}

/// `title_score`.
fn window_title_score(title: &str, executable: &str) -> (r: u128)
    ensures
        r == title_score(title@, executable@),
{
    let stem = executable_stem(executable);
    let stem_lower = to_ascii_lowercase(stem.as_str());
    let normalized = to_ascii_lowercase(title);
    let has_context = !(normalized == stem_lower) && normalized.as_str().len()
        > stem_lower.as_str().len();
    let count = title.unicode_len() as u128;
    if has_context {
        count + 1000
    } else {
        count
    }
}

/// The window title kept when `existing` absorbs `next`.
fn best_window_title(existing: &AudioSession, next: &AudioSession) -> (r: Option<String>)
    ensures
        r == merged_title(*existing, *next),
{
    match &existing.window_title {
        None => match &next.window_title {
            None => None,
            Some(title) => Some(title.clone()),
        },
        Some(left) => match &next.window_title {
            None => Some(left.clone()),
            Some(right) => {
                if window_title_score(right.as_str(), next.executable.as_str())
                    > window_title_score(left.as_str(), existing.executable.as_str()) {
                    Some(right.clone())
                } else {
                    Some(left.clone())
                }
            },
        },
    }
}

/// Merges a later entry of the same executable into `existing`.
fn merge_session(existing: &mut AudioSession, next: AudioSession)
    ensures
        *final(existing) == merge_pair(*old(existing), next),
{
    if existing.state != SessionState::Active && next.state == SessionState::Active {
        existing.id = next.id.clone();
        existing.display_name = next.display_name.clone();
        existing.process_id = next.process_id;
        existing.state = next.state;
    }
    existing.has_audio_session = existing.has_audio_session || next.has_audio_session;
    existing.window_title = best_window_title(existing, &next);
    existing.discovery_source =
        if existing.has_audio_session && existing.window_title.is_some() {
        AppDiscoverySource::Merged
    } else if existing.has_audio_session {
        AppDiscoverySource::AudioSession
    } else {
        AppDiscoverySource::Window
    };
    if existing.window_title.is_none() && is_blank(existing.display_name.as_str()) && !is_blank(
        next.display_name.as_str(),
    ) {
        existing.display_name = next.display_name;
    }
}

/// `str::eq_ignore_ascii_case` of two executable names.
pub fn same_executable(left: &str, right: &str) -> (r: bool)
    ensures
        r == same_exe(left@, right@),
{
    eq_ignore_ascii_case(left, right)
}

/// The first index of an entry of `exe` in `m`, if any.
fn find_executable(m: &Vec<AudioSession>, exe: &str) -> (r: Option<usize>)
    ensures
        match r {
            Some(k) => k == exe_index(m@, exe@),
            None => exe_index(m@, exe@) < 0,
        },
        exe_index(m@, exe@) < m@.len(),
{
    let n = m.len();
    let mut k: usize = 0;
    assert(m@.skip(0) =~= m@);
    while k < n
        invariant
            n == m@.len(),
            k <= n,
            forall|j: int| 0 <= j < k ==> !same_exe(#[trigger] m@[j].executable@, exe@),
            exe_index(m@, exe@) == if exe_index(m@.skip(k as int), exe@) < 0 {
                -1
            } else {
                exe_index(m@.skip(k as int), exe@) + k
            },
        decreases n - k,
    {
        if same_executable(m[k].executable.as_str(), exe) {
            return Some(k);
        }
        assert(m@.skip(k as int).drop_first() =~= m@.skip(k + 1));
        k = k + 1;
    }
    None
}

proof fn lemma_exe_index_bounds(m: Seq<AudioSession>, exe: Seq<char>)
    ensures
        -1 <= exe_index(m, exe) < m.len(),
        exe_index(m, exe) >= 0 ==> same_exe(m[exe_index(m, exe)].executable@, exe),
    decreases m.len(),
{
    if m.len() > 0 {
        lemma_exe_index_bounds(m.drop_first(), exe);
    }
}

/// Merges the entries of each executable into the first of them, then orders
/// the result by rank and label.
pub fn merge_sessions_by_executable(sessions: Vec<AudioSession>) -> (r: Vec<AudioSession>)
    ensures
        r@ == merged_by_executable(sessions@),
{
    let ghost orig = sessions@;
    let mut rest = sessions;
    let mut merged: Vec<AudioSession> = Vec::new();
    let n = rest.len();
    let mut i: usize = 0;
    while i < n
        invariant
            n == orig.len(),
            i <= n,
            rest@ == orig.skip(i as int),
            merged@ == merge_all(orig.take(i as int)),
        decreases n - i,
    {
        let session = rest.remove(0);
        assert(rest@ =~= orig.skip(i + 1));
        assert(orig.take(i + 1).drop_last() =~= orig.take(i as int));
        proof {
            lemma_exe_index_bounds(merged@, session.executable@);
        }
        match find_executable(&merged, session.executable.as_str()) {
            Some(k) => {
                let mut existing = merged.remove(k);
                merge_session(&mut existing, session);
                merged.insert(k, existing);
            },
            None => {
                merged.push(session);
            },
        }
        assert(merged@ =~= merge_all(orig.take(i + 1)));
        i = i + 1;
    }
    assert(orig.take(n as int) =~= orig);
    sort_by_rank_then_label(merged)
}

/// The selectable sessions of `sessions`, merged by executable and ordered by
/// rank and label.
pub fn filter_selectable_sessions(sessions: Vec<AudioSession>) -> (r: Vec<AudioSession>)
    ensures
        r@ == selectable_sessions(sessions@),
{
    let ghost orig = sessions@;
    let mut rest = sessions;
    let mut kept: Vec<AudioSession> = Vec::new();
    let n = rest.len();
    let mut i: usize = 0;
    while i < n
        invariant
            n == orig.len(),
            i <= n,
            rest@ == orig.skip(i as int),
            kept@ == selectable_only(orig.take(i as int)),
        decreases n - i,
    {
        let session = rest.remove(0);
        assert(rest@ =~= orig.skip(i + 1));
        assert(orig.take(i + 1).drop_last() =~= orig.take(i as int));
        if is_selectable_application_session(&session) {
            kept.push(session);
        }
        i = i + 1;
    }
    assert(orig.take(n as int) =~= orig);
    let sorted = sort_by_rank_then_label(kept);
    merge_sessions_by_executable(sorted)
}

/// An audio session as the backend reports it.
#[derive(Debug, Clone)]
pub struct AudioSessionInfo {
    pub process_id: u32,
    /// The file name of the process image, where it could be read.
    pub executable: Option<String>,
    /// The session's display name; may be empty.
    pub display_name: String,
    pub state: SessionState,
}

/// A visible top-level window and the executable that owns it.
#[derive(Debug, Clone)]
pub struct WindowAppCandidate {
    pub title: String,
    pub executable: String,
    pub process_id: u32,
}

/// The executable name shown for a session whose process is unknown.
pub open spec fn system_audio_name() -> Seq<char> {
    "System Audio"@
}

/// `prefix`, the lower-cased executable, `:` and the process id.
pub open spec fn discovery_id(prefix: Seq<char>, exe: Seq<char>, pid: u32) -> Seq<char> {
    prefix + lower(exe) + ":"@ + decimal(pid as nat)
}

/// The executable of an audio session.
pub open spec fn info_executable(info: AudioSessionInfo) -> Seq<char> {
    match info.executable {
        Some(e) => e@,
        None => system_audio_name(),
    }
}

/// The entry of an audio session.
pub open spec fn audio_entry(info: AudioSessionInfo, s: AudioSession) -> bool {
    let exe = info_executable(info);
    &&& s.id@ == discovery_id("session:"@, exe, info.process_id)
    &&& s.display_name@ == if info.display_name@.len() == 0 {
        strip_suffixes(exe, ".exe"@)
    } else {
        info.display_name@
    }
    &&& s.executable@ == exe
    &&& s.process_id == info.process_id
    &&& s.state == info.state
    &&& !s.is_excluded_default
    &&& s.window_title is None
    &&& s.has_audio_session
    &&& s.discovery_source == AppDiscoverySource::AudioSession
}

/// The entry of a visible window.
pub open spec fn window_entry(w: WindowAppCandidate, s: AudioSession) -> bool {
    &&& s.id@ == discovery_id("window:"@, w.executable@, w.process_id)
    &&& s.display_name@ == strip_suffixes(w.executable@, ".exe"@)
    &&& s.executable@ == w.executable@
    &&& s.process_id == w.process_id
    &&& s.state == SessionState::Inactive
    &&& !s.is_excluded_default
    &&& s.window_title matches Some(t) && t@ == w.title@
    &&& !s.has_audio_session
    &&& s.discovery_source == AppDiscoverySource::Window
}

/// The discovered entries, active ones first, then by display name.
pub open spec fn discovery_keys(s: Seq<AudioSession>) -> Seq<KeyedView<AudioSession>> {
    Seq::new(
        s.len(),
        |i: int|
            ((if s[i].state == SessionState::Active {
                1u8
            } else {
                0u8
            }), s[i].display_name@, s[i]),
    )
}

/// The discovered entries: one per audio session, then one per window, in
/// their order.
pub open spec fn discovered(
    audio: Seq<AudioSessionInfo>,
    windows: Seq<WindowAppCandidate>,
    entries: Seq<AudioSession>,
) -> bool {
    &&& entries.len() == audio.len() + windows.len()
    &&& forall|i: int| 0 <= i < audio.len() ==> audio_entry(audio[i], #[trigger] entries[i])
    &&& forall|i: int|
        0 <= i < windows.len() ==> window_entry(windows[i], #[trigger] entries[audio.len() + i])
}

fn id_for(prefix: &str, executable: &str, process_id: u32) -> (r: String)
    ensures
        r@ == discovery_id(prefix@, executable@, process_id),
{
    let lowered = to_ascii_lowercase(executable);
    let mut id = concat(prefix, lowered.as_str());
    id.append(":");
    push_decimal(&mut id, process_id as u128);
    id
}

/// The entry of an audio session.
pub fn session_from_audio(info: AudioSessionInfo) -> (r: AudioSession)
    ensures
        audio_entry(info, r),
{
    let executable = match &info.executable {
        Some(e) => e.clone(),
        None => owned("System Audio"),
    };
    let display_name = if info.display_name.as_str().unicode_len() == 0 {
        trim_end_matches_str(executable.as_str(), ".exe")
    } else {
        info.display_name.clone()
    };
    AudioSession {
        id: id_for("session:", executable.as_str(), info.process_id),
        display_name,
        executable,
        process_id: info.process_id,
        state: info.state,
        is_excluded_default: false,
        window_title: None,
        has_audio_session: true,
        discovery_source: AppDiscoverySource::AudioSession,
    }
}

/// The entry of a visible window.
pub fn session_from_window(window: WindowAppCandidate) -> (r: AudioSession)
    ensures
        window_entry(window, r),
{
    AudioSession {
        id: id_for("window:", window.executable.as_str(), window.process_id),
        display_name: trim_end_matches_str(window.executable.as_str(), ".exe"),
        executable: window.executable.clone(),
        process_id: window.process_id,
        state: SessionState::Inactive,
        is_excluded_default: false,
        window_title: Some(window.title.clone()),
        has_audio_session: false,
        discovery_source: AppDiscoverySource::Window,
    }
}

/// The entries of the discovered audio sessions and windows, active ones
/// first, then by display name.
pub fn discovered_sessions(audio: Vec<AudioSessionInfo>, windows: Vec<WindowAppCandidate>) -> (r:
    Vec<AudioSession>)
    ensures
        exists|entries: Seq<AudioSession>|
            discovered(audio@, windows@, entries) && r@ == items_of(
                stable_sort(discovery_keys(entries)),
            ),
{
    let ghost a = audio@;
    let ghost w = windows@;
    let mut entries: Vec<AudioSession> = Vec::new();
    let mut rest_a = audio;
    let na = rest_a.len();
    let mut i: usize = 0;
    while i < na
        invariant
            na == a.len(),
            i <= na,
            rest_a@ == a.skip(i as int),
            entries@.len() == i,
            forall|j: int| 0 <= j < i ==> audio_entry(a[j], #[trigger] entries@[j]),
        decreases na - i,
    {
        let info = rest_a.remove(0);
        assert(rest_a@ =~= a.skip(i + 1));
        entries.push(session_from_audio(info));
        i = i + 1;
    }
    let mut rest_w = windows;
    let nw = rest_w.len();
    let mut j: usize = 0;
    while j < nw
        invariant
            na == a.len(),
            nw == w.len(),
            j <= nw,
            rest_w@ == w.skip(j as int),
            entries@.len() == na + j,
            forall|k: int| 0 <= k < na ==> audio_entry(a[k], #[trigger] entries@[k]),
            forall|k: int| 0 <= k < j ==> window_entry(w[k], #[trigger] entries@[na + k]),
        decreases nw - j,
    {
        let window = rest_w.remove(0);
        assert(rest_w@ =~= w.skip(j + 1));
        entries.push(session_from_window(window));
        assert(entries@[na + j] == entries@.last());
        j = j + 1;
    }
    let ghost all = entries@;
    assert(discovered(a, w, all));
    let mut keyed: Vec<Keyed<AudioSession>> = Vec::new();
    let n = entries.len();
    let mut k: usize = 0;
    while k < n
        invariant
            n == all.len(),
            k <= n,
            entries@ == all.skip(k as int),
            kviews(keyed@) == discovery_keys(all.take(k as int)),
        decreases n - k,
    {
        let s = entries.remove(0);
        assert(entries@ =~= all.skip(k + 1));
        assert(s == all[k as int]);
        let rank: u8 = if s.state == SessionState::Active {
            1
        } else {
            0
        };
        let label = s.display_name.clone();
        let ghost before = kviews(keyed@);
        keyed.push(Keyed { rank, label, item: s });
        assert(kviews(keyed@) =~= before.push((rank, label@, s)));
        assert(discovery_keys(all.take(k + 1)) =~= discovery_keys(all.take(k as int)).push(
            discovery_keys(all)[k as int],
        ));
        k = k + 1;
    }
    assert(all.take(n as int) =~= all);
    let sorted = sort_keyed(keyed);
    unkey(sorted)
}

/// The sessions offered for selection, from the discovered audio sessions and
/// visible windows.
pub fn list_sessions(audio: Vec<AudioSessionInfo>, windows: Vec<WindowAppCandidate>) -> (r: Vec<
    AudioSession,
>)
    ensures
        exists|entries: Seq<AudioSession>|
            discovered(audio@, windows@, entries) && r@ == selectable_sessions(
                items_of(stable_sort(discovery_keys(entries))),
            ),
{
    let sessions = discovered_sessions(audio, windows);
    filter_selectable_sessions(sessions)
}

} // verus!
