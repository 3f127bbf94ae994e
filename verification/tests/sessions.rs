use pipemic::audio::sessions::{
    filter_selectable_sessions, is_selectable_application_session, list_sessions,
    merge_sessions_by_executable, same_executable, session_from_audio, session_from_window,
    AudioSessionInfo, WindowAppCandidate,
};
use pipemic::audio::types::{AppDiscoverySource, AudioSession, SessionState};

fn executable_stem(executable: &str) -> &str {
    executable
        .strip_suffix(".exe")
        .or_else(|| executable.strip_suffix(".EXE"))
        .unwrap_or(executable)
}

fn audio_session(executable: &str, state: SessionState) -> AudioSession {
    AudioSession {
        id: format!("session:{executable}:1"),
        display_name: executable_stem(executable).to_string(),
        executable: executable.to_string(),
        process_id: 1,
        state,
        is_excluded_default: false,
        window_title: None,
        has_audio_session: true,
        discovery_source: AppDiscoverySource::AudioSession,
    }
}

fn window_session(executable: &str, title: &str) -> AudioSession {
    AudioSession {
        id: format!("window:{executable}:2"),
        display_name: executable_stem(executable).to_string(),
        executable: executable.to_string(),
        process_id: 2,
        state: SessionState::Inactive,
        is_excluded_default: false,
        window_title: Some(title.to_string()),
        has_audio_session: false,
        discovery_source: AppDiscoverySource::Window,
    }
}

#[test]
fn filters_to_clear_exe_sessions_and_hides_self() {
    let sessions = filter_selectable_sessions(vec![
        audio_session("Spotify.exe", SessionState::Active),
        audio_session("Discord.exe", SessionState::Active),
        audio_session("VRChat.exe", SessionState::Active),
        audio_session("pipemic.exe", SessionState::Active),
        audio_session("System Audio", SessionState::Active),
        audio_session("Game.exe", SessionState::Expired),
        audio_session("C:\\Windows\\bad.exe", SessionState::Active),
    ]);

    assert_eq!(sessions.len(), 3);
    assert!(sessions.iter().any(|session| session.executable == "Spotify.exe"));
    assert!(sessions.iter().any(|session| session.executable == "Discord.exe"));
    assert!(sessions.iter().any(|session| session.executable == "VRChat.exe"));
}

#[test]
fn keeps_window_only_apps_before_audio_starts() {
    let sessions = filter_selectable_sessions(vec![window_session(
        "firefox.exe",
        "YouTube - Mozilla Firefox",
    )]);

    assert_eq!(sessions.len(), 1);
    assert_eq!(sessions[0].executable, "firefox.exe");
    assert_eq!(sessions[0].state, SessionState::Inactive);
    assert_eq!(sessions[0].window_title.as_deref(), Some("YouTube - Mozilla Firefox"));
    assert!(!sessions[0].has_audio_session);
    assert_eq!(sessions[0].discovery_source, AppDiscoverySource::Window);
}

#[test]
fn merges_audio_session_with_visible_window_context() {
    let sessions = filter_selectable_sessions(vec![
        audio_session("msedge.exe", SessionState::Active),
        window_session("msedge.exe", "Twitch - Microsoft Edge"),
    ]);

    assert_eq!(sessions.len(), 1);
    assert_eq!(sessions[0].executable, "msedge.exe");
    assert_eq!(sessions[0].state, SessionState::Active);
    assert_eq!(sessions[0].process_id, 1);
    assert_eq!(sessions[0].window_title.as_deref(), Some("Twitch - Microsoft Edge"));
    assert!(sessions[0].has_audio_session);
    assert_eq!(sessions[0].discovery_source, AppDiscoverySource::Merged);
}

#[test]
fn offered_sessions_come_by_rank_then_label() {
    let sessions = filter_selectable_sessions(vec![
        window_session("zeta.exe", "Zeta Player"),
        audio_session("beta.exe", SessionState::Inactive),
        audio_session("alpha.exe", SessionState::Inactive),
        audio_session("gamma.exe", SessionState::Active),
    ]);

    let order: Vec<&str> = sessions.iter().map(|s| s.executable.as_str()).collect();
    assert_eq!(order, vec!["gamma.exe", "alpha.exe", "beta.exe", "zeta.exe"]);
}

#[test]
fn inactive_entry_takes_identity_of_later_active_one() {
    let mut inactive = audio_session("Game.exe", SessionState::Inactive);
    inactive.id = "session:game.exe:7".to_string();
    inactive.process_id = 7;
    let active = audio_session("game.EXE", SessionState::Active);
    let merged = merge_sessions_by_executable(vec![inactive, active]);

    assert_eq!(merged.len(), 1);
    assert_eq!(merged[0].executable, "Game.exe");
    assert_eq!(merged[0].process_id, 1);
    assert_eq!(merged[0].state, SessionState::Active);
    assert_eq!(merged[0].id, "session:game.EXE:1");
}

#[test]
fn longer_window_title_with_context_wins_merge() {
    let merged = merge_sessions_by_executable(vec![
        window_session("firefox.exe", "firefox"),
        window_session("firefox.exe", "Radio - Mozilla Firefox"),
    ]);

    assert_eq!(merged.len(), 1);
    assert_eq!(merged[0].window_title.as_deref(), Some("Radio - Mozilla Firefox"));
    assert_eq!(merged[0].discovery_source, AppDiscoverySource::Window);
}

#[test]
fn selectable_sessions_are_bare_exe_names() {
    assert!(is_selectable_application_session(&audio_session(" Game.EXE ", SessionState::Inactive)));
    assert!(!is_selectable_application_session(&audio_session("PipeMic.exe", SessionState::Active)));
    assert!(!is_selectable_application_session(&audio_session("a/b.exe", SessionState::Active)));
    assert!(!is_selectable_application_session(&audio_session("Game.exe", SessionState::Expired)));
    assert!(same_executable("Game.EXE", "game.exe"));
    assert!(!same_executable("Game.exe", "Games.exe"));
}

#[test]
fn discovered_sessions_get_ids_and_names() {
    let audio = session_from_audio(AudioSessionInfo {
        process_id: 4242,
        executable: Some("Spotify.exe".to_string()),
        display_name: String::new(),
        state: SessionState::Active,
    });
    assert_eq!(audio.id, "session:spotify.exe:4242");
    assert_eq!(audio.display_name, "Spotify");
    assert_eq!(audio.discovery_source, AppDiscoverySource::AudioSession);

    let unknown = session_from_audio(AudioSessionInfo {
        process_id: 0,
        executable: None,
        display_name: "Sounds".to_string(),
        state: SessionState::Inactive,
    });
    assert_eq!(unknown.executable, "System Audio");
    assert_eq!(unknown.display_name, "Sounds");

    let window = session_from_window(WindowAppCandidate {
        title: "Chat".to_string(),
        executable: "Discord.exe.exe".to_string(),
        process_id: 12,
    });
    assert_eq!(window.id, "window:discord.exe.exe:12");
    assert_eq!(window.display_name, "Discord");
    assert_eq!(window.window_title.as_deref(), Some("Chat"));
}

#[test]
fn list_sessions_merges_windows_into_audio_sessions() {
    let sessions = list_sessions(
        vec![
            AudioSessionInfo {
                process_id: 30,
                executable: Some("msedge.exe".to_string()),
                display_name: String::new(),
                state: SessionState::Active,
            },
            AudioSessionInfo {
                process_id: 0,
                executable: None,
                display_name: String::new(),
                state: SessionState::Active,
            },
        ],
        vec![WindowAppCandidate {
            title: "Twitch - Microsoft Edge".to_string(),
            executable: "msedge.exe".to_string(),
            process_id: 31,
        }],
    );

    assert_eq!(sessions.len(), 1);
    assert_eq!(sessions[0].process_id, 30);
    assert_eq!(sessions[0].discovery_source, AppDiscoverySource::Merged);
}
