use pipemic::audio::mixer::DEFAULT_BUFFER_FRAMES;
use pipemic::audio::types::Level;
use pipemic::config::{
    app_source_id, config_base, config_path_suffix, executable_from_legacy_session_id, mic_source_id, normalize_executable,
    sanitize_app_sources, sanitize_mic_sources, sanitize_shortcut, sanitize_shortcuts,
    AppConfig, AppSourceConfig, ConfigBase, ControlUpdate, MicSourceConfig, RawAppConfig, ShortcutConfig,
    SourceControlUpdate,
};

fn gain(value: f32) -> Level {
    Level { bits: value.to_bits() }
}

fn empty_raw() -> RawAppConfig {
    RawAppConfig {
        mic_sources: Vec::new(),
        app_sources: Vec::new(),
        output_device_id: None,
        master_gain: None,
        buffer_frames: None,
        downmix_to_mono: None,
        shortcuts: None,
        start_with_windows: None,
        minimize_to_tray: None,
        excluded_processes: None,
        mic_device_id: None,
        app_session_id: None,
        app_process_name: None,
        mic_gain: None,
        app_gain: None,
        mic_muted: None,
        app_muted: None,
    }
}

#[test]
fn app_source_sanitization_deduplicates_by_executable() {
    let sources = sanitize_app_sources(vec![
        AppSourceConfig::new(
            "Spotify.exe".to_string(),
            Some("Spotify".to_string()),
            gain(1.0),
            false,
        ),
        AppSourceConfig::new(
            "spotify.exe".to_string(),
            Some("Spotify 2".to_string()),
            gain(0.5),
            true,
        ),
        AppSourceConfig::new("System Audio".to_string(), None, gain(1.0), false),
    ]);

    assert_eq!(sources.len(), 1);
    assert_eq!(sources[0].executable, "Spotify.exe");
}

#[test]
fn default_config_has_no_sources() {
    let config = AppConfig::default();

    assert!(config.mic_sources.is_empty());
    assert!(config.app_sources.is_empty());
    assert_eq!(config.buffer_frames, DEFAULT_BUFFER_FRAMES);
    assert_eq!(config.master_gain, gain(1.0));
    assert!(config.downmix_to_mono);
    assert_eq!(config.shortcuts, ShortcutConfig::default());
    assert!(config.start_with_windows);
    assert!(config.minimize_to_tray);
}

#[test]
fn legacy_single_source_config_migrates_to_source_arrays() {
    let mut raw = empty_raw();
    raw.mic_device_id = Some("mic-a".to_string());
    raw.app_session_id = Some("session:spotify.exe:4242".to_string());
    raw.app_process_name = Some("Spotify.exe".to_string());
    raw.output_device_id = Some("cable".to_string());
    raw.mic_gain = Some(gain(0.8));
    raw.app_gain = Some(gain(1.2));
    raw.master_gain = Some(gain(0.7));
    raw.mic_muted = Some(true);
    raw.app_muted = Some(false);
    raw.buffer_frames = Some(960);
    raw.downmix_to_mono = Some(true);
    raw.excluded_processes = Some(vec!["Discord.exe".to_string(), "VRChat.exe".to_string()]);

    let config = AppConfig::from_raw(raw);

    assert_eq!(
        config.mic_sources,
        vec![MicSourceConfig::new("mic-a".to_string(), gain(0.8), true)]
    );
    assert_eq!(
        config.app_sources,
        vec![AppSourceConfig::new("Spotify.exe".to_string(), None, gain(1.2), false)]
    );
    assert_eq!(config.output_device_id, Some("cable".to_string()));
    assert_eq!(config.master_gain, gain(0.7));
}

#[test]
fn legacy_session_id_names_executable() {
    let mut raw = empty_raw();
    raw.app_session_id = Some("session:Game.exe:12".to_string());
    let config = AppConfig::from_raw(raw);

    assert_eq!(config.app_sources.len(), 1);
    assert_eq!(config.app_sources[0].executable, "Game.exe");
    assert_eq!(config.app_sources[0].id, "app:game.exe");
    assert_eq!(config.app_sources[0].gain, gain(1.0));
    assert!(config.mic_sources.is_empty());
}

#[test]
fn legacy_fields_are_ignored_when_source_lists_exist() {
    let mut raw = empty_raw();
    raw.mic_sources = vec![MicSourceConfig::new("mic-b".to_string(), gain(0.3), false)];
    raw.mic_device_id = Some("mic-a".to_string());
    let config = AppConfig::from_raw(raw);

    assert_eq!(config.mic_sources.len(), 1);
    assert_eq!(config.mic_sources[0].device_id, "mic-b");
    assert_eq!(config.buffer_frames, DEFAULT_BUFFER_FRAMES);
    assert!(config.start_with_windows);
}

#[test]
fn legacy_session_ids_must_have_three_parts() {
    assert_eq!(
        executable_from_legacy_session_id("session:spotify.exe:4242"),
        Some("spotify.exe".to_string())
    );
    assert_eq!(executable_from_legacy_session_id("session:spotify.exe"), None);
    assert_eq!(executable_from_legacy_session_id("session:spotify.exe:1:2"), None);
    assert_eq!(executable_from_legacy_session_id("window:spotify.exe:1"), None);
    assert_eq!(executable_from_legacy_session_id("session:notes.txt:1"), None);
    assert_eq!(
        executable_from_legacy_session_id("session: Game.EXE :"),
        Some("Game.EXE".to_string())
    );
}

#[test]
fn source_ids_and_executable_names() {
    assert_eq!(mic_source_id("dev-1"), "mic:dev-1");
    assert_eq!(app_source_id("Spotify.EXE"), "app:spotify.exe");
    assert_eq!(normalize_executable("  Game.Exe "), Some("Game.Exe".to_string()));
    assert_eq!(normalize_executable("   "), None);
    assert_eq!(normalize_executable("System Audio"), None);

    let source = AppSourceConfig::new(" Game.exe ".to_string(), None, gain(1.0), false);
    assert_eq!(source.executable, "Game.exe");
    assert_eq!(source.id, "app:game.exe");
    let kept = AppSourceConfig::new("System Audio".to_string(), None, gain(1.0), false);
    assert_eq!(kept.executable, "System Audio");
}

#[test]
fn mic_sanitization_trims_and_deduplicates_devices() {
    let sources = sanitize_mic_sources(vec![
        MicSourceConfig {
            id: " ".to_string(),
            device_id: " dev-1 ".to_string(),
            gain: gain(0.5),
            muted: false,
        },
        MicSourceConfig::new("dev-1".to_string(), gain(1.0), true),
        MicSourceConfig::new("   ".to_string(), gain(1.0), false),
        MicSourceConfig::new("dev-2".to_string(), gain(1.0), false),
    ]);

    assert_eq!(sources.len(), 2);
    assert_eq!(sources[0].device_id, "dev-1");
    assert_eq!(sources[0].id, "mic:dev-1");
    assert_eq!(sources[0].gain, gain(0.5));
    assert_eq!(sources[1].device_id, "dev-2");
}

#[test]
fn blank_shortcuts_fall_back_to_defaults() {
    assert_eq!(sanitize_shortcut("  Ctrl+K ".to_string(), "Ctrl+Alt+M"), "Ctrl+K");
    assert_eq!(sanitize_shortcut("   ".to_string(), "Ctrl+Alt+M"), "Ctrl+Alt+M");
    let shortcuts = sanitize_shortcuts(ShortcutConfig {
        mic_mute: String::new(),
        app_mute: " Ctrl+Shift+A".to_string(),
        routing: "\t".to_string(),
    });
    assert_eq!(shortcuts.mic_mute, "Ctrl+Alt+M");
    assert_eq!(shortcuts.app_mute, "Ctrl+Shift+A");
    assert_eq!(shortcuts.routing, "Ctrl+Alt+S");
}

#[test]
fn controls_apply_by_source_id() {
    let mut config = AppConfig::default();
    config.mic_sources = vec![
        MicSourceConfig::new("mic-a".to_string(), gain(1.0), false),
        MicSourceConfig::new("mic-b".to_string(), gain(1.0), false),
    ];
    let update = ControlUpdate {
        mic_sources: vec![SourceControlUpdate {
            id: "mic:mic-b".to_string(),
            gain: gain(0.25),
            muted: true,
        }],
        app_sources: Vec::new(),
        master_gain: gain(0.5),
        downmix_to_mono: false,
    };
    config.apply_controls(&update);

    assert_eq!(config.mic_sources[0].gain, gain(1.0));
    assert!(!config.mic_sources[0].muted);
    assert_eq!(config.mic_sources[1].gain, gain(0.25));
    assert!(config.mic_sources[1].muted);
    assert_eq!(config.master_gain, gain(0.5));
    assert!(!config.downmix_to_mono);

    let own = ControlUpdate::from_config(&config);
    let before = config.clone();
    config.apply_controls(&own);
    assert_eq!(config, before);
}

#[test]
fn config_location_prefers_appdata_then_xdg_then_home() {
    assert_eq!(config_base(true, true, true), ConfigBase::AppData);
    assert_eq!(config_base(false, true, true), ConfigBase::XdgConfigHome);
    assert_eq!(config_base(false, false, true), ConfigBase::Home);
    assert_eq!(config_base(false, false, false), ConfigBase::TempDir);
    assert_eq!(config_path_suffix(ConfigBase::AppData), vec!["PipeMic", "config.json"]);
    assert_eq!(config_path_suffix(ConfigBase::XdgConfigHome), vec!["PipeMic", "config.json"]);
    assert_eq!(config_path_suffix(ConfigBase::Home), vec![".config", "PipeMic", "config.json"]);
    assert_eq!(config_path_suffix(ConfigBase::TempDir), vec![".config", "PipeMic", "config.json"]);
}

#[test]
fn sanitizing_twice_changes_nothing() {
    let mics = sanitize_mic_sources(vec![
        MicSourceConfig { id: " ".to_string(), device_id: " mic-a ".to_string(), gain: gain(0.5), muted: true },
        MicSourceConfig::new("mic-a".to_string(), gain(1.0), false),
        MicSourceConfig::new("mic-b".to_string(), gain(1.0), false),
    ]);
    assert_eq!(sanitize_mic_sources(mics.clone()), mics);
    let apps = sanitize_app_sources(vec![
        AppSourceConfig::new(" Game.EXE ".to_string(), Some("  ".to_string()), gain(1.0), false),
        AppSourceConfig::new("game.exe".to_string(), None, gain(0.5), true),
        AppSourceConfig::new("Chat.exe".to_string(), Some("Chat".to_string()), gain(0.7), false),
    ]);
    assert_eq!(apps.len(), 2);
    assert_eq!(sanitize_app_sources(apps.clone()), apps);
}

#[test]
fn saved_config_loads_back() {
    let mut config = AppConfig::default();
    config.mic_sources = sanitize_mic_sources(vec![MicSourceConfig::new("mic-a".to_string(), gain(0.8), true)]);
    config.app_sources = sanitize_app_sources(vec![AppSourceConfig::new(
        "Game.exe".to_string(),
        Some("Game".to_string()),
        gain(1.2),
        false,
    )]);
    config.output_device_id = Some("cable".to_string());
    config.master_gain = gain(0.7);
    config.start_with_windows = false;
    let mut raw = empty_raw();
    raw.mic_sources = config.mic_sources.clone();
    raw.app_sources = config.app_sources.clone();
    raw.output_device_id = config.output_device_id.clone();
    raw.master_gain = Some(config.master_gain);
    raw.buffer_frames = Some(config.buffer_frames);
    raw.downmix_to_mono = Some(config.downmix_to_mono);
    raw.shortcuts = Some(config.shortcuts.clone());
    raw.start_with_windows = Some(config.start_with_windows);
    raw.minimize_to_tray = Some(config.minimize_to_tray);
    assert_eq!(AppConfig::from_raw(raw), config);
}
