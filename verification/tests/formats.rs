use pipemic::audio::formats::{
    capture_initialize_failure_message, desired_float_stereo, pcm_stereo,
    render_initialize_failure_message, stream_format_from_wave, wide_null, windows_error_detail,
    SampleKind, WaveFormatInfo, PCM_SUBFORMAT, WAVE_FORMAT_EXTENSIBLE_TAG,
};
use pipemic::audio::AudioError;
use pipemic::commands::{release_url_target, should_hide_on_close, should_start_minimized, startup_command, CommandError};
use pipemic::config::AppConfig;

#[test]
fn wave_formats_map_to_sample_kinds() {
    let float = stream_format_from_wave(&desired_float_stereo()).unwrap();
    assert_eq!(float.kind, SampleKind::Float32);
    assert_eq!(float.block_align, 8);
    let pcm = pcm_stereo(44_100);
    assert_eq!(pcm.avg_bytes_per_sec, 176_400);
    assert_eq!(stream_format_from_wave(&pcm).unwrap().kind, SampleKind::Int16);
    let extensible = WaveFormatInfo {
        format_tag: WAVE_FORMAT_EXTENSIBLE_TAG,
        channels: 2,
        samples_per_sec: 48_000,
        avg_bytes_per_sec: 288_000,
        block_align: 6,
        bits_per_sample: 24,
        sub_format: Some(PCM_SUBFORMAT),
    };
    assert_eq!(stream_format_from_wave(&extensible).unwrap().kind, SampleKind::Int24);
    let odd = WaveFormatInfo { bits_per_sample: 8, ..extensible };
    match stream_format_from_wave(&odd) {
        Err(AudioError::CaptureFailed(m)) => assert_eq!(m, "unsupported WASAPI extensible format: 8 bits"),
        other => panic!("unexpected {other:?}"),
    }
    let mulaw = WaveFormatInfo { format_tag: 7, bits_per_sample: 8, sub_format: None, ..extensible };
    match stream_format_from_wave(&mulaw) {
        Err(AudioError::CaptureFailed(m)) => assert_eq!(m, "unsupported WASAPI format tag 7 with 8 bits"),
        other => panic!("unexpected {other:?}"),
    }
}

#[test]
fn failure_messages() {
    assert_eq!(windows_error_detail(0x8889000A, ""), "HRESULT 0x8889000A");
    assert_eq!(windows_error_detail(0x1f, "busy"), "HRESULT 0x0000001F (busy)");
    let failures = vec!["a: x".to_string(), "b: y".to_string()];
    assert_eq!(
        render_initialize_failure_message(&failures),
        "render Initialize failed for all formats: a: x; b: y"
    );
    assert_eq!(
        capture_initialize_failure_message(&failures),
        "microphone Initialize failed for all formats: a: x; b: y"
    );
    let busy = vec!["x: HRESULT 0x8889000A (in use)".to_string()];
    assert!(render_initialize_failure_message(&busy).starts_with("Virtual mic is busy"));
    assert_eq!(capture_initialize_failure_message(&[]), "microphone Initialize failed for all formats: ");
}

#[test]
fn wide_strings_end_with_zero() {
    assert_eq!(wide_null("ab"), vec![97, 98, 0]);
    assert_eq!(wide_null("\u{1F3A4}"), vec![0xd83c, 0xdfa4, 0]);
    assert_eq!(wide_null(""), vec![0]);
}

#[test]
fn command_decisions() {
    let err = CommandError::from_audio_error(&AudioError::CaptureFailed("no mic".to_string()));
    assert_eq!(err.message(), "capture failed: no mic");
    let err = CommandError::from_audio_error(&AudioError::Backend("boom".to_string()));
    assert_eq!(err.message(), "boom");
    assert_eq!(
        release_url_target(Some("https://github.com/nuzair46/pipemic/releases/tag/v1".to_string())),
        "https://github.com/nuzair46/pipemic/releases/tag/v1"
    );
    assert_eq!(
        release_url_target(Some("https://example.com".to_string())),
        "https://github.com/nuzair46/pipemic/releases"
    );
    assert_eq!(release_url_target(None), "https://github.com/nuzair46/pipemic/releases");
    let mut config = AppConfig::default();
    assert_eq!(startup_command("C:\\PipeMic.exe", &config), "\"C:\\PipeMic.exe\" --minimized");
    assert!(should_start_minimized(&config, &["app".to_string(), "--minimized".to_string()]));
    assert!(!should_start_minimized(&config, &["app".to_string()]));
    assert!(should_hide_on_close(&config, false));
    assert!(!should_hide_on_close(&config, true));
    config.minimize_to_tray = false;
    assert_eq!(startup_command("C:\\PipeMic.exe", &config), "\"C:\\PipeMic.exe\"");
    assert!(!should_start_minimized(&config, &["--minimized".to_string()]));
}
