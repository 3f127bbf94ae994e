use pipemic::audio::capture::CaptureDiagnostics;
use pipemic::audio::engine::{
    app_read_step, app_retry_due, apply_worker_event, meters_for_config, output_render_failed_message,
    output_unavailable_text, worker_continues, WorkerEvent, mic_open_failed_warning, mic_read_step, CaptureRead, render_write_step, resolve_output_device_id, selected_app_process_id,
    set_running_status, set_worker_failure, push_worker_warning, source_warnings, worker_frames,
    AudioEngine, CapturePressureTracker, PressureEventWindow, RenderPressureTracker,
    SourceActivity, StartDecision, WriteOutcome, WriteStep,
};
use pipemic::audio::types::{
    AppDiscoverySource, AudioDevice, AudioSession, DeviceFlow, Level, RouteState, RouteStatus,
    SessionState,
};
use pipemic::config::{AppConfig, AppSourceConfig, ControlUpdate, MicSourceConfig, SourceControlUpdate};

const SECOND: u64 = 1_000_000_000;

fn device(id: &str, name: &str, flow: DeviceFlow) -> AudioDevice {
    AudioDevice {
        id: id.to_string(),
        name: name.to_string(),
        flow,
        is_default: false,
        is_virtual_cable_like: false,
        channels: Some(2),
        sample_rate: Some(48_000),
    }
}

fn gain(value: f32) -> Level {
    Level { bits: value.to_bits() }
}

#[test]
fn sixteen_channel_cable_resolves_to_canonical_input() {
    let devices = vec![
        device("speakers", "Speakers", DeviceFlow::Render),
        device("c16", "CABLE In 16ch (VB-Audio Virtual Cable)", DeviceFlow::Render),
        device("cable", "CABLE Input (VB-Audio Virtual Cable)", DeviceFlow::Render),
    ];
    assert_eq!(
        resolve_output_device_id(&devices, &Some("c16".to_string())),
        Some("cable".to_string())
    );
    assert_eq!(
        resolve_output_device_id(&devices, &Some("speakers".to_string())),
        Some("speakers".to_string())
    );
    assert_eq!(resolve_output_device_id(&devices, &Some("gone".to_string())), None);
    assert_eq!(resolve_output_device_id(&devices, &None), None);
    let only16 = vec![device("c16", "CABLE In 16ch", DeviceFlow::Render)];
    assert_eq!(
        resolve_output_device_id(&only16, &Some("c16".to_string())),
        Some("c16".to_string())
    );
}

#[test]
fn start_without_output_reports_missing_device() {
    let mut engine = AudioEngine::default();
    let mut config = AppConfig::default();
    config.mic_sources = vec![MicSourceConfig::new("mic".to_string(), gain(1.0), false)];
    config.output_device_id = Some("cable".to_string());
    match engine.start(&config, &[], &[]) {
        StartDecision::Refused(status) => {
            assert_eq!(status.state, RouteState::DeviceMissing);
            assert_eq!(status.message, "Selected output is unavailable");
            assert_eq!(
                status.warnings,
                vec!["Pick an active render endpoint, ideally VB-CABLE input.".to_string()]
            );
        }
        StartDecision::Launch(_) => panic!("started without an output"),
    }
}

#[test]
fn start_without_sources_is_refused() {
    let mut engine = AudioEngine::default();
    let mut config = AppConfig::default();
    config.output_device_id = Some("cable".to_string());
    let render = vec![device("cable", "CABLE Input", DeviceFlow::Render)];
    match engine.start(&config, &[], &render) {
        StartDecision::Refused(status) => {
            assert_eq!(status.state, RouteState::DeviceMissing);
            assert_eq!(status.message, "No input sources configured");
        }
        StartDecision::Launch(_) => panic!("started without sources"),
    }
    let status = engine.current_status(None);
    assert_eq!(status.message, "No input sources configured");
}

#[test]
fn start_launches_with_warnings_for_missing_microphones() {
    let mut engine = AudioEngine::default();
    let mut config = AppConfig::default();
    config.mic_sources = vec![
        MicSourceConfig::new("here".to_string(), gain(0.5), false),
        MicSourceConfig::new("gone".to_string(), gain(1.0), true),
    ];
    config.app_sources = vec![AppSourceConfig::new("Game.exe".to_string(), None, gain(1.0), false)];
    config.output_device_id = Some("c16".to_string());
    let capture = vec![device("here", "Headset", DeviceFlow::Capture)];
    let render = vec![
        device("c16", "CABLE In 16ch", DeviceFlow::Render),
        device("cable", "CABLE Input (VB-Audio Virtual Cable)", DeviceFlow::Render),
    ];
    match engine.start(&config, &capture, &render) {
        StartDecision::Launch(plan) => {
            assert_eq!(plan.status.state, RouteState::Running);
            assert_eq!(plan.status.message, "Routing to selected output");
            assert_eq!(plan.status.warnings, vec!["gone is unavailable.".to_string()]);
            assert_eq!(plan.status.meters.mic_peaks.len(), 2);
            assert_eq!(plan.status.meters.app_peaks[0].id, "app:game.exe");
            assert_eq!(plan.config.output_device_id, Some("cable".to_string()));
            assert_eq!(plan.controls.mic_sources[1].id, "mic:gone");
            assert!(plan.controls.mic_sources[1].muted);
        }
        StartDecision::Refused(_) => panic!("refused a valid route"),
    }
    let stopped = engine.stop();
    assert_eq!(stopped.state, RouteState::Stopped);
    assert_eq!(stopped.message, "Routing stopped");
    assert!(stopped.warnings.is_empty());
}

#[test]
fn update_controls_replaces_controls_and_reports_worker_status() {
    let mut engine = AudioEngine::default();
    let update = ControlUpdate {
        mic_sources: vec![SourceControlUpdate { id: "mic:a".to_string(), gain: gain(0.2), muted: true }],
        app_sources: Vec::new(),
        master_gain: gain(0.9),
        downmix_to_mono: false,
    };
    let mut reported = RouteStatus::default();
    reported.state = RouteState::Running;
    reported.message = "Routing 1 source to selected output".to_string();
    let status = engine.update_controls(&update, Some(reported));
    assert_eq!(status.message, "Routing 1 source to selected output");
    let controls = engine.controls();
    assert_eq!(controls.mic_sources[0].id, "mic:a");
    assert_eq!(controls.master_gain, gain(0.9));
    assert!(!controls.downmix_to_mono);
    assert_eq!(engine.current_status(None).state, RouteState::Running);
}

#[test]
fn pressure_window_warns_once_per_cooldown() {
    let mut window = PressureEventWindow::new(0);
    assert!(!window.record(0, 1, SECOND));
    assert!(window.record(1, 1, SECOND));
    assert!(!window.record(1, 1, 2 * SECOND));
    assert!(!window.record(1, 1, 10 * SECOND));
    assert!(window.record(1, 1, 16 * SECOND));
    assert_eq!(window.last_warning_at, Some(16 * SECOND));

    let mut tracker = CapturePressureTracker::new(0);
    let diagnostics = CaptureDiagnostics { zero_reads: 2, short_reads: 1, pending_overflows: 0, errors: 0 };
    assert!(!tracker.record_diagnostics(diagnostics, SECOND));
    assert_eq!(tracker.zero_reads, 2);
    assert!(tracker.record_error(SECOND));
    assert_eq!(tracker.errors, 1);
}

#[test]
fn output_pressure_warns_after_thirty_refused_writes() {
    let mut tracker = RenderPressureTracker::new();
    for _ in 0..29 {
        assert!(!tracker.record_zero_write(SECOND));
    }
    assert!(tracker.record_zero_write(SECOND));
    assert!(!tracker.record_zero_write(2 * SECOND));
    tracker.record_progress();
    assert_eq!(tracker.consecutive_zero_writes, 0);
    assert_eq!(tracker.zero_writes, 31);

    let mut steps = RenderPressureTracker::new();
    assert_eq!(render_write_step(&mut steps, 0, 10, WriteOutcome::Wrote(4), SECOND), WriteStep::Advance(4));
    assert_eq!(render_write_step(&mut steps, 4, 10, WriteOutcome::Wrote(0), SECOND), WriteStep::Wait { warn: false });
    assert_eq!(render_write_step(&mut steps, 4, 10, WriteOutcome::Failed, SECOND), WriteStep::Fail);
}

#[test]
fn worker_status_messages() {
    let mut status = RouteStatus::default();
    let activity = |id: &str, capturing: bool| SourceActivity {
        id: id.to_string(),
        peak: gain(0.25),
        capturing,
    };
    set_running_status(&mut status, &[activity("mic:a", true)], &[activity("app:b", false)], gain(0.5));
    assert_eq!(status.state, RouteState::Running);
    assert_eq!(status.message, "Routing 1 source to selected output");
    assert_eq!(status.meters.app_peaks[0].id, "app:b");
    set_running_status(&mut status, &[activity("mic:a", true)], &[activity("app:b", true)], gain(0.5));
    assert_eq!(status.message, "Routing 2 sources to selected output");
    set_running_status(&mut status, &[], &[], gain(0.0));
    assert_eq!(status.message, "Waiting for configured sources");

    push_worker_warning(&mut status, "slow".to_string());
    push_worker_warning(&mut status, "slow".to_string());
    assert_eq!(status.warnings, vec!["slow".to_string()]);

    let mut failed = RouteStatus::default();
    set_worker_failure(&mut failed, "Output render failed: gone");
    assert_eq!(failed.state, RouteState::CaptureFailed);
    assert_eq!(failed.warnings, vec!["Adjust selections, then start again.".to_string()]);
}

#[test]
fn selected_app_is_first_active_session_of_executable() {
    let session = |exe: &str, pid: u32, state: SessionState| AudioSession {
        id: format!("session:{exe}:{pid}"),
        display_name: exe.to_string(),
        executable: exe.to_string(),
        process_id: pid,
        state,
        is_excluded_default: false,
        window_title: None,
        has_audio_session: true,
        discovery_source: AppDiscoverySource::AudioSession,
    };
    let sessions = vec![
        session("game.exe", 1, SessionState::Inactive),
        session("GAME.exe", 2, SessionState::Active),
        session("game.exe", 3, SessionState::Active),
    ];
    assert_eq!(selected_app_process_id(&sessions, "Game.exe"), Some(2));
    assert_eq!(selected_app_process_id(&sessions, "other.exe"), None);
    assert_eq!(worker_frames(480), 960);
    assert_eq!(worker_frames(2048), 2048);
    assert!(!app_retry_due(SECOND, SECOND + SECOND / 2));
    assert!(app_retry_due(SECOND, 2 * SECOND));
    assert!(!app_retry_due(5 * SECOND, SECOND));
}

#[test]
fn warnings_name_missing_microphones() {
    let mut config = AppConfig::default();
    config.mic_sources = vec![
        MicSourceConfig::new("a".to_string(), gain(1.0), false),
        MicSourceConfig::new("b".to_string(), gain(1.0), false),
    ];
    let devices = vec![device("b", "Bee", DeviceFlow::Capture)];
    assert_eq!(source_warnings(&config, &devices), vec!["a is unavailable.".to_string()]);
}

#[test]
fn readings_hold_one_peak_per_id_ordered_by_id() {
    let mut status = RouteStatus::default();
    let activity = |id: &str, peak: f32| SourceActivity { id: id.to_string(), peak: gain(peak), capturing: true };
    set_running_status(
        &mut status,
        &[activity("mic:z", 0.1), activity("mic:a", 0.2), activity("mic:z", 0.3)],
        &[],
        gain(0.0),
    );
    let ids: Vec<&str> = status.meters.mic_peaks.iter().map(|r| r.id.as_str()).collect();
    assert_eq!(ids, vec!["mic:a", "mic:z"]);
    assert_eq!(status.meters.mic_peaks[0].peak, gain(0.2));
    assert_eq!(status.meters.mic_peaks[1].peak, gain(0.3));
    assert_eq!(status.message, "Routing 3 sources to selected output");

    let mut config = AppConfig::default();
    config.mic_sources = vec![
        MicSourceConfig::new("b".to_string(), gain(1.0), false),
        MicSourceConfig::new("a".to_string(), gain(1.0), false),
    ];
    let meters = meters_for_config(&config);
    let ids: Vec<&str> = meters.mic_peaks.iter().map(|r| r.id.as_str()).collect();
    assert_eq!(ids, vec!["mic:a", "mic:b"]);
    assert_eq!(meters.output_peak, gain(0.0));
}

#[test]
fn capture_reads_decide_warnings_and_closing() {
    let source = MicSourceConfig::new("mic-a".to_string(), gain(1.0), false);
    assert_eq!(mic_open_failed_warning(&source, "busy"), "mic-a capture failed: busy");

    let mut tracker = CapturePressureTracker::new(0);
    let mut diagnostics = CaptureDiagnostics::default();
    let step = mic_read_step(&mut tracker, &source, CaptureRead::Frames(480, diagnostics), SECOND);
    assert_eq!(step.frames, 480);
    assert!(step.keep_capture);
    assert!(step.warning.is_none());
    diagnostics.pending_overflows = 1;
    let step = mic_read_step(&mut tracker, &source, CaptureRead::Frames(480, diagnostics), 2 * SECOND);
    assert!(step.warning.is_some());
    let step = mic_read_step(&mut tracker, &source, CaptureRead::Failed("gone".to_string()), 3 * SECOND);
    assert_eq!(step.frames, 0);
    assert!(!step.keep_capture);
    assert_eq!(step.warning, Some("mic-a capture stopped: gone".to_string()));
    assert_eq!(tracker.errors, 1);

    let kept = app_read_step(Some(42), 5, &CaptureRead::Frames(10, CaptureDiagnostics::default()), 9);
    assert!(kept.keep_capture);
    assert_eq!(kept.active_pid, Some(42));
    assert_eq!(kept.last_retry, 5);
    let dropped = app_read_step(Some(42), 5, &CaptureRead::Failed("x".to_string()), 9);
    assert!(!dropped.keep_capture);
    assert_eq!(dropped.active_pid, None);
    assert_eq!(dropped.last_retry, 9);
}

#[test]
fn warnings_of_a_run_are_a_cooldown_apart() {
    let mut window = PressureEventWindow::new(0);
    let mut warned_at = Vec::new();
    for second in 0..40u64 {
        if window.record(1, 1, second * SECOND) {
            warned_at.push(second);
        }
    }
    assert_eq!(warned_at, vec![0, 15, 30]);
}

#[test]
fn a_failed_worker_does_not_go_on() {
    let mut status = RouteStatus::default();
    set_running_status(&mut status, &[], &[], gain(0.0));
    assert!(worker_continues(&status));
    set_worker_failure(&mut status, "Output render failed: gone");
    assert!(!worker_continues(&status));
}

#[test]
fn render_steps_warn_on_the_thirtieth_refusal() {
    let mut steps = RenderPressureTracker::new();
    for _ in 0..29 {
        assert_eq!(render_write_step(&mut steps, 0, 10, WriteOutcome::Wrote(0), SECOND), WriteStep::Wait { warn: false });
    }
    assert_eq!(render_write_step(&mut steps, 0, 10, WriteOutcome::Wrote(0), SECOND), WriteStep::Wait { warn: true });
    assert_eq!(steps.last_warning_at, Some(SECOND));
    assert_eq!(steps.zero_writes, 30);
    assert_eq!(render_write_step(&mut steps, 0, 10, WriteOutcome::Wrote(0), 2 * SECOND), WriteStep::Wait { warn: false });
    assert_eq!(render_write_step(&mut steps, 0, 10, WriteOutcome::Wrote(20), 2 * SECOND), WriteStep::Advance(10));
    assert_eq!(steps.consecutive_zero_writes, 0);
    assert_eq!(steps.zero_writes, 31);
    assert_eq!(steps.last_warning_at, Some(SECOND));
}

#[test]
fn worker_events_leave_a_failed_route_alone() {
    let mut status = RouteStatus::default();
    apply_worker_event(&mut status, WorkerEvent::Readings { mic: Vec::new(), app: Vec::new(), output_peak: gain(0.0) });
    assert_eq!(status.state, RouteState::Running);
    apply_worker_event(&mut status, WorkerEvent::Warning("slow".to_string()));
    apply_worker_event(&mut status, WorkerEvent::Failure(output_render_failed_message("gone")));
    assert_eq!(status.state, RouteState::CaptureFailed);
    assert_eq!(status.message, "Output render failed: gone");
    assert_eq!(status.warnings, vec!["slow".to_string()]);
    apply_worker_event(&mut status, WorkerEvent::Readings { mic: Vec::new(), app: Vec::new(), output_peak: gain(0.5) });
    apply_worker_event(&mut status, WorkerEvent::Warning("late".to_string()));
    apply_worker_event(&mut status, WorkerEvent::Failure(output_unavailable_text()));
    assert_eq!(status.state, RouteState::CaptureFailed);
    assert_eq!(status.message, "Output render failed: gone");
    assert_eq!(status.warnings, vec!["slow".to_string()]);
}
