use pipemic::audio::capture::{split_packet, CaptureDiagnostics, CaptureSpec, ProcessLoopbackSpec};
use pipemic::audio::devices::{contains_device, list_capture_devices, list_render_devices, EndpointInfo};
use pipemic::audio::render::{writable_frames, RenderSpec};
use pipemic::audio::types::{
    is_canonical_vb_cable_input_name, is_sixteen_channel_cable_name, is_virtual_cable_name,
    DeviceFlow,
};

fn endpoint(id: &str, name: Option<&str>) -> EndpointInfo {
    EndpointInfo {
        id: id.to_string(),
        friendly_name: name.map(|n| n.to_string()),
        channels: Some(2),
        sample_rate: Some(48_000),
    }
}

#[test]
fn devices_list_cables_first_then_default_then_by_name() {
    let devices = list_render_devices(
        vec![
            endpoint("spk", Some("Speakers")),
            endpoint("hdmi", Some("HDMI")),
            endpoint("cable", Some("CABLE Input (VB-Audio Virtual Cable)")),
            endpoint("raw", Some("")),
        ],
        Some("spk".to_string()),
    );
    let ids: Vec<&str> = devices.iter().map(|d| d.id.as_str()).collect();
    assert_eq!(ids, vec!["cable", "spk", "hdmi", "raw"]);
    assert!(devices[0].is_virtual_cable_like);
    assert!(devices[1].is_default);
    assert_eq!(devices[3].name, "raw");
    assert_eq!(devices[0].flow, DeviceFlow::Render);

    let capture = list_capture_devices(vec![endpoint("m", None)], None);
    assert_eq!(capture[0].name, "m");
    assert_eq!(capture[0].flow, DeviceFlow::Capture);
    assert!(!capture[0].is_default);

    assert!(contains_device(&devices, &Some("hdmi".to_string())));
    assert!(!contains_device(&devices, &Some("nope".to_string())));
    assert!(!contains_device(&devices, &None));
}

#[test]
fn cable_names_are_recognised() {
    assert!(is_virtual_cable_name("CABLE Input (VB-Audio Virtual Cable)"));
    assert!(is_virtual_cable_name("VoiceMeeter Input"));
    assert!(!is_virtual_cable_name("Speakers (Realtek)"));
    assert!(is_canonical_vb_cable_input_name("CABLE Input (VB-Audio Virtual Cable)"));
    assert!(!is_canonical_vb_cable_input_name("CABLE In 16ch (VB-Audio Virtual Cable)"));
    assert!(is_sixteen_channel_cable_name("CABLE In 16ch (VB-Audio Virtual Cable)"));
    assert!(!is_sixteen_channel_cable_name("16ch mixer"));
}

#[test]
fn stream_requests() {
    let mic = CaptureSpec::mic("dev".to_string(), 480);
    assert_eq!(mic.sample_rate, 48_000);
    assert_eq!(mic.channels, 2);
    let lb = ProcessLoopbackSpec::include_process_tree(7, 960);
    assert_eq!(lb, ProcessLoopbackSpec { process_id: 7, frames_per_buffer: 960 });
    assert_eq!(RenderSpec::cable("c".to_string(), 960, true).channels, 1);
    assert_eq!(RenderSpec::cable("c".to_string(), 960, false).channels, 2);
    assert_eq!(writable_frames(960, 900, 100), 60);
    assert_eq!(writable_frames(960, 1000, 100), 0);
    assert_eq!(writable_frames(960, 0, 100), 100);
    assert_eq!(split_packet(10, 4), (4, 6));
    assert_eq!(split_packet(3, 4), (3, 0));
}

#[test]
fn capture_diagnostics_count_read_shapes() {
    let mut d = CaptureDiagnostics::default();
    d.record_read_shape(2, 0, 10);
    d.record_read_shape(0, 5, 10);
    d.record_read_shape(0, 10, 10);
    d.record_read_shape(1, 0, 0);
    d.record_capture_error();
    let taken = d.take(4);
    assert_eq!(taken, CaptureDiagnostics { zero_reads: 1, short_reads: 1, pending_overflows: 7, errors: 1 });
    assert_eq!(d, CaptureDiagnostics::default());
}
