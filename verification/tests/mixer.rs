use pipemic::audio::mixer::{source_control, FrameSpillBuffer, MixerControls, SourceControl};
use pipemic::audio::types::Level;

#[test]
fn spill_buffer_preserves_oversized_packet_remainder() {
    let packet = [[0.1, 0.2], [0.3, 0.4], [0.5, 0.6]];
    let mut spill = FrameSpillBuffer::new(4);
    let mut output = [[0.0, 0.0]; 2];
    let copied = output.len().min(packet.len());

    output[..copied].copy_from_slice(&packet[..copied]);
    spill.push_frames(packet[copied..].to_vec());

    assert_eq!(output, [[0.1, 0.2], [0.3, 0.4]]);
    assert_eq!(spill.pending_len(), 1);

    let mut next_output = [[0.0, 0.0]; 2];
    let drained = spill.drain_into(&mut next_output);

    assert_eq!(drained, 1);
    assert_eq!(next_output[0], [0.5, 0.6]);
    assert_eq!(spill.pending_len(), 0);
    assert_eq!(spill.take_overflowed(), 0);
}

#[test]
fn spill_buffer_caps_pending_frames_by_dropping_oldest() {
    let mut spill = FrameSpillBuffer::new(2);
    spill.push_frames(vec![[1.0, 1.0], [2.0, 2.0], [3.0, 3.0]]);

    assert_eq!(spill.pending_len(), 2);
    assert_eq!(spill.take_overflowed(), 1);

    let mut output = [[0.0, 0.0]; 2];
    let drained = spill.drain_into(&mut output);

    assert_eq!(drained, 2);
    assert_eq!(output, [[2.0, 2.0], [3.0, 3.0]]);
}

#[test]
fn spill_buffer_of_zero_capacity_holds_one_frame() {
    let mut spill = FrameSpillBuffer::new(0);
    spill.push_frames(vec![1u8, 2, 3]);
    assert_eq!(spill.pending_len(), 1);
    assert_eq!(spill.take_overflowed(), 2);
    assert_eq!(spill.take_overflowed(), 0);
    let mut output = [0u8; 3];
    assert_eq!(spill.drain_into(&mut output), 1);
    assert_eq!(output, [3, 0, 0]);
}

#[test]
fn missing_source_control_is_unity_and_unmuted() {
    let controls = vec![
        SourceControl { id: "mic:a".to_string(), gain: Level { bits: 0.5f32.to_bits() }, muted: true },
        SourceControl { id: "mic:a".to_string(), gain: Level { bits: 0.1f32.to_bits() }, muted: false },
    ];
    let found = source_control(&controls, "mic:a");
    assert_eq!(found, controls[0]);

    let missing = source_control(&controls, "mic:b");
    assert_eq!(missing.id, "mic:b");
    assert_eq!(f32::from_bits(missing.gain.bits), 1.0);
    assert!(!missing.muted);

    let defaults = MixerControls::default();
    assert_eq!(f32::from_bits(defaults.master_gain.bits), 1.0);
    assert!(defaults.downmix_to_mono);
}

#[test]
fn packets_fill_the_read_then_spill() {
    let mut spill = FrameSpillBuffer::new(2);
    let mut output = [[9.0f32, 9.0]; 3];
    let copied = spill.place_packet(&mut output, 1, vec![[1.0, 1.0]]);
    assert_eq!(copied, 1);
    assert_eq!(output, [[9.0, 9.0], [1.0, 1.0], [9.0, 9.0]]);
    assert_eq!(spill.pending_len(), 0);
    let copied = spill.place_packet(&mut output, 2, vec![[2.0, 2.0], [3.0, 3.0], [4.0, 4.0], [5.0, 5.0]]);
    assert_eq!(copied, 1);
    assert_eq!(output[2], [2.0, 2.0]);
    assert_eq!(spill.pending_len(), 2);
    assert_eq!(spill.take_overflowed(), 1);
    let mut next = [[0.0f32, 0.0]; 2];
    assert_eq!(spill.drain_into(&mut next), 2);
    assert_eq!(next, [[4.0, 4.0], [5.0, 5.0]]);
}
