use otomieru_boyer::frame_ring::{
    ready_after_refill, worker_step, FrameRing, WorkerStep, HIGH_WATER_FRAMES, LOW_WATER_FRAMES,
    RING_FRAMES,
};
use otomieru_boyer::tone::{MemoToneRequest, MemoVoiceBank, ToneVoiceControl, MAX_MEMO_VOICES};

fn request(memo_key: u64, midi_note: u8, amplitude: f32) -> MemoToneRequest {
    MemoToneRequest { memo_key, midi_note, amplitude_bits: amplitude.to_bits() }
}

#[test]
fn memo_voice_update_always_advances_its_trigger_generation() {
    let mut control = ToneVoiceControl::new();
    let request = request(42, 60, 0.2);

    control.update(request);
    let first_generation = control.key();
    control.update(request);

    assert_eq!(first_generation, 1);
    assert_eq!(control.key(), 2);
}

#[test]
fn voice_amplitude_is_clamped_to_half() {
    let mut control = ToneVoiceControl::new();
    assert!(!control.is_active());
    assert_eq!(control.midi_note(), 69);
    control.update(request(1, 72, 0.9));
    assert!(control.is_active());
    assert_eq!(f32::from_bits(control.amplitude_bits()), 0.5);
    control.update(request(1, 72, -0.3));
    assert_eq!(f32::from_bits(control.amplitude_bits()), 0.0);
    control.update(request(1, 72, 0.25));
    assert_eq!(f32::from_bits(control.amplitude_bits()), 0.25);
    control.stop();
    assert!(!control.is_active());
    assert_eq!(control.midi_note(), 72);
}

#[test]
fn requested_memos_keep_their_voices_and_others_are_freed() {
    let mut bank = MemoVoiceBank::new();
    bank.sync_memo_voices(&[request(10, 60, 0.2), request(20, 64, 0.2)], 1);
    assert_eq!(bank.slot(0), Some(request(10, 60, 0.2)));
    assert_eq!(bank.slot(1), Some(request(20, 64, 0.2)));
    assert_eq!(bank.voice(0).key(), 1);

    bank.sync_memo_voices(&[request(20, 64, 0.2), request(30, 67, 0.2)], 1);
    assert_eq!(bank.slot(0), Some(request(30, 67, 0.2)));
    assert_eq!(bank.slot(1), Some(request(20, 64, 0.2)));
    assert_eq!(bank.voice(1).key(), 1);
    assert_eq!(bank.voice(0).key(), 2);
    assert!(bank.voice(0).is_active());
}

#[test]
fn a_new_transport_generation_restarts_every_voice() {
    let mut bank = MemoVoiceBank::new();
    bank.sync_memo_voices(&[request(10, 60, 0.2)], 1);
    bank.sync_memo_voices(&[request(10, 60, 0.2)], 1);
    assert_eq!(bank.voice(0).key(), 1);
    bank.sync_memo_voices(&[request(10, 60, 0.2)], 2);
    assert_eq!(bank.voice(0).key(), 2);
    bank.sync_memo_voices(&[], 2);
    assert_eq!(bank.slot(0), None);
    assert!(!bank.voice(0).is_active());
}

#[test]
fn no_more_memos_sound_than_there_are_voices() {
    let mut bank = MemoVoiceBank::new();
    let requests: Vec<MemoToneRequest> =
        (0..(MAX_MEMO_VOICES as u64 + 5)).map(|key| request(key, 60, 0.1)).collect();
    bank.sync_memo_voices(&requests, 7);
    for slot in 0..MAX_MEMO_VOICES {
        assert_eq!(bank.slot(slot), Some(requests[slot]));
    }
    bank.stop_all_memo_voices();
    for slot in 0..MAX_MEMO_VOICES {
        assert_eq!(bank.slot(slot), None);
        assert!(!bank.voice(slot).is_active());
    }
}

#[test]
fn ring_discards_a_frame_from_an_old_generation() {
    let mut ring = FrameRing::new(2);
    assert!(ring.try_push(4, &[0.25f32.to_bits(), (-0.25f32).to_bits()]));

    let mut frame = [0u32; 2];
    assert!(!ring.try_pop(5, &mut frame));
    assert_eq!(ring.len(), 0);
}

#[test]
fn discarding_stale_frames_frees_the_ring_for_a_new_generation() {
    let mut ring = FrameRing::new(1);
    assert!(ring.try_push(2, &[1.0f32.to_bits()]));
    assert!(ring.try_push(2, &[2.0f32.to_bits()]));

    ring.discard_stale(3);
    assert_eq!(ring.len(), 0);
    assert!(ring.try_push(3, &[3.0f32.to_bits()]));
}

#[test]
fn frames_come_out_in_the_order_they_went_in() {
    let mut ring = FrameRing::new(1);
    for value in 0..5u32 {
        assert!(ring.try_push(1, &[value]));
    }
    ring.discard_stale(1);
    assert_eq!(ring.len(), 5);
    let mut frame = [0u32; 3];
    for value in 0..5u32 {
        assert!(ring.try_pop(1, &mut frame));
        assert_eq!(frame, [value, 0, 0]);
    }
    assert!(!ring.try_pop(1, &mut frame));
}

#[test]
fn a_full_ring_refuses_frames_and_wraps_after_popping() {
    let mut ring = FrameRing::new(0);
    assert_eq!(ring.channels(), 1);
    for value in 0..RING_FRAMES as u32 {
        assert!(ring.try_push(9, &[value]));
    }
    assert!(!ring.try_push(9, &[7]));
    let mut frame = [0u32; 1];
    assert!(ring.try_pop(9, &mut frame));
    assert_eq!(frame, [0]);
    assert!(ring.try_push(9, &[123_456]));
    assert_eq!(ring.len(), RING_FRAMES);
    for value in 1..RING_FRAMES as u32 {
        assert!(ring.try_pop(9, &mut frame));
        assert_eq!(frame, [value]);
    }
    assert!(ring.try_pop(9, &mut frame));
    assert_eq!(frame, [123_456]);
}

#[test]
fn the_worker_refills_up_to_the_high_water_mark() {
    assert_eq!(worker_step(3, 3, true, 0), (false, WorkerStep::Generate(19_200)));
    assert_eq!(worker_step(3, 3, true, 9_599), (false, WorkerStep::Generate(9_601)));
    assert_eq!(worker_step(3, 3, true, 9_600), (false, WorkerStep::Idle));
    assert_eq!(worker_step(4, 3, false, 0), (true, WorkerStep::Idle));
    assert_eq!(worker_step(4, 3, true, 100), (true, WorkerStep::Generate(HIGH_WATER_FRAMES - 100)));
    assert!(HIGH_WATER_FRAMES <= RING_FRAMES);
}

#[test]
fn the_stream_is_ready_once_the_low_water_mark_is_reached() {
    assert!(ready_after_refill(true, LOW_WATER_FRAMES));
    assert!(!ready_after_refill(true, LOW_WATER_FRAMES - 1));
    assert!(!ready_after_refill(false, HIGH_WATER_FRAMES));
}
