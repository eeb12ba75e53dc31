use otomieru_boyer::colors::{layer_color, memo_stroke_color, Rgba};
use otomieru_boyer::float_bits::{f32_clamp_unit, f32_equal, f32_within, f64_equal, f64_is_finite};
use otomieru_boyer::freeze::{MixStep, SpectralFreeze, FREEZE_HOP_SIZE};
use otomieru_boyer::comparison::ComparisonPhase;
use otomieru_boyer::playback::{
    decoded_stream_format, BypassPitchShiftProcessor, EqualizerSettings, OutputSampleFormat, OutputStreamInfo,
    PitchShiftSettings, PlaybackDspSettings, PlaybackState, PreviewTimbre, TransportState,
};

const WHITE: Rgba = Rgba { r: 255, g: 255, b: 255, a: 255 };

#[test]
fn layer_palette_uses_white_after_the_sixth_id() {
    assert_ne!(layer_color(1), WHITE);
    assert_eq!(layer_color(7), WHITE);
    assert_eq!(layer_color(0), WHITE);
    assert_eq!(layer_color(6), Rgba { r: 162, g: 125, b: 255, a: 255 });
}

#[test]
fn memo_outline_uses_the_layer_opacity() {
    let base = Rgba { r: 10, g: 20, b: 30, a: 255 };

    assert_eq!(memo_stroke_color(base, false, 96).a, 96);
    assert_eq!(memo_stroke_color(base, true, 96).a, 96);
    assert_eq!(memo_stroke_color(base, true, 96), Rgba { a: 96, ..WHITE });
    assert_eq!(memo_stroke_color(base, false, 96), Rgba { a: 96, ..base });
}

#[test]
fn float_comparisons_follow_ieee_equality() {
    assert!(f64_equal(0.0f64.to_bits(), (-0.0f64).to_bits()));
    assert!(!f64_equal(f64::NAN.to_bits(), f64::NAN.to_bits()));
    assert!(f64_equal(1.5f64.to_bits(), 1.5f64.to_bits()));
    assert!(!f64_is_finite(f64::INFINITY.to_bits()));
    assert!(f32_equal(0.0f32.to_bits(), (-0.0f32).to_bits()));
    assert!(!f32_equal(f32::NAN.to_bits(), f32::NAN.to_bits()));
    assert_eq!(f32::from_bits(f32_clamp_unit(2.0f32.to_bits())), 1.0);
    assert_eq!(f32::from_bits(f32_clamp_unit((-3.0f32).to_bits())), 0.0);
    assert_eq!(f32_clamp_unit((-0.0f32).to_bits()), (-0.0f32).to_bits());
    assert!(f32_clamp_unit(f32::NAN.to_bits()) == f32::NAN.to_bits());
    assert!(f32_within((-12.0f32).to_bits(), (-12.0f32).to_bits(), 12.0f32.to_bits()));
    assert!(!f32_within((-12.5f32).to_bits(), (-12.0f32).to_bits(), 12.0f32.to_bits()));
    assert!(!f32_within(f32::INFINITY.to_bits(), 0.0f32.to_bits(), f32::MAX.to_bits()));
}

#[test]
fn frozen_frame_loops_after_a_fade_in() {
    let mut freeze = SpectralFreeze::new(1, 1000);
    assert!(!freeze.is_active());
    assert_eq!(freeze.mix_step(), MixStep::Inactive);
    let frame: Vec<u32> = (0..FREEZE_HOP_SIZE as u32).collect();
    freeze.install_frame(5.0f64.to_bits(), &frame);
    assert!(freeze.is_active());
    assert_eq!(freeze.position_frames_bits(), 5.0f64.to_bits());
    assert_eq!(freeze.mix_step(), MixStep::FadingIn { frame: 0, fade_frames: 20 });
    for index in 0..(2 * FREEZE_HOP_SIZE) {
        assert_eq!(freeze.sample_bits(0), (index % FREEZE_HOP_SIZE) as u32);
        freeze.advance();
    }
    freeze.begin_deactivation();
    assert!(matches!(freeze.mix_step(), MixStep::FadingOut { .. }));
    freeze.stop();
    assert!(!freeze.is_active());
}

#[test]
fn transport_and_timbre_codes_round_trip() {
    for state in [TransportState::Playing, TransportState::Paused, TransportState::Stopped] {
        assert_eq!(TransportState::from_u8(state.as_u8()), state);
    }
    for timbre in PreviewTimbre::all() {
        assert_eq!(PreviewTimbre::from_u8(timbre.as_u8()), timbre);
    }
    assert_eq!(PreviewTimbre::from_u8(200), PreviewTimbre::Piano);
    assert_eq!(PreviewTimbre::Piano.label(), "ピアノ");
}

#[test]
fn the_output_summary_names_rate_channels_and_format() {
    let info = OutputStreamInfo::from_config(OutputSampleFormat::F32, 48_000, 2);
    assert_eq!(info.summary(), "output: 48000 Hz / 2 ch / f32");
}

#[test]
fn the_bypass_pitch_stage_keeps_its_settings() {
    let mut processor = BypassPitchShiftProcessor::new();
    assert_eq!(processor.current_settings(), PitchShiftSettings::default());
    processor.configure(PitchShiftSettings { semitones: 5 });
    processor.reset();
    assert_eq!(processor.current_settings().semitones, 5);
}

#[test]
fn octave_buttons_set_the_shift_and_keep_the_rest() {
    let mut dsp = PlaybackDspSettings {
        speed_ratio_bits: 0.75f32.to_bits(),
        pitch_shift_semitones: 3,
        preserve_pitch_on_speed_change: false,
        equalizer: EqualizerSettings { gains_db_bits: [0, 6.0f32.to_bits(), 0, 0, 0] },
    };
    let before = dsp;
    dsp.octave_up();
    assert_eq!(dsp.pitch_shift_semitones, 12);
    dsp.octave_down();
    assert_eq!(dsp.pitch_shift_semitones, -12);
    dsp.reset_pitch();
    assert_eq!(dsp, PlaybackDspSettings { pitch_shift_semitones: 0, ..before });
}

#[test]
fn default_playback_runs_at_normal_speed_with_a_flat_equalizer() {
    let dsp = PlaybackDspSettings::default();
    assert_eq!(f32::from_bits(dsp.speed_ratio_bits), 1.0);
    assert_eq!(dsp.pitch_shift_semitones, 0);
    assert!(dsp.preserve_pitch_on_speed_change);
    assert_eq!(dsp.equalizer, EqualizerSettings::default());
    assert!(dsp.equalizer.gains_db_bits.iter().all(|bits| f32::from_bits(*bits) == 0.0));
}

#[test]
fn the_comparison_phase_follows_the_repeating_sequence() {
    let mut state = PlaybackState::default();
    assert_eq!(state.comparison_phase(), None);
    assert_eq!(
        state.comparison_sequence,
        vec![ComparisonPhase::Original, ComparisonPhase::Notes, ComparisonPhase::Mix]
    );
    state.comparison_enabled = true;
    assert_eq!(state.comparison_phase(), Some(ComparisonPhase::Original));
    state.comparison_sequence_index = 4;
    assert_eq!(state.comparison_phase(), Some(ComparisonPhase::Notes));
    state.comparison_sequence_index = 5;
    assert_eq!(state.comparison_phase(), Some(ComparisonPhase::Mix));
}

#[test]
fn a_fade_out_lasts_its_fade_frames_then_the_freeze_is_off() {
    let mut freeze = SpectralFreeze::new(2, 48_000);
    freeze.begin_deactivation();
    assert!(!freeze.is_active());
    let frame: Vec<u32> = vec![7; 2 * FREEZE_HOP_SIZE];
    freeze.install_frame(0, &frame);
    freeze.begin_deactivation();
    for index in 0..960 {
        assert!(freeze.is_active());
        assert_eq!(freeze.mix_step(), MixStep::FadingOut { frame: index, fade_frames: 960 });
    }
    assert!(!freeze.is_active());
    assert_eq!(freeze.mix_step(), MixStep::Inactive);
}

#[test]
fn a_hop_of_advances_brings_back_the_same_sample() {
    let mut freeze = SpectralFreeze::new(1, 48_000);
    let frame: Vec<u32> = (0..FREEZE_HOP_SIZE as u32).map(|index| index * 3).collect();
    freeze.install_frame(20.0f64.to_bits(), &frame);
    for _ in 0..3 {
        freeze.advance();
    }
    let sample = freeze.sample_bits(0);
    assert_eq!(sample, 9);
    for _ in 0..FREEZE_HOP_SIZE {
        freeze.advance();
    }
    assert_eq!(freeze.sample_bits(0), sample);
}

#[test]
fn the_decoded_format_prefers_what_the_packets_reported() {
    assert_eq!(decoded_stream_format(Some(48_000), Some(44_100), Some(2), Some(1)), Some((48_000, 2)));
    assert_eq!(decoded_stream_format(None, Some(44_100), None, Some(6)), Some((44_100, 6)));
    assert_eq!(decoded_stream_format(Some(22_050), None, None, None), Some((22_050, 1)));
    assert_eq!(decoded_stream_format(None, None, Some(2), Some(2)), None);
}
