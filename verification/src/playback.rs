use vstd::prelude::*;

use crate::comparison::{
    comparison_phase_at, default_comparison_sequence, spec_comparison_phase_at,
    spec_default_comparison_sequence, ComparisonPhase,
};
use crate::text::{decimal, push_decimal};

verus! {

/// Whether the player is playing, paused or stopped.
#[derive(Debug, Clone, Copy, PartialEq, Eq, Structural)]
pub enum TransportState {
    Playing,
    Paused,
    Stopped,
}

pub open spec fn transport_code(state: TransportState) -> u8 {
    match state {
        TransportState::Stopped => 0,
        TransportState::Playing => 1,
        TransportState::Paused => 2,
    }
}

/// The state a stored byte stands for; unknown bytes read as stopped.
pub open spec fn transport_from_code(code: u8) -> TransportState {
    if code == 1 {
        TransportState::Playing
    } else if code == 2 {
        TransportState::Paused
    } else {
        TransportState::Stopped
    }
}

impl TransportState {
    /// The byte under which the audio thread shares the state.
    pub fn as_u8(self) -> (code: u8)
        ensures
            code == transport_code(self),
    {
        match self {
            TransportState::Stopped => 0,
            TransportState::Playing => 1,
            TransportState::Paused => 2,
        }
    }

    pub fn from_u8(value: u8) -> (state: TransportState)
        ensures
            state == transport_from_code(value),
    {
        if value == 1 {
            TransportState::Playing
        } else if value == 2 {
            TransportState::Paused
        } else {
            TransportState::Stopped
        }
    }
}

impl Default for TransportState {
    fn default() -> (state: TransportState)
        ensures
            state == TransportState::Stopped,
    {
        TransportState::Stopped
    }
}

/// Reading back a stored transport state gives the state.
pub proof fn lemma_transport_code_round_trip(state: TransportState)
    ensures
        transport_from_code(transport_code(state)) == state,
{
}

/// The sample formats that an output device can ask for.
#[derive(Debug, Clone, Copy, PartialEq, Eq, Structural)]
pub enum OutputSampleFormat {
    I8,
    I16,
    I24,
    I32,
    I64,
    U8,
    U16,
    U32,
    U64,
    F32,
    F64,
    Unknown,
}

pub open spec fn sample_format_label(format: OutputSampleFormat) -> Seq<char> {
    match format {
        OutputSampleFormat::I8 => "i8"@,
        OutputSampleFormat::I16 => "i16"@,
        OutputSampleFormat::I24 => "i24"@,
        OutputSampleFormat::I32 => "i32"@,
        OutputSampleFormat::I64 => "i64"@,
        OutputSampleFormat::U8 => "u8"@,
        OutputSampleFormat::U16 => "u16"@,
        OutputSampleFormat::U32 => "u32"@,
        OutputSampleFormat::U64 => "u64"@,
        OutputSampleFormat::F32 => "f32"@,
        OutputSampleFormat::F64 => "f64"@,
        OutputSampleFormat::Unknown => "unknown"@,
    }
}

pub fn sample_format_name(format: OutputSampleFormat) -> (name: &'static str)
    ensures
        name@ == sample_format_label(format),
{
    match format {
        OutputSampleFormat::I8 => "i8",
        OutputSampleFormat::I16 => "i16",
        OutputSampleFormat::I24 => "i24",
        OutputSampleFormat::I32 => "i32",
        OutputSampleFormat::I64 => "i64",
        OutputSampleFormat::U8 => "u8",
        OutputSampleFormat::U16 => "u16",
        OutputSampleFormat::U32 => "u32",
        OutputSampleFormat::U64 => "u64",
        OutputSampleFormat::F32 => "f32",
        OutputSampleFormat::F64 => "f64",
        OutputSampleFormat::Unknown => "unknown",
    }
}

/// The stream that the output device opened, for the status line.
#[derive(Debug, Clone, Copy, PartialEq, Eq)]
pub struct OutputStreamInfo {
    pub sample_rate: u32,
    pub channels: u16,
    pub sample_format: OutputSampleFormat,
}

pub open spec fn output_summary(info: OutputStreamInfo) -> Seq<char> {
    "output: "@ + decimal(info.sample_rate as nat) + " Hz / "@ + decimal(info.channels as nat)
        + " ch / "@ + sample_format_label(info.sample_format)
}

impl OutputStreamInfo {
    pub fn from_config(sample_format: OutputSampleFormat, sample_rate: u32, channels: u16) -> (info:
        OutputStreamInfo)
        ensures
            info == (OutputStreamInfo { sample_rate, channels, sample_format }),
    {
        OutputStreamInfo { sample_rate, channels, sample_format }
    }

    /// "output: <rate> Hz / <channels> ch / <format>".
    pub fn summary(&self) -> (summary: String)
        ensures
            summary@ == output_summary(*self),
    {
        let mut summary = String::from_str("output: ");
        push_decimal(&mut summary, self.sample_rate as u128);
        summary.append(" Hz / ");
        push_decimal(&mut summary, self.channels as u128);
        summary.append(" ch / ");
        summary.append(sample_format_name(self.sample_format));
        summary
    }
}

/// The timbre of the preview and memo voices.
#[derive(Debug, Clone, Copy, PartialEq, Eq, Structural)]
pub enum PreviewTimbre {
    Piano,
    Square,
    SynthStrings,
}

pub open spec fn timbre_label(timbre: PreviewTimbre) -> Seq<char> {
    match timbre {
        PreviewTimbre::Piano => "ピアノ"@,
        PreviewTimbre::SynthStrings => "シンセストリングス"@,
        PreviewTimbre::Square => "矩形波"@,
    }
}

pub open spec fn timbre_code(timbre: PreviewTimbre) -> u8 {
    match timbre {
        PreviewTimbre::Piano => 0,
        PreviewTimbre::Square => 1,
        PreviewTimbre::SynthStrings => 2,
    }
}

/// The timbre a stored byte stands for; unknown bytes read as the piano.
pub open spec fn timbre_from_code(code: u8) -> PreviewTimbre {
    if code == 1 {
        PreviewTimbre::Square
    } else if code == 2 {
        PreviewTimbre::SynthStrings
    } else {
        PreviewTimbre::Piano
    }
}

impl PreviewTimbre {
    /// The timbres in the order the settings dialog lists them.
    pub fn all() -> (all: Vec<PreviewTimbre>)
        ensures
            all@ == seq![PreviewTimbre::Piano, PreviewTimbre::SynthStrings, PreviewTimbre::Square],
    {
        let mut all = Vec::new();
        all.push(PreviewTimbre::Piano);
        all.push(PreviewTimbre::SynthStrings);
        all.push(PreviewTimbre::Square);
        all
    }

    pub fn label(self) -> (label: &'static str)
        ensures
            label@ == timbre_label(self),
    {
        match self {
            PreviewTimbre::Piano => "ピアノ",
            PreviewTimbre::SynthStrings => "シンセストリングス",
            PreviewTimbre::Square => "矩形波",
        }
    }

    pub fn as_u8(self) -> (code: u8)
        ensures
            code == timbre_code(self),
    {
        match self {
            PreviewTimbre::Piano => 0,
            PreviewTimbre::Square => 1,
            PreviewTimbre::SynthStrings => 2,
        }
    }

    pub fn from_u8(value: u8) -> (timbre: PreviewTimbre)
        ensures
            timbre == timbre_from_code(value),
    {
        if value == 1 {
            PreviewTimbre::Square
        } else if value == 2 {
            PreviewTimbre::SynthStrings
        } else {
            PreviewTimbre::Piano
        }
    }
}

impl Default for PreviewTimbre {
    fn default() -> (timbre: PreviewTimbre)
        ensures
            timbre == PreviewTimbre::Piano,
    {
        PreviewTimbre::Piano
    }
}

/// Reading back a stored timbre gives the timbre.
pub proof fn lemma_timbre_code_round_trip(timbre: PreviewTimbre)
    ensures
        timbre_from_code(timbre_code(timbre)) == timbre,
{
}

/// Buffering figures of the time-stretch stream, for the status line.
#[derive(Debug, Clone, Copy, PartialEq, Eq, Default)]
pub struct StreamingMetrics {
    pub buffered_frames: usize,
    pub underruns: u64,
    pub generated_frames: u64,
    pub ready: bool,
    pub allocated_bytes: usize,
}

/// Window and hop of the short-time Fourier analysis, in samples.
#[derive(Debug, Clone, Copy, PartialEq, Eq)]
pub struct StftSettings {
    pub window_size: usize,
    pub hop_size: usize,
}

impl Default for StftSettings {
    fn default() -> (settings: StftSettings)
        ensures
            settings.window_size == 4096,
            settings.hop_size == 512,
    {
        StftSettings { window_size: 4096, hop_size: 512 }
    }
}

/// The pitch shift of the playback chain, in semitones.
#[derive(Debug, Clone, Copy, PartialEq, Eq)]
pub struct PitchShiftSettings {
    pub semitones: i32,
}

impl Default for PitchShiftSettings {
    fn default() -> (settings: PitchShiftSettings)
        ensures
            settings.semitones == 0,
    {
        PitchShiftSettings { semitones: 0 }
    }
}

/// The pitch stage that passes samples through unchanged and only keeps the
/// settings it was given.
#[derive(Debug, Clone, Copy, PartialEq, Eq)]
pub struct BypassPitchShiftProcessor {
    settings: PitchShiftSettings,
}

impl BypassPitchShiftProcessor {
    pub fn new() -> (processor: BypassPitchShiftProcessor)
        ensures
            processor.spec_settings().semitones == 0,
    {
        BypassPitchShiftProcessor { settings: PitchShiftSettings::default() }
    }

    pub closed spec fn spec_settings(&self) -> PitchShiftSettings {
        self.settings
    }

    pub fn configure(&mut self, settings: PitchShiftSettings)
        ensures
            final(self).spec_settings() == settings,
    {
        self.settings = settings;
    }

    /// Nothing is buffered, so there is nothing to reset.
    pub fn reset(&mut self)
        ensures
            *final(self) == *old(self),
    {
    }

    pub fn current_settings(&self) -> (settings: PitchShiftSettings)
        ensures
            settings == self.spec_settings(),
    {
        self.settings
    }
}

impl Default for BypassPitchShiftProcessor {
    fn default() -> (processor: BypassPitchShiftProcessor)
        ensures
            processor.spec_settings().semitones == 0,
    {
        Self::new()
    }
}


/// How many bands the playback equalizer has.
pub const EQ_BAND_COUNT: usize = 5;

/// The `f32` value 1.0, as a bit pattern.
pub const UNIT_SPEED_BITS: u32 = 0x3F80_0000;

/// The gain of each equalizer band in decibels, as `f32` bit patterns.
#[derive(Debug, Clone, Copy, PartialEq, Eq)]
pub struct EqualizerSettings {
    pub gains_db_bits: [u32; EQ_BAND_COUNT],
}

impl Default for EqualizerSettings {
    /// Every band flat (0 dB).
    fn default() -> (settings: EqualizerSettings)
        ensures
            settings.gains_db_bits@ == seq![0u32, 0u32, 0u32, 0u32, 0u32],
    {
        EqualizerSettings { gains_db_bits: [0, 0, 0, 0, 0] }
    }
}

/// What the user set for the playback chain: speed (an `f32` bit pattern),
/// pitch shift in semitones, whether a speed change keeps the pitch, and the
/// equalizer.
#[derive(Debug, Clone, Copy, PartialEq, Eq)]
pub struct PlaybackDspSettings {
    pub speed_ratio_bits: u32,
    pub pitch_shift_semitones: i32,
    pub preserve_pitch_on_speed_change: bool,
    pub equalizer: EqualizerSettings,
}

impl PlaybackDspSettings {
    /// Shifts the playback one octave up; nothing else changes.
    pub fn octave_up(&mut self)
        ensures
            *final(self) == (PlaybackDspSettings { pitch_shift_semitones: 12, ..*old(self) }),
    {
        self.pitch_shift_semitones = 12;
    }

    /// Shifts the playback one octave down; nothing else changes.
    pub fn octave_down(&mut self)
        ensures
            *final(self) == (PlaybackDspSettings { pitch_shift_semitones: -12i32, ..*old(self) }),
    {
        self.pitch_shift_semitones = -12;
    }

    /// Removes the pitch shift; nothing else changes.
    pub fn reset_pitch(&mut self)
        ensures
            *final(self) == (PlaybackDspSettings { pitch_shift_semitones: 0, ..*old(self) }),
    {
        self.pitch_shift_semitones = 0;
    }
}

impl Default for PlaybackDspSettings {
    /// Normal speed, no pitch shift, pitch kept on speed changes, flat
    /// equalizer.
    fn default() -> (settings: PlaybackDspSettings)
        ensures
            settings.speed_ratio_bits == UNIT_SPEED_BITS,
            settings.pitch_shift_semitones == 0,
            settings.preserve_pitch_on_speed_change,
            settings.equalizer.gains_db_bits@ == seq![0u32, 0u32, 0u32, 0u32, 0u32],
    {
        PlaybackDspSettings {
            speed_ratio_bits: UNIT_SPEED_BITS,
            pitch_shift_semitones: 0,
            preserve_pitch_on_speed_change: true,
            equalizer: EqualizerSettings::default(),
        }
    }
}

/// The transport and comparison state the window shows. The position is an
/// `f64` bit pattern, in seconds.
#[derive(Debug, Clone)]
pub struct PlaybackState {
    pub position_seconds_bits: u64,
    pub playing: bool,
    pub dsp: PlaybackDspSettings,
    pub loop_enabled: bool,
    pub comparison_enabled: bool,
    pub comparison_sequence: Vec<ComparisonPhase>,
    pub comparison_sequence_index: usize,
}

impl Default for PlaybackState {
    /// Stopped at the start, no loop, no comparison, the default sequence.
    fn default() -> (state: PlaybackState)
        ensures
            state.position_seconds_bits == 0,
            !state.playing,
            state.dsp.speed_ratio_bits == UNIT_SPEED_BITS,
            state.dsp.pitch_shift_semitones == 0,
            state.dsp.preserve_pitch_on_speed_change,
            state.dsp.equalizer.gains_db_bits@ == seq![0u32, 0u32, 0u32, 0u32, 0u32],
            !state.loop_enabled,
            !state.comparison_enabled,
            state.comparison_sequence@ == spec_default_comparison_sequence(),
            state.comparison_sequence_index == 0,
    {
        PlaybackState {
            position_seconds_bits: 0,
            playing: false,
            dsp: PlaybackDspSettings::default(),
            loop_enabled: false,
            comparison_enabled: false,
            comparison_sequence: default_comparison_sequence(),
            comparison_sequence_index: 0,
        }
    }
}

impl PlaybackState {
    /// The phase being heard: `None` while the comparison is off, else the
    /// step the index points at in the repeating sequence.
    pub fn comparison_phase(&self) -> (phase: Option<ComparisonPhase>)
        requires
            self.comparison_enabled ==> self.comparison_sequence@.len() > 0,
        ensures
            phase == (if self.comparison_enabled {
                spec_comparison_phase_at(self.comparison_sequence@, self.comparison_sequence_index as int)
            } else {
                None
            }),
            self.comparison_enabled ==> phase is Some,
    {
        if self.comparison_enabled {
            comparison_phase_at(self.comparison_sequence.as_slice(), self.comparison_sequence_index)
        } else {
            None
        }
    }
}

/// The first of two optional values that is present, else `otherwise`.
pub open spec fn first_present<T>(first: Option<T>, second: Option<T>, otherwise: T) -> T {
    match first {
        Some(value) => value,
        None => match second {
            Some(value) => value,
            None => otherwise,
        },
    }
}

/// The sample rate and channel count of decoded audio: what the decoded
/// packets reported, else what the track header declared; `None` when
/// neither gives a sample rate. Without any channel count the audio is mono.
pub fn decoded_stream_format(
    detected_sample_rate: Option<u32>,
    declared_sample_rate: Option<u32>,
    detected_channels: Option<u16>,
    declared_channels: Option<u16>,
) -> (format: Option<(u32, u16)>)
    ensures
        format == (if detected_sample_rate is None && declared_sample_rate is None {
            None
        } else {
            Some((first_present(detected_sample_rate, declared_sample_rate, 0), first_present(detected_channels, declared_channels, 1)))
        }),
{
    let sample_rate = match detected_sample_rate {
        Some(rate) => rate,
        None => match declared_sample_rate {
            Some(rate) => rate,
            None => {
                return None;
            },
        },
    };
    let channels = match detected_channels {
        Some(channels) => channels,
        None => match declared_channels {
            Some(channels) => channels,
            None => 1,
        },
    };
    Some((sample_rate, channels))
}

} // verus!
