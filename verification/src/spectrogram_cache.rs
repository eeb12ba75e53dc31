use vstd::prelude::*;
use vstd::bytes::*;
use vstd::slice::*;
use vstd::utf8::*;
use crate::audio_identity::AudioIdentity;
use crate::float_bits::{
    f64_bits_finite,
    f64_bits_nan,
    f64_bits_equal,
    f32_bits_in_unit_interval,
    f64_is_finite,
    f64_equal,
    f32_in_unit_interval,
};
use crate::paths::{path_file_name, path_with_file_name, file_name_of, with_file_name};
use crate::playback::StftSettings;

verus! {

/// The lowest MIDI note a spectrogram row stands for.
pub const MIN_MIDI_NOTE: usize = 24;

/// The highest MIDI note a spectrogram row stands for.
pub const MAX_MIDI_NOTE: usize = 108;

/// The version written after the magic bytes of a cache file.
pub const CACHE_FORMAT_VERSION: u32 = 1;

/// The longest audio file name, in bytes, that a cache file stores.
pub const MAX_FILENAME_BYTES: usize = 16384;

/// The most intensity values a cache file may hold.
pub const MAX_INTENSITY_VALUES: usize = 200000000;

/// A spectrogram as the cache stores it: `frames` columns of `pitches` rows,
/// frame by frame. The frame duration is the bit pattern of an `f64` of
/// seconds and each intensity the bit pattern of an `f32`.
#[derive(Debug, Clone)]
pub struct SpectrogramData {
    pub frames: usize,
    pub pitches: usize,
    pub min_midi_note: usize,
    pub max_midi_note: usize,
    pub frame_duration_seconds_bits: u64,
    pub intensity_bits: Vec<u32>,
}

/// What looking for a cache file found.
#[derive(Debug, Clone, Copy, PartialEq, Eq, Structural)]
pub enum CacheLoadOutcome {
    NotFound,
    Hit,
    Invalid,
}

#[verifier::external_type_specification]
#[verifier::external_body]
pub struct ExIoError(std::io::Error);

/// Why a cache file could not be written or read.
#[derive(Debug)]
pub enum SpectrogramCacheError {
    Io(std::io::Error),
    InvalidPath(String),
    InvalidData(&'static str),
}

/// The product of two sizes, or `usize::MAX` where it does not fit.
pub open spec fn saturating_product(a: usize, b: usize) -> int {
    if a * b > usize::MAX {
        usize::MAX as int
    } else {
        a * b
    }
}

/// The number of rows of a spectrogram that has frames.
pub open spec fn pitch_rows() -> int {
    MAX_MIDI_NOTE - MIN_MIDI_NOTE + 1
}

/// What a spectrogram must be to be cached: the fixed note range, a full set
/// of rows (or nothing at all), one intensity per cell, not too many of them,
/// a finite frame duration and every intensity finite within `0.0..=1.0`.
pub open spec fn spectrogram_is_valid(data: SpectrogramData) -> bool {
    &&& data.min_midi_note == MIN_MIDI_NOTE
    &&& data.max_midi_note == MAX_MIDI_NOTE
    &&& (data.pitches == pitch_rows() || (data.frames == 0 && data.pitches == 0))
    &&& data.intensity_bits@.len() == saturating_product(data.frames, data.pitches)
    &&& data.intensity_bits@.len() <= MAX_INTENSITY_VALUES
    &&& f64_bits_finite(data.frame_duration_seconds_bits)
    &&& forall|i: int|
        0 <= i < data.intensity_bits@.len() ==> f32_bits_in_unit_interval(
            #[trigger] data.intensity_bits@[i],
        )
}

/// The message of the error that refuses an invalid spectrogram.
pub open spec fn invalid_spectrogram_message() -> Seq<char> {
    "スペクトログラム値"@
}

/// The message of the error that refuses an over-long audio file name.
pub open spec fn long_name_message() -> Seq<char> {
    "音源名が長すぎます"@
}

/// Whether an error is `InvalidData` with this message.
pub open spec fn is_invalid_data(error: SpectrogramCacheError, message: Seq<char>) -> bool {
    error matches SpectrogramCacheError::InvalidData(text) && text@ == message
}

/// Checks that a spectrogram can be cached.
pub fn validate_spectrogram(data: &SpectrogramData) -> (checked: Result<(), SpectrogramCacheError>)
    ensures
        match checked {
            Ok(()) => spectrogram_is_valid(*data),
            Err(error) => !spectrogram_is_valid(*data) && is_invalid_data(
                error,
                invalid_spectrogram_message(),
            ),
        },
{
    let cells = match data.frames.checked_mul(data.pitches) {
        Some(cells) => cells,
        None => usize::MAX,
    };
    let shape_ok = data.min_midi_note == MIN_MIDI_NOTE && data.max_midi_note == MAX_MIDI_NOTE && (
    data.pitches == MAX_MIDI_NOTE - MIN_MIDI_NOTE + 1 || (data.frames == 0 && data.pitches == 0))
        && data.intensity_bits.len() == cells && data.intensity_bits.len() <= MAX_INTENSITY_VALUES
        && f64_is_finite(data.frame_duration_seconds_bits);
    if !shape_ok {
        return Err(SpectrogramCacheError::InvalidData("スペクトログラム値"));
    }
    let mut i: usize = 0;
    while i < data.intensity_bits.len()
        invariant
            i <= data.intensity_bits@.len(),
            forall|j: int| 0 <= j < i ==> f32_bits_in_unit_interval(#[trigger] data.intensity_bits@[j]),
        decreases data.intensity_bits@.len() - i,
    {
        if !f32_in_unit_interval(data.intensity_bits[i]) {
            return Err(SpectrogramCacheError::InvalidData("スペクトログラム値"));
        }
        i = i + 1;
    }
    Ok(())
}

/// The four bytes that open a cache file: "OBSC".
pub open spec fn cache_magic() -> Seq<u8> {
    seq![0x4fu8, 0x42u8, 0x53u8, 0x43u8]
}

/// The audio file name as the cache stores it: its UTF-8 bytes.
pub open spec fn name_bytes(identity: AudioIdentity) -> Seq<u8> {
    encode_utf8(identity.file_name@)
}

/// Intensity bit patterns written one after another, four little-endian
/// bytes each.
pub open spec fn intensity_bytes(values: Seq<u32>) -> Seq<u8>
    decreases values.len(),
{
    if values.len() == 0 {
        Seq::empty()
    } else {
        intensity_bytes(values.drop_last()) + spec_u32_to_le_bytes(values.last())
    }
}

/// Everything a cache file holds before the intensities: magic, version,
/// name length and name, the audio identity, the analysis settings and the
/// shape of the spectrogram. Integers are little-endian.
pub open spec fn cache_header_bytes(
    identity: AudioIdentity,
    settings: StftSettings,
    data: SpectrogramData,
) -> Seq<u8> {
    cache_magic() + spec_u32_to_le_bytes(CACHE_FORMAT_VERSION) + spec_u32_to_le_bytes(
        name_bytes(identity).len() as u32,
    ) + name_bytes(identity) + spec_u64_to_le_bytes(identity.file_size_bytes)
        + spec_u64_to_le_bytes(identity.modified_unix_ms) + spec_u64_to_le_bytes(
        identity.duration_seconds_bits,
    ) + spec_u32_to_le_bytes(identity.sample_rate_hz) + spec_u64_to_le_bytes(
        settings.window_size as u64,
    ) + spec_u64_to_le_bytes(settings.hop_size as u64) + spec_u64_to_le_bytes(data.frames as u64)
        + spec_u64_to_le_bytes(data.pitches as u64) + spec_u64_to_le_bytes(
        data.min_midi_note as u64,
    ) + spec_u64_to_le_bytes(data.max_midi_note as u64) + spec_u64_to_le_bytes(
        data.frame_duration_seconds_bits,
    ) + spec_u64_to_le_bytes(data.intensity_bits@.len() as u64)
}

/// The whole cache file for a spectrogram of an audio file.
pub open spec fn cache_bytes(
    identity: AudioIdentity,
    settings: StftSettings,
    data: SpectrogramData,
) -> Seq<u8> {
    cache_header_bytes(identity, settings, data) + intensity_bytes(data.intensity_bits@)
}

/// Builds the cache file for a spectrogram. Refuses an invalid spectrogram
/// first, then an audio file name longer than the format allows.
pub fn encode_spectrogram_cache(
    identity: &AudioIdentity,
    settings: StftSettings,
    data: &SpectrogramData,
) -> (encoded: Result<Vec<u8>, SpectrogramCacheError>)
    ensures
        match encoded {
            Ok(bytes) => spectrogram_is_valid(*data) && name_bytes(*identity).len()
                <= MAX_FILENAME_BYTES && bytes@ == cache_bytes(*identity, settings, *data),
            Err(error) => if !spectrogram_is_valid(*data) {
                is_invalid_data(error, invalid_spectrogram_message())
            } else {
                name_bytes(*identity).len() > MAX_FILENAME_BYTES && is_invalid_data(
                    error,
                    long_name_message(),
                )
            },
        },
{
    match validate_spectrogram(data) {
        Ok(()) => {},
        Err(error) => {
            return Err(error);
        },
    }
    let name = identity.file_name.as_str().as_bytes();
    if name.len() > MAX_FILENAME_BYTES {
        return Err(SpectrogramCacheError::InvalidData("音源名が長すぎます"));
    }
    let mut out: Vec<u8> = Vec::new();
    out.push(0x4fu8);
    out.push(0x42u8);
    out.push(0x53u8);
    out.push(0x43u8);
    assert(out@ =~= cache_magic());
    let mut piece = u32_to_le_bytes(CACHE_FORMAT_VERSION);
    out.append(&mut piece);
    let mut piece = u32_to_le_bytes(name.len() as u32);
    out.append(&mut piece);
    let mut piece = slice_to_vec(name);
    out.append(&mut piece);
    let mut piece = u64_to_le_bytes(identity.file_size_bytes);
    out.append(&mut piece);
    let mut piece = u64_to_le_bytes(identity.modified_unix_ms);
    out.append(&mut piece);
    let mut piece = u64_to_le_bytes(identity.duration_seconds_bits);
    out.append(&mut piece);
    let mut piece = u32_to_le_bytes(identity.sample_rate_hz);
    out.append(&mut piece);
    let mut piece = u64_to_le_bytes(settings.window_size as u64);
    out.append(&mut piece);
    let mut piece = u64_to_le_bytes(settings.hop_size as u64);
    out.append(&mut piece);
    let mut piece = u64_to_le_bytes(data.frames as u64);
    out.append(&mut piece);
    let mut piece = u64_to_le_bytes(data.pitches as u64);
    out.append(&mut piece);
    let mut piece = u64_to_le_bytes(data.min_midi_note as u64);
    out.append(&mut piece);
    let mut piece = u64_to_le_bytes(data.max_midi_note as u64);
    out.append(&mut piece);
    let mut piece = u64_to_le_bytes(data.frame_duration_seconds_bits);
    out.append(&mut piece);
    let mut piece = u64_to_le_bytes(data.intensity_bits.len() as u64);
    out.append(&mut piece);
    let ghost header = out@;
    assert(header == cache_header_bytes(*identity, settings, *data));
    let mut i: usize = 0;
    while i < data.intensity_bits.len()
        invariant
            i <= data.intensity_bits@.len(),
            out@ == header + intensity_bytes(data.intensity_bits@.subrange(0, i as int)),
        decreases data.intensity_bits@.len() - i,
    {
        let ghost done = data.intensity_bits@.subrange(0, i as int);
        let ghost next = data.intensity_bits@.subrange(0, i + 1);
        assert(next.drop_last() =~= done);
        let mut piece = u32_to_le_bytes(data.intensity_bits[i]);
        out.append(&mut piece);
        assert(out@ =~= header + intensity_bytes(next));
        i = i + 1;
    }
    assert(data.intensity_bits@.subrange(0, i as int) =~= data.intensity_bits@);
    Ok(out)
}

/// The little-endian `u32` stored at `at`.
pub open spec fn u32_at(bytes: Seq<u8>, at: int) -> u32 {
    spec_u32_from_le_bytes(bytes.subrange(at, at + 4))
}

/// The little-endian `u64` stored at `at`.
pub open spec fn u64_at(bytes: Seq<u8>, at: int) -> u64 {
    spec_u64_from_le_bytes(bytes.subrange(at, at + 8))
}

/// Where the fixed-size fields start: right after the stored file name,
/// whose length is the `u32` at offset 8.
pub open spec fn fields_offset(bytes: Seq<u8>) -> int {
    12 + u32_at(bytes, 8)
}

/// Where the intensities start, after the 92 bytes of fixed-size fields.
pub open spec fn intensities_offset(bytes: Seq<u8>) -> int {
    fields_offset(bytes) + 92
}

pub open spec fn stored_frames(bytes: Seq<u8>) -> u64 {
    u64_at(bytes, fields_offset(bytes) + 44)
}

pub open spec fn stored_pitches(bytes: Seq<u8>) -> u64 {
    u64_at(bytes, fields_offset(bytes) + 52)
}

pub open spec fn stored_min_note(bytes: Seq<u8>) -> u64 {
    u64_at(bytes, fields_offset(bytes) + 60)
}

pub open spec fn stored_max_note(bytes: Seq<u8>) -> u64 {
    u64_at(bytes, fields_offset(bytes) + 68)
}

pub open spec fn stored_frame_duration(bytes: Seq<u8>) -> u64 {
    u64_at(bytes, fields_offset(bytes) + 76)
}

pub open spec fn stored_intensity_count(bytes: Seq<u8>) -> u64 {
    u64_at(bytes, fields_offset(bytes) + 84)
}

/// The intensity bit patterns the file holds, as many as its count says.
pub open spec fn stored_intensities(bytes: Seq<u8>) -> Seq<u32> {
    Seq::new(
        stored_intensity_count(bytes) as nat,
        |i: int| u32_at(bytes, intensities_offset(bytes) + 4 * i),
    )
}

/// Whether everything before the intensities is readable and fits: the
/// magic and version, a short enough name, the fixed-size fields, the
/// stored identity and analysis settings equal to the given ones (the
/// duration compared as `f64`), the note range, the shape, a finite frame
/// duration, and room for every intensity the count promises.
pub open spec fn header_matches(
    bytes: Seq<u8>,
    identity: AudioIdentity,
    settings: StftSettings,
) -> bool {
    let p = fields_offset(bytes);
    let frames = stored_frames(bytes);
    let pitches = stored_pitches(bytes);
    let count = stored_intensity_count(bytes);
    &&& bytes.len() >= 12
    &&& bytes.subrange(0, 4) == cache_magic()
    &&& u32_at(bytes, 4) == CACHE_FORMAT_VERSION
    &&& u32_at(bytes, 8) <= MAX_FILENAME_BYTES
    &&& bytes.len() >= p + 92
    &&& frames <= usize::MAX
    &&& pitches <= usize::MAX
    &&& stored_min_note(bytes) <= usize::MAX
    &&& stored_max_note(bytes) <= usize::MAX
    &&& count <= usize::MAX
    &&& bytes.subrange(12, p) == name_bytes(identity)
    &&& u64_at(bytes, p) == identity.file_size_bytes
    &&& u64_at(bytes, p + 8) == identity.modified_unix_ms
    &&& f64_bits_equal(u64_at(bytes, p + 16), identity.duration_seconds_bits)
    &&& u32_at(bytes, p + 24) == identity.sample_rate_hz
    &&& u64_at(bytes, p + 28) == settings.window_size as u64
    &&& u64_at(bytes, p + 36) == settings.hop_size as u64
    &&& stored_min_note(bytes) == MIN_MIDI_NOTE
    &&& stored_max_note(bytes) == MAX_MIDI_NOTE
    &&& (pitches == pitch_rows() || (frames == 0 && pitches == 0))
    &&& f64_bits_finite(stored_frame_duration(bytes))
    &&& count == saturating_product(frames as usize, pitches as usize)
    &&& count <= MAX_INTENSITY_VALUES
    &&& bytes.len() >= intensities_offset(bytes) + 4 * count
}

/// Whether a cache file is a hit for this audio and these settings: its
/// header matches and every intensity is finite within `0.0..=1.0`. Bytes
/// after the last intensity are not read.
pub open spec fn cache_matches(bytes: Seq<u8>, identity: AudioIdentity, settings: StftSettings) -> bool {
    &&& header_matches(bytes, identity, settings)
    &&& forall|i: int|
        0 <= i < stored_intensity_count(bytes) ==> f32_bits_in_unit_interval(
            #[trigger] stored_intensities(bytes)[i],
        )
}

/// Whether a spectrogram is the one a cache file holds.
pub open spec fn is_stored_spectrogram(data: SpectrogramData, bytes: Seq<u8>) -> bool {
    &&& data.frames == stored_frames(bytes)
    &&& data.pitches == stored_pitches(bytes)
    &&& data.min_midi_note == stored_min_note(bytes)
    &&& data.max_midi_note == stored_max_note(bytes)
    &&& data.frame_duration_seconds_bits == stored_frame_duration(bytes)
    &&& data.intensity_bits@ == stored_intensities(bytes)
}

fn read_u32_at(bytes: &[u8], at: usize) -> (value: u32)
    requires
        at + 4 <= bytes@.len(),
    ensures
        value == u32_at(bytes@, at as int),
{
    let len = bytes.len();
    assert(at + 4 <= len);
    u32_from_le_bytes(slice_subrange(bytes, at, at + 4))
}

fn read_u64_at(bytes: &[u8], at: usize) -> (value: u64)
    requires
        at + 8 <= bytes@.len(),
    ensures
        value == u64_at(bytes@, at as int),
{
    let len = bytes.len();
    assert(at + 8 <= len);
    u64_from_le_bytes(slice_subrange(bytes, at, at + 8))
}

fn read_usize_at(bytes: &[u8], at: usize) -> (value: Option<usize>)
    requires
        at + 8 <= bytes@.len(),
    ensures
        match value {
            Some(value) => u64_at(bytes@, at as int) <= usize::MAX && value == u64_at(
                bytes@,
                at as int,
            ),
            None => u64_at(bytes@, at as int) > usize::MAX,
        },
{
    let value = read_u64_at(bytes, at);
    if value > usize::MAX as u64 {
        None
    } else {
        Some(value as usize)
    }
}

/// Whether two byte strings are equal.
fn same_bytes(a: &[u8], b: &[u8]) -> (same: bool)
    ensures
        same == (a@ == b@),
{
    if a.len() != b.len() {
        return false;
    }
    let mut i: usize = 0;
    while i < a.len()
        invariant
            a@.len() == b@.len(),
            i <= a@.len(),
            a@.subrange(0, i as int) == b@.subrange(0, i as int),
        decreases a@.len() - i,
    {
        if a[i] != b[i] {
            return false;
        }
        assert(a@.subrange(0, i + 1) =~= a@.subrange(0, i as int).push(a@[i as int]));
        assert(b@.subrange(0, i + 1) =~= b@.subrange(0, i as int).push(b@[i as int]));
        i = i + 1;
    }
    assert(a@ =~= a@.subrange(0, i as int));
    assert(b@ =~= b@.subrange(0, i as int));
    true
}

/// Reads a cache file: the spectrogram it holds where it is a hit for this
/// audio and these settings, `None` where anything is missing, different or
/// out of range.
pub fn decode_spectrogram_cache(
    bytes: &[u8],
    identity: &AudioIdentity,
    settings: StftSettings,
) -> (decoded: Option<SpectrogramData>)
    ensures
        match decoded {
            Some(data) => cache_matches(bytes@, *identity, settings) && is_stored_spectrogram(
                data,
                bytes@,
            ),
            None => !cache_matches(bytes@, *identity, settings),
        },
{
    if bytes.len() < 12 {
        return None;
    }
    if !(bytes[0] == 0x4fu8 && bytes[1] == 0x42u8 && bytes[2] == 0x53u8 && bytes[3] == 0x43u8) {
        assert(!(bytes@.subrange(0, 4) =~= cache_magic())) by {
            if bytes@.subrange(0, 4) =~= cache_magic() {
                assert(bytes@[0] == bytes@.subrange(0, 4)[0]);
                assert(bytes@[1] == bytes@.subrange(0, 4)[1]);
                assert(bytes@[2] == bytes@.subrange(0, 4)[2]);
                assert(bytes@[3] == bytes@.subrange(0, 4)[3]);
            }
        }
        return None;
    }
    assert(bytes@.subrange(0, 4) =~= cache_magic());
    if read_u32_at(bytes, 4) != CACHE_FORMAT_VERSION {
        return None;
    }
    let name_len = read_u32_at(bytes, 8);
    if name_len as usize > MAX_FILENAME_BYTES {
        return None;
    }
    let p: usize = 12 + name_len as usize;
    if bytes.len() < p + 92 {
        return None;
    }
    let stored_name = slice_subrange(bytes, 12, p);
    let stored_size = read_u64_at(bytes, p);
    let stored_modified = read_u64_at(bytes, p + 8);
    let stored_duration = read_u64_at(bytes, p + 16);
    let stored_rate = read_u32_at(bytes, p + 24);
    let stored_window = read_u64_at(bytes, p + 28);
    let stored_hop = read_u64_at(bytes, p + 36);
    let frames = match read_usize_at(bytes, p + 44) {
        Some(value) => value,
        None => {
            return None;
        },
    };
    let pitches = match read_usize_at(bytes, p + 52) {
        Some(value) => value,
        None => {
            return None;
        },
    };
    let min_note = match read_usize_at(bytes, p + 60) {
        Some(value) => value,
        None => {
            return None;
        },
    };
    let max_note = match read_usize_at(bytes, p + 68) {
        Some(value) => value,
        None => {
            return None;
        },
    };
    let frame_duration = read_u64_at(bytes, p + 76);
    let count = match read_usize_at(bytes, p + 84) {
        Some(value) => value,
        None => {
            return None;
        },
    };
    let matches_identity = same_bytes(stored_name, identity.file_name.as_str().as_bytes())
        && stored_size == identity.file_size_bytes && stored_modified == identity.modified_unix_ms
        && f64_equal(stored_duration, identity.duration_seconds_bits) && stored_rate
        == identity.sample_rate_hz;
    let matches_analysis = stored_window == settings.window_size as u64 && stored_hop
        == settings.hop_size as u64;
    let cells = match frames.checked_mul(pitches) {
        Some(cells) => cells,
        None => usize::MAX,
    };
    if !matches_identity || !matches_analysis || min_note != MIN_MIDI_NOTE || max_note
        != MAX_MIDI_NOTE || !(pitches == MAX_MIDI_NOTE - MIN_MIDI_NOTE + 1 || (frames == 0
        && pitches == 0)) || !f64_is_finite(frame_duration) || count != cells || count
        > MAX_INTENSITY_VALUES {
        return None;
    }
    let start: usize = p + 92;
    if bytes.len() - start < 4 * count {
        return None;
    }
    assert(header_matches(bytes@, *identity, settings));
    let mut values: Vec<u32> = Vec::new();
    let mut i: usize = 0;
    while i < count
        invariant
            header_matches(bytes@, *identity, settings),
            start == intensities_offset(bytes@),
            count == stored_intensity_count(bytes@),
            start + 4 * count <= bytes@.len(),
            i <= count,
            values@ == stored_intensities(bytes@).subrange(0, i as int),
            forall|j: int| 0 <= j < i ==> f32_bits_in_unit_interval(#[trigger] stored_intensities(bytes@)[j]),
        decreases count - i,
    {
        let value = read_u32_at(bytes, start + 4 * i);
        assert(value == stored_intensities(bytes@)[i as int]);
        if !f32_in_unit_interval(value) {
            return None;
        }
        values.push(value);
        assert(values@ =~= stored_intensities(bytes@).subrange(0, i + 1));
        i = i + 1;
    }
    assert(values@ =~= stored_intensities(bytes@));
    Some(
        SpectrogramData {
            frames,
            pitches,
            min_midi_note: min_note,
            max_midi_note: max_note,
            frame_duration_seconds_bits: frame_duration,
            intensity_bits: values,
        },
    )
}

/// The outcome of reading a cache file that exists: a hit with the
/// spectrogram it holds, or invalid with nothing.
pub fn load_cached_spectrogram(
    bytes: &[u8],
    identity: &AudioIdentity,
    settings: StftSettings,
) -> (loaded: (CacheLoadOutcome, Option<SpectrogramData>))
    ensures
        loaded.0 == CacheLoadOutcome::Hit <==> cache_matches(bytes@, *identity, settings),
        loaded.0 == CacheLoadOutcome::Hit || loaded.0 == CacheLoadOutcome::Invalid,
        loaded.0 == CacheLoadOutcome::Hit ==> (loaded.1 matches Some(data)
            && is_stored_spectrogram(data, bytes@)),
        loaded.0 == CacheLoadOutcome::Invalid ==> loaded.1 is None,
{
    match decode_spectrogram_cache(bytes, identity, settings) {
        Some(data) => (CacheLoadOutcome::Hit, Some(data)),
        None => (CacheLoadOutcome::Invalid, None),
    }
}

/// The spectrogram cache beside an audio file: the audio file's name
/// followed by ".otomieru.spectrum.bin", in the same directory. Fails when
/// the path names no file.
pub fn spectrogram_cache_path(audio_path: &str) -> (path: Result<String, SpectrogramCacheError>)
    ensures
        match path {
            Ok(path) => path_file_name(audio_path@) is Some && path@ == path_with_file_name(
                audio_path@,
                path_file_name(audio_path@)->0 + ".otomieru.spectrum.bin"@,
            ),
            Err(error) => path_file_name(audio_path@) is None && (
            error matches SpectrogramCacheError::InvalidPath(path) && path@ == audio_path@),
        },
{
    match file_name_of(audio_path) {
        Some(file_name) => {
            let mut name = String::from_str(file_name.as_str());
            name.append(".otomieru.spectrum.bin");
            Ok(with_file_name(audio_path, name.as_str()))
        },
        None => Err(SpectrogramCacheError::InvalidPath(String::from_str(audio_path))),
    }
}

/// A byte string that starts with another one.
pub open spec fn starts_with(bytes: Seq<u8>, prefix: Seq<u8>) -> bool {
    prefix.len() <= bytes.len() && bytes.subrange(0, prefix.len() as int) == prefix
}

/// If a byte string starts with `a + b`, it starts with `a` and holds `b`
/// right after it.
proof fn lemma_split_prefix(bytes: Seq<u8>, a: Seq<u8>, b: Seq<u8>)
    requires
        starts_with(bytes, a + b),
    ensures
        starts_with(bytes, a),
        bytes.subrange(a.len() as int, (a.len() + b.len()) as int) == b,
{
    assert(bytes.subrange(0, a.len() as int) =~= (a + b).subrange(0, a.len() as int));
    assert((a + b).subrange(0, a.len() as int) =~= a);
    assert(bytes.subrange(a.len() as int, (a.len() + b.len()) as int) =~= (a + b).subrange(
        a.len() as int,
        (a.len() + b.len()) as int,
    ));
    assert((a + b).subrange(a.len() as int, (a.len() + b.len()) as int) =~= b);
}

/// The bytes of the intensities are four per value, the value's own bytes
/// at four times its index.
proof fn lemma_intensity_bytes(values: Seq<u32>)
    ensures
        intensity_bytes(values).len() == 4 * values.len(),
        forall|i: int|
            0 <= i < values.len() ==> #[trigger] intensity_bytes(values).subrange(4 * i, 4 * i + 4)
                == spec_u32_to_le_bytes(values[i]),
    decreases values.len(),
{
    lemma_auto_spec_u32_to_from_le_bytes();
    if values.len() > 0 {
        let init = values.drop_last();
        lemma_intensity_bytes(init);
        let whole = intensity_bytes(values);
        assert(whole == intensity_bytes(init) + spec_u32_to_le_bytes(values.last()));
        assert forall|i: int| 0 <= i < values.len() implies #[trigger] whole.subrange(
            4 * i,
            4 * i + 4,
        ) == spec_u32_to_le_bytes(values[i]) by {
            if i < init.len() {
                assert(whole.subrange(4 * i, 4 * i + 4) =~= intensity_bytes(init).subrange(
                    4 * i,
                    4 * i + 4,
                ));
            } else {
                assert(whole.subrange(4 * i, 4 * i + 4) =~= spec_u32_to_le_bytes(values.last()));
            }
        }
    }
}

/// A cache written for a spectrogram reads back as that same spectrogram,
/// for the audio and the settings it was written with: whenever writing
/// succeeds (a valid spectrogram, a name short enough) and the audio's
/// duration is a number, which `==` requires to match itself.
pub proof fn lemma_cache_round_trip(
    identity: AudioIdentity,
    settings: StftSettings,
    data: SpectrogramData,
)
    requires
        spectrogram_is_valid(data),
        name_bytes(identity).len() <= MAX_FILENAME_BYTES,
        !f64_bits_nan(identity.duration_seconds_bits),
    ensures
        cache_matches(cache_bytes(identity, settings, data), identity, settings),
        is_stored_spectrogram(data, cache_bytes(identity, settings, data)),
{
    lemma_cache_layout(identity, settings, data);
}

/// Where each field of a written cache lands.
proof fn lemma_cache_layout(identity: AudioIdentity, settings: StftSettings, data: SpectrogramData)
    requires
        spectrogram_is_valid(data),
        name_bytes(identity).len() <= MAX_FILENAME_BYTES,
    ensures
        ({
            let bytes = cache_bytes(identity, settings, data);
            let p = fields_offset(bytes);
            &&& p == 12 + name_bytes(identity).len()
            &&& bytes.len() == intensities_offset(bytes) + 4 * data.intensity_bits@.len()
            &&& bytes.subrange(0, 4) == cache_magic()
            &&& u32_at(bytes, 4) == CACHE_FORMAT_VERSION
            &&& bytes.subrange(12, p) == name_bytes(identity)
            &&& u64_at(bytes, p) == identity.file_size_bytes
            &&& u64_at(bytes, p + 8) == identity.modified_unix_ms
            &&& u64_at(bytes, p + 16) == identity.duration_seconds_bits
            &&& u32_at(bytes, p + 24) == identity.sample_rate_hz
            &&& u64_at(bytes, p + 28) == settings.window_size as u64
            &&& u64_at(bytes, p + 36) == settings.hop_size as u64
            &&& stored_frames(bytes) == data.frames
            &&& stored_pitches(bytes) == data.pitches
            &&& stored_min_note(bytes) == data.min_midi_note
            &&& stored_max_note(bytes) == data.max_midi_note
            &&& stored_frame_duration(bytes) == data.frame_duration_seconds_bits
            &&& stored_intensity_count(bytes) == data.intensity_bits@.len()
            &&& stored_intensities(bytes) == data.intensity_bits@
        }),
{
    lemma_auto_spec_u32_to_from_le_bytes();
    lemma_auto_spec_u64_to_from_le_bytes();
    let name = name_bytes(identity);
    let values = data.intensity_bits@;
    let s0 = cache_magic();
    let s1 = s0 + spec_u32_to_le_bytes(CACHE_FORMAT_VERSION);
    let s2 = s1 + spec_u32_to_le_bytes(name.len() as u32);
    let s3 = s2 + name;
    let s4 = s3 + spec_u64_to_le_bytes(identity.file_size_bytes);
    let s5 = s4 + spec_u64_to_le_bytes(identity.modified_unix_ms);
    let s6 = s5 + spec_u64_to_le_bytes(identity.duration_seconds_bits);
    let s7 = s6 + spec_u32_to_le_bytes(identity.sample_rate_hz);
    let s8 = s7 + spec_u64_to_le_bytes(settings.window_size as u64);
    let s9 = s8 + spec_u64_to_le_bytes(settings.hop_size as u64);
    let s10 = s9 + spec_u64_to_le_bytes(data.frames as u64);
    let s11 = s10 + spec_u64_to_le_bytes(data.pitches as u64);
    let s12 = s11 + spec_u64_to_le_bytes(data.min_midi_note as u64);
    let s13 = s12 + spec_u64_to_le_bytes(data.max_midi_note as u64);
    let s14 = s13 + spec_u64_to_le_bytes(data.frame_duration_seconds_bits);
    let s15 = s14 + spec_u64_to_le_bytes(values.len() as u64);
    let tail = intensity_bytes(values);
    let bytes = s15 + tail;
    assert(bytes == cache_bytes(identity, settings, data));
    lemma_intensity_bytes(values);
    assert(bytes.subrange(0, s15.len() as int) =~= s15);
    lemma_split_prefix(bytes, s14, spec_u64_to_le_bytes(values.len() as u64));
    lemma_split_prefix(bytes, s13, spec_u64_to_le_bytes(data.frame_duration_seconds_bits));
    lemma_split_prefix(bytes, s12, spec_u64_to_le_bytes(data.max_midi_note as u64));
    lemma_split_prefix(bytes, s11, spec_u64_to_le_bytes(data.min_midi_note as u64));
    lemma_split_prefix(bytes, s10, spec_u64_to_le_bytes(data.pitches as u64));
    lemma_split_prefix(bytes, s9, spec_u64_to_le_bytes(data.frames as u64));
    lemma_split_prefix(bytes, s8, spec_u64_to_le_bytes(settings.hop_size as u64));
    lemma_split_prefix(bytes, s7, spec_u64_to_le_bytes(settings.window_size as u64));
    lemma_split_prefix(bytes, s6, spec_u32_to_le_bytes(identity.sample_rate_hz));
    lemma_split_prefix(bytes, s5, spec_u64_to_le_bytes(identity.duration_seconds_bits));
    lemma_split_prefix(bytes, s4, spec_u64_to_le_bytes(identity.modified_unix_ms));
    lemma_split_prefix(bytes, s3, spec_u64_to_le_bytes(identity.file_size_bytes));
    lemma_split_prefix(bytes, s2, name);
    lemma_split_prefix(bytes, s1, spec_u32_to_le_bytes(name.len() as u32));
    lemma_split_prefix(bytes, s0, spec_u32_to_le_bytes(CACHE_FORMAT_VERSION));
    assert(u32_at(bytes, 8) == name.len());
    let start = s15.len() as int;
    assert(start == intensities_offset(bytes));
    assert forall|i: int| 0 <= i < values.len() implies #[trigger] stored_intensities(bytes)[i]
        == values[i] by {
        assert(bytes.subrange(start + 4 * i, start + 4 * i + 4) =~= tail.subrange(
            4 * i,
            4 * i + 4,
        ));
    }
    assert(stored_intensities(bytes) =~= values);
}

/// A cache written for one audio file and one set of analysis settings is a
/// hit for another pair only where nothing that identifies them differs: the
/// same file name, size, modification time and sample rate, durations that
/// `==` finds equal, and the same window and hop sizes.
pub proof fn lemma_cache_hit_requires_same_source(
    identity: AudioIdentity,
    settings: StftSettings,
    data: SpectrogramData,
    other_identity: AudioIdentity,
    other_settings: StftSettings,
)
    requires
        spectrogram_is_valid(data),
        name_bytes(identity).len() <= MAX_FILENAME_BYTES,
        cache_matches(cache_bytes(identity, settings, data), other_identity, other_settings),
    ensures
        other_identity.file_name@ == identity.file_name@,
        other_identity.file_size_bytes == identity.file_size_bytes,
        other_identity.modified_unix_ms == identity.modified_unix_ms,
        f64_bits_equal(identity.duration_seconds_bits, other_identity.duration_seconds_bits),
        other_identity.sample_rate_hz == identity.sample_rate_hz,
        other_settings == settings,
{
    lemma_cache_layout(identity, settings, data);
    encode_utf8_decode_utf8(identity.file_name@);
    encode_utf8_decode_utf8(other_identity.file_name@);
}

/// What to do with the spectrogram of a newly opened file, given what the
/// cache held: use the cached one, or analyse the audio again and report it
/// with the given words.
#[derive(Debug, Clone, Copy, PartialEq, Eq)]
pub enum SpectrogramPlan {
    UseCached,
    Rebuild(&'static str),
}

/// Uses a hit that came with its spectrogram; otherwise analyses again,
/// "analysed" where there was no cache and "cache rebuilt" where it was
/// unusable.
pub fn spectrogram_plan(outcome: CacheLoadOutcome, has_spectrogram: bool) -> (plan: SpectrogramPlan)
    ensures
        match plan {
            SpectrogramPlan::UseCached => outcome == CacheLoadOutcome::Hit && has_spectrogram,
            SpectrogramPlan::Rebuild(words) => !(outcome == CacheLoadOutcome::Hit && has_spectrogram)
                && words@ == if outcome == CacheLoadOutcome::NotFound {
                "解析しました"@
            } else {
                "解析キャッシュを再生成しました"@
            },
        },
{
    match outcome {
        CacheLoadOutcome::Hit => if has_spectrogram {
            SpectrogramPlan::UseCached
        } else {
            SpectrogramPlan::Rebuild("解析キャッシュを再生成しました")
        },
        CacheLoadOutcome::NotFound => SpectrogramPlan::Rebuild("解析しました"),
        CacheLoadOutcome::Invalid => SpectrogramPlan::Rebuild("解析キャッシュを再生成しました"),
    }
}

} // verus!
