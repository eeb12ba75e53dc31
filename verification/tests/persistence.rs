use otomieru_boyer::audio_identity::{audio_mismatches, mismatch_labels, AudioIdentity, AudioMismatch};
use otomieru_boyer::comparison::{default_comparison_sequence, ComparisonPhase};
use otomieru_boyer::playback::StftSettings;
use otomieru_boyer::project::ProjectState;
use otomieru_boyer::settings::{check_settings_version, finish_loaded_settings, AppSettings, FORMAT_VERSION};
use otomieru_boyer::sidecar::{
    accept_sidecar_document, check_sidecar_version, is_blank, prepare_sidecar_document,
    sidecar_path, temporary_sidecar_path, validate_document, LoadOutcome, SidecarError,
    SIDECAR_FORMAT_VERSION,
};
use otomieru_boyer::spectrogram_cache::{
    decode_spectrogram_cache, encode_spectrogram_cache, load_cached_spectrogram,
    spectrogram_cache_path, validate_spectrogram, CacheLoadOutcome, SpectrogramCacheError,
    SpectrogramData, MAX_FILENAME_BYTES, MAX_MIDI_NOTE, MIN_MIDI_NOTE,
};
use otomieru_boyer::tool_palette::ToolPaletteItem;
use otomieru_boyer::tool_palette::ToolPaletteItem::{Equalizer, Timbre};
use otomieru_boyer::project_ids::{LayerId, MemoId};
use otomieru_boyer::project::PitchMemo;

fn identity(file_name: &str) -> AudioIdentity {
    AudioIdentity {
        file_name: file_name.to_owned(),
        file_size_bytes: 12_345,
        modified_unix_ms: 678_900,
        duration_seconds_bits: 12.5f64.to_bits(),
        sample_rate_hz: 44_100,
    }
}

fn spectrogram() -> SpectrogramData {
    let pitches = MAX_MIDI_NOTE - MIN_MIDI_NOTE + 1;
    SpectrogramData {
        frames: 2,
        pitches,
        min_midi_note: MIN_MIDI_NOTE,
        max_midi_note: MAX_MIDI_NOTE,
        frame_duration_seconds_bits: (512.0f64 / 44_100.0).to_bits(),
        intensity_bits: vec![0.25f32.to_bits(); 2 * pitches],
    }
}

#[test]
fn sidecar_keeps_the_audio_extension() {
    let path = sidecar_path("music/song.flac").unwrap();
    assert_eq!(path, "music/song.flac.otomieru.json");
}

#[test]
fn companion_paths_need_a_file_name() {
    assert!(matches!(
        sidecar_path("music/.."),
        Err(SidecarError::InvalidAudioPath(path)) if path == "music/.."
    ));
    assert_eq!(
        temporary_sidecar_path("a/b.json").unwrap(),
        "a/b.json.tmp"
    );
    assert_eq!(
        spectrogram_cache_path("music/song.wav").unwrap(),
        "music/song.wav.otomieru.spectrum.bin"
    );
    assert!(matches!(
        spectrogram_cache_path(""),
        Err(SpectrogramCacheError::InvalidPath(path)) if path.is_empty()
    ));
}

#[test]
fn cache_round_trip_returns_cached_spectrogram() {
    let identity = identity("song.wav");
    let source = spectrogram();
    let bytes = encode_spectrogram_cache(&identity, StftSettings::default(), &source).unwrap();

    let (outcome, loaded) = load_cached_spectrogram(&bytes, &identity, StftSettings::default());

    assert_eq!(outcome, CacheLoadOutcome::Hit);
    let loaded = loaded.unwrap();
    assert_eq!(loaded.frames, source.frames);
    assert_eq!(loaded.pitches, source.pitches);
    assert_eq!(loaded.intensity_bits, source.intensity_bits);
    assert_eq!(loaded.frame_duration_seconds_bits, source.frame_duration_seconds_bits);
}

#[test]
fn the_cache_layout_starts_with_magic_version_and_name() {
    let identity = identity("ab");
    let bytes = encode_spectrogram_cache(&identity, StftSettings::default(), &spectrogram()).unwrap();
    assert_eq!(&bytes[..4], b"OBSC");
    assert_eq!(&bytes[4..8], &1u32.to_le_bytes());
    assert_eq!(&bytes[8..12], &2u32.to_le_bytes());
    assert_eq!(&bytes[12..14], b"ab");
    assert_eq!(&bytes[14..22], &12_345u64.to_le_bytes());
    let pitches = MAX_MIDI_NOTE - MIN_MIDI_NOTE + 1;
    assert_eq!(bytes.len(), 14 + 92 + 4 * 2 * pitches);
}

#[test]
fn audio_identity_mismatch_invalidates_cache() {
    let identity = identity("song.wav");
    let bytes = encode_spectrogram_cache(&identity, StftSettings::default(), &spectrogram()).unwrap();
    let changed_identity = AudioIdentity {
        file_size_bytes: identity.file_size_bytes + 1,
        ..identity.clone()
    };

    let (outcome, loaded) = load_cached_spectrogram(&bytes, &changed_identity, StftSettings::default());

    assert_eq!(outcome, CacheLoadOutcome::Invalid);
    assert!(loaded.is_none());
}

#[test]
fn analysis_settings_mismatch_invalidates_cache() {
    let identity = identity("song.wav");
    let bytes = encode_spectrogram_cache(&identity, StftSettings::default(), &spectrogram()).unwrap();
    let changed_settings = StftSettings { window_size: 2_048, hop_size: 256 };

    let (outcome, loaded) = load_cached_spectrogram(&bytes, &identity, changed_settings);

    assert_eq!(outcome, CacheLoadOutcome::Invalid);
    assert!(loaded.is_none());
}

#[test]
fn corrupt_cache_is_invalid() {
    let identity = identity("song.wav");
    let (outcome, loaded) = load_cached_spectrogram(b"OBSC\x01", &identity, StftSettings::default());
    assert_eq!(outcome, CacheLoadOutcome::Invalid);
    assert!(loaded.is_none());
    let mut bytes = encode_spectrogram_cache(&identity, StftSettings::default(), &spectrogram()).unwrap();
    let last = bytes.len() - 4;
    bytes[last..].copy_from_slice(&2.0f32.to_le_bytes());
    assert!(decode_spectrogram_cache(&bytes, &identity, StftSettings::default()).is_none());
    bytes.truncate(bytes.len() - 1);
    assert!(decode_spectrogram_cache(&bytes, &identity, StftSettings::default()).is_none());
}

#[test]
fn a_duration_of_minus_zero_matches_zero() {
    let mut saved = identity("song.wav");
    saved.duration_seconds_bits = 0.0f64.to_bits();
    let bytes = encode_spectrogram_cache(&saved, StftSettings::default(), &spectrogram()).unwrap();
    let mut current = saved.clone();
    current.duration_seconds_bits = (-0.0f64).to_bits();
    assert!(decode_spectrogram_cache(&bytes, &current, StftSettings::default()).is_some());
    let mut nan = saved.clone();
    nan.duration_seconds_bits = f64::NAN.to_bits();
    let bytes = encode_spectrogram_cache(&nan, StftSettings::default(), &spectrogram()).unwrap();
    assert!(decode_spectrogram_cache(&bytes, &nan, StftSettings::default()).is_none());
}

#[test]
fn invalid_spectrograms_and_long_names_are_not_cached() {
    let invalid = SpectrogramData {
        frame_duration_seconds_bits: f64::NAN.to_bits(),
        ..spectrogram()
    };
    assert!(matches!(
        validate_spectrogram(&invalid),
        Err(SpectrogramCacheError::InvalidData("スペクトログラム値"))
    ));
    assert!(matches!(
        encode_spectrogram_cache(&identity("song.wav"), StftSettings::default(), &invalid),
        Err(SpectrogramCacheError::InvalidData("スペクトログラム値"))
    ));
    let long_name = "x".repeat(MAX_FILENAME_BYTES + 1);
    assert!(matches!(
        encode_spectrogram_cache(&identity(&long_name), StftSettings::default(), &spectrogram()),
        Err(SpectrogramCacheError::InvalidData("音源名が長すぎます"))
    ));
    let empty = SpectrogramData { frames: 0, pitches: 0, intensity_bits: Vec::new(), ..spectrogram() };
    assert!(validate_spectrogram(&empty).is_ok());
    let loud = SpectrogramData { intensity_bits: vec![1.5f32.to_bits(); 2 * 85], ..spectrogram() };
    assert!(validate_spectrogram(&loud).is_err());
}

#[test]
fn audio_mismatch_is_reported_in_order() {
    let saved = identity("song.flac");
    let mut current = identity("song.flac");
    current.file_size_bytes += 1;
    assert_eq!(audio_mismatches(&saved, &current, true), vec![AudioMismatch::FileSize]);

    let other = AudioIdentity { file_name: "other.flac".to_owned(), sample_rate_hz: 48_000, ..current };
    let all = audio_mismatches(&saved, &other, false);
    assert_eq!(
        all,
        vec![
            AudioMismatch::FileName,
            AudioMismatch::FileSize,
            AudioMismatch::Duration,
            AudioMismatch::SampleRate
        ]
    );
    assert_eq!(mismatch_labels(&all), "ファイル名・ファイルサイズ・長さ・サンプルレート");
    assert_eq!(mismatch_labels(&[]), "");
    assert!(audio_mismatches(&saved, &saved, true).is_empty());
}

#[test]
fn a_new_project_is_a_valid_document() {
    let project = ProjectState::new();
    let overruns = vec![Vec::new(); project.data.layers.len()];
    let document = prepare_sidecar_document(identity("song.flac"), &project.data, &overruns).unwrap();
    assert_eq!(document.format_version, SIDECAR_FORMAT_VERSION);
    assert!(validate_document(&document, &overruns).is_ok());
    match accept_sidecar_document(document, &identity("song.flac"), true, &overruns) {
        Ok(LoadOutcome::Loaded { project: loaded, audio_mismatches }) => {
            assert_eq!(loaded.layers.len(), 6);
            assert!(audio_mismatches.is_empty());
        }
        _ => panic!("a valid document loads"),
    }
}

#[test]
fn invalid_project_values_are_rejected() {
    let mut project = ProjectState::new();
    let layer_id = project.editing.selected_layer_id.unwrap();
    project.add_memo(layer_id, 1.0f64.to_bits(), 0.5f64.to_bits(), 200).unwrap();
    project.data.project_settings.preview_reference_a4_hz_bits = 999.0f32.to_bits();
    project.data.project_settings.equalizer_gains_db_bits[2] = 13.0f32.to_bits();
    project.data.layers[1].name = "   ".to_owned();
    let mut overruns = vec![Vec::new(); project.data.layers.len()];
    overruns[0] = vec![true];
    let mut audio = identity("song.flac");
    audio.sample_rate_hz = 0;
    match prepare_sidecar_document(audio, &project.data, &overruns) {
        Err(SidecarError::InvalidValues(errors)) => assert_eq!(
            errors,
            vec![
                "audio.sample_rate_hzは1以上にしてください".to_owned(),
                "project_settings.preview_reference_a4_hzは430〜450の有限値にしてください".to_owned(),
                "project_settings.equalizer_gains_db[2]は-12〜12の有限値にしてください".to_owned(),
                "layers[0].memos[0].pitch_midiは0〜127にしてください".to_owned(),
                "layers[0].memos[0]が音源の長さを超えています".to_owned(),
                "layers[1].nameが空です".to_owned(),
            ]
        ),
        _ => panic!("invalid values are rejected"),
    }
}

#[test]
fn unsupported_format_version_is_rejected() {
    let project = ProjectState::new();
    let overruns = vec![Vec::new(); 6];
    let mut document = prepare_sidecar_document(identity("song.flac"), &project.data, &overruns).unwrap();
    document.format_version = 99;
    assert!(matches!(
        accept_sidecar_document(document, &identity("song.flac"), true, &overruns),
        Err(SidecarError::UnsupportedFormatVersion(99))
    ));
    assert_eq!(check_sidecar_version(1), Ok(()));
    assert_eq!(check_sidecar_version(2), Err(2));
}

#[test]
fn repeated_and_zero_identifiers_are_reported() {
    let mut project = ProjectState::new();
    project.data.layers[1].id = LayerId::from_stored(1);
    project.data.layers[2].id = LayerId::from_stored(0);
    let memo = PitchMemo {
        id: MemoId::from_stored(4),
        start_sec_bits: 0.0f64.to_bits(),
        duration_sec_bits: 0.5f64.to_bits(),
        pitch_midi: 60,
    };
    project.data.layers[0].memos.push(memo);
    project.data.layers[3].memos.push(memo);
    project.data.layers[3].memos.push(PitchMemo { id: MemoId::from_stored(0), start_sec_bits: (-1.0f64).to_bits(), duration_sec_bits: 0, ..memo });
    let overruns: Vec<Vec<bool>> = Vec::new();
    let audio = AudioIdentity { file_name: " ".to_owned(), duration_seconds_bits: f64::INFINITY.to_bits(), ..identity("x") };
    let document = otomieru_boyer::sidecar::SidecarDocument {
        format_version: 1,
        audio,
        project_settings: project.data.project_settings,
        layers: project.data.layers,
    };
    assert_eq!(
        validate_document(&document, &overruns),
        Err(vec![
            "audio.file_nameが空です".to_owned(),
            "audio.duration_secondsは0より大きい有限値にしてください".to_owned(),
            "layers[1].idが重複しています".to_owned(),
            "layers[2].idは1以上にしてください".to_owned(),
            "layers[3].memos[0].idが重複しています".to_owned(),
            "layers[3].memos[1].idは1以上にしてください".to_owned(),
            "layers[3].memos[1].start_secは0以上の有限値にしてください".to_owned(),
            "layers[3].memos[1].duration_secは0より大きい有限値にしてください".to_owned(),
        ])
    );
    assert!(is_blank(" \t"));
    assert!(!is_blank(" a "));
    assert!(is_blank("   "));
    assert!(is_blank("\u{3000}\u{a0}\n"));
    assert!(is_blank(""));
    assert!(!is_blank("\u{200b}"));
}

#[test]
fn invalid_loop_sequencer_settings_fall_back_to_the_default_sequence() {
    for sequence in [vec![], vec![ComparisonPhase::Mix; 11]] {
        let mut settings = AppSettings { comparison_sequence: sequence, ..AppSettings::default() };
        assert!(finish_loaded_settings(&mut settings, false));
        assert_eq!(settings.comparison_sequence, default_comparison_sequence());
    }
}

#[test]
fn old_palette_settings_keep_their_visible_order_as_the_master_order() {
    let mut settings = AppSettings {
        tool_palette_items: vec![Timbre, Equalizer],
        tool_palette_order: vec![],
        ..AppSettings::default()
    };
    assert!(finish_loaded_settings(&mut settings, false));
    assert_eq!(settings.tool_palette_items, [Timbre, Equalizer]);
    assert_eq!(&settings.tool_palette_order[..2], &[Timbre, Equalizer]);
}

#[test]
fn settings_versions_are_checked_and_migrated() {
    assert_eq!(check_settings_version(0), Ok(true));
    assert_eq!(check_settings_version(FORMAT_VERSION), Ok(false));
    assert_eq!(check_settings_version(99).unwrap_err().format_version, 99);
    let mut settings = AppSettings { format_version: 0, ..AppSettings::default() };
    assert!(finish_loaded_settings(&mut settings, true));
    assert_eq!(settings.format_version, FORMAT_VERSION);
    let mut clean = AppSettings::default();
    assert!(!finish_loaded_settings(&mut clean, false));
}

#[test]
fn a_project_with_memos_survives_its_project_file() {
    let mut project = ProjectState::new();
    let layer = project.data.layers[1].id;
    let memo = project
        .add_memo(layer, 1.5f64.to_bits(), 0.25f64.to_bits(), 64)
        .expect("a memo is placed");
    let overruns = vec![Vec::new(); project.data.layers.len()];
    let document = prepare_sidecar_document(identity("take.wav"), &project.data, &overruns)
        .expect("a valid project is prepared");
    match accept_sidecar_document(document, &identity("take.wav"), true, &overruns) {
        Ok(LoadOutcome::Loaded { project: loaded, audio_mismatches }) => {
            assert!(audio_mismatches.is_empty());
            assert_eq!(loaded.layers.len(), project.data.layers.len());
            for (back, original) in loaded.layers.iter().zip(project.data.layers.iter()) {
                assert_eq!(back.id, original.id);
                assert_eq!(back.name, original.name);
                assert_eq!(back.memos, original.memos);
            }
            assert_eq!(loaded.layers[1].memos[0].id, memo);
            assert_eq!(loaded.project_settings, project.data.project_settings);
        }
        _ => panic!("the prepared document is accepted"),
    }
}
