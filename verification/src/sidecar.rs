use vstd::prelude::*;
use std::collections::HashSet;
use crate::audio_identity::AudioIdentity;
use crate::float_bits::{
    f32_bits_within,
    f64_bits_finite_non_negative,
    f64_bits_finite_positive,
    f32_within,
    f64_is_finite_non_negative,
    f64_is_finite_positive,
};
use crate::project::{
    LayerView,
    PitchMemo,
    PitchMemoLayer,
    ProjectData,
    ProjectDataView,
    ProjectSettings,
    layer_views,
    layer_id_values,
    memo_id_values,
};
use crate::text::{decimal, push_decimal};
use crate::paths::{path_file_name, path_with_file_name, file_name_of, with_file_name};
use crate::audio_identity::{
    AudioMismatch,
    audio_mismatches,
    lemma_identity_matches_itself,
    spec_audio_mismatches,
};

verus! {

broadcast use vstd::std_specs::hash::group_hash_axioms;

/// The version written in every project file.
pub const SIDECAR_FORMAT_VERSION: u32 = 1;

/// A project file: its version, the audio it belongs to, the project
/// settings and the memo layers.
#[derive(Debug)]
pub struct SidecarDocument {
    pub format_version: u32,
    pub audio: AudioIdentity,
    pub project_settings: ProjectSettings,
    pub layers: Vec<PitchMemoLayer>,
}

/// Whether a character is white space in the sense of Unicode's
/// `White_Space` property, as `char::is_whitespace` decides it: the 25 code
/// points U+0009 to U+000D, U+0020, U+0085, U+00A0, U+1680, U+2000 to
/// U+200A, U+2028, U+2029, U+202F, U+205F and U+3000.
pub open spec fn is_white_space(c: char) -> bool {
    let n = c as u32;
    ||| 0x9 <= n <= 0xd
    ||| n == 0x20
    ||| n == 0x85
    ||| n == 0xa0
    ||| n == 0x1680
    ||| 0x2000 <= n <= 0x200a
    ||| n == 0x2028
    ||| n == 0x2029
    ||| n == 0x202f
    ||| n == 0x205f
    ||| n == 0x3000
}

/// The text without its leading white space.
pub open spec fn trimmed_start(text: Seq<char>) -> Seq<char>
    decreases text.len(),
{
    if text.len() > 0 && is_white_space(text[0]) {
        trimmed_start(text.drop_first())
    } else {
        text
    }
}

/// The text without its trailing white space.
pub open spec fn trimmed_end(text: Seq<char>) -> Seq<char>
    decreases text.len(),
{
    if text.len() > 0 && is_white_space(text.last()) {
        trimmed_end(text.drop_last())
    } else {
        text
    }
}

/// The text with its leading and trailing white space removed.
pub open spec fn trimmed_text(text: Seq<char>) -> Seq<char> {
    trimmed_end(trimmed_start(text))
}

/// Whether every character of a text is white space.
pub open spec fn all_white_space(text: Seq<char>) -> bool {
    forall|i: int| 0 <= i < text.len() ==> #[trigger] is_white_space(text[i])
}

/// Calls `str::trim`, which removes the leading and trailing characters for
/// which `char::is_whitespace` holds. Claimed: the result is `trimmed_text`
/// of the text.
#[verifier::external_body]
fn trim(text: &str) -> (trimmed: &str)
    ensures
        trimmed@ == trimmed_text(text@),
{
    text.trim()
}

proof fn lemma_trimmed_start_white(text: Seq<char>)
    ensures
        all_white_space(trimmed_start(text)) <==> all_white_space(text),
    decreases text.len(),
{
    if text.len() > 0 && is_white_space(text[0]) {
        let rest = text.drop_first();
        lemma_trimmed_start_white(rest);
        if all_white_space(rest) {
            assert forall|i: int| 0 <= i < text.len() implies #[trigger] is_white_space(text[i]) by {
                if i > 0 {
                    assert(text[i] == rest[i - 1]);
                }
            }
        }
        if all_white_space(text) {
            assert forall|i: int| 0 <= i < rest.len() implies #[trigger] is_white_space(rest[i]) by {
                assert(rest[i] == text[i + 1]);
            }
        }
    }
}

proof fn lemma_trimmed_end_empty(text: Seq<char>)
    ensures
        (trimmed_end(text).len() == 0) <==> all_white_space(text),
    decreases text.len(),
{
    if text.len() > 0 && is_white_space(text.last()) {
        let rest = text.drop_last();
        lemma_trimmed_end_empty(rest);
        if all_white_space(rest) {
            assert forall|i: int| 0 <= i < text.len() implies #[trigger] is_white_space(text[i]) by {
                if i < rest.len() {
                    assert(text[i] == rest[i]);
                }
            }
        }
        if all_white_space(text) {
            assert forall|i: int| 0 <= i < rest.len() implies #[trigger] is_white_space(rest[i]) by {
                assert(rest[i] == text[i]);
            }
        }
    } else if text.len() > 0 {
        assert(!is_white_space(text[text.len() - 1]));
    }
}

/// A text is empty once trimmed exactly when all of it is white space.
pub proof fn lemma_trimmed_empty_iff_white(text: Seq<char>)
    ensures
        (trimmed_text(text).len() == 0) <==> all_white_space(text),
{
    lemma_trimmed_end_empty(trimmed_start(text));
    lemma_trimmed_start_white(text);
}

/// Whether a text is empty once trimmed, that is, all white space.
pub fn is_blank(text: &str) -> (blank: bool)
    ensures
        blank == (trimmed_text(text@).len() == 0),
        blank == all_white_space(text@),
{
    proof {
        lemma_trimmed_empty_iff_white(text@);
    }
    trim(text).is_empty()
}

/// Accepts only the format version this library writes; any other comes
/// back as the error.
pub fn check_sidecar_version(format_version: u32) -> (checked: Result<(), u32>)
    ensures
        match checked {
            Ok(()) => format_version == SIDECAR_FORMAT_VERSION,
            Err(version) => format_version != SIDECAR_FORMAT_VERSION && version == format_version,
        },
{
    if format_version == SIDECAR_FORMAT_VERSION {
        Ok(())
    } else {
        Err(format_version)
    }
}

/// One message when the condition holds, none otherwise.
pub open spec fn check(condition: bool, message: Seq<char>) -> Seq<Seq<char>> {
    if condition {
        seq![message]
    } else {
        Seq::empty()
    }
}

/// The problems of the audio identity: a blank file name, a duration that
/// is not finite and above zero, a zero sample rate.
pub open spec fn audio_errors(audio: AudioIdentity) -> Seq<Seq<char>> {
    check(trimmed_text(audio.file_name@).len() == 0, "audio.file_nameが空です"@) + check(
        !f64_bits_finite_positive(audio.duration_seconds_bits),
        "audio.duration_secondsは0より大きい有限値にしてください"@,
    ) + check(audio.sample_rate_hz == 0, "audio.sample_rate_hzは1以上にしてください"@)
}

/// The problems of the first `count` equaliser gains: each must be finite
/// within -12 to 12 dB.
pub open spec fn gain_errors(gains: Seq<u32>, count: nat) -> Seq<Seq<char>>
    decreases count,
{
    if count == 0 {
        Seq::empty()
    } else {
        gain_errors(gains, (count - 1) as nat) + check(
            !f32_bits_within(gains[count - 1], 0xc140_0000u32, 0x4140_0000u32),
            "project_settings.equalizer_gains_db["@ + decimal((count - 1) as nat)
                + "]は-12〜12の有限値にしてください"@,
        )
    }
}

/// The problems of the project settings, in order: the A4 reference (430 to
/// 450 Hz), each equaliser gain, the emphasis (0 to 100), the scale root (0
/// to 11) and the attenuation (0 to 100).
pub open spec fn settings_errors(settings: ProjectSettings) -> Seq<Seq<char>> {
    let analysis = settings.fundamental_analysis;
    check(
        !f32_bits_within(settings.preview_reference_a4_hz_bits, 0x43d7_0000u32, 0x43e1_0000u32),
        "project_settings.preview_reference_a4_hzは430〜450の有限値にしてください"@,
    ) + gain_errors(settings.equalizer_gains_db_bits@, 5) + check(
        !f32_bits_within(analysis.emphasis_bits, 0, 0x42c8_0000u32),
        "project_settings.fundamental_analysis.emphasisは0〜100の有限値にしてください"@,
    ) + check(
        analysis.scale_root >= 12,
        "project_settings.fundamental_analysis.scale_rootは0〜11にしてください"@,
    ) + check(
        !f32_bits_within(analysis.unemphasized_pitch_attenuation_bits, 0, 0x42c8_0000u32),
        "project_settings.fundamental_analysis.unemphasized_pitch_attenuationは0〜100の有限値にしてください"@,
    )
}

/// "layers[i]", the name of a layer in messages.
pub open spec fn layer_path(li: int) -> Seq<char> {
    "layers["@ + decimal(li as nat) + "]"@
}

/// "layers[i].memos[j]", the name of a memo in messages.
pub open spec fn memo_path(li: int, mi: int) -> Seq<char> {
    layer_path(li) + ".memos["@ + decimal(mi as nat) + "]"@
}

/// The memo identifiers that come before memo `mi` of layer `li`, layer by
/// layer.
pub open spec fn earlier_memo_ids(layers: Seq<LayerView>, li: int, mi: int) -> Seq<u64> {
    memo_id_values(layers.take(li)) + layers[li].memos.take(mi).map_values(
        |memo: PitchMemo| memo.id.spec_get(),
    )
}

/// Whether memo `mi` of layer `li` is found, by the caller's floating-point
/// arithmetic, to end after the audio.
pub open spec fn overruns_at(overruns: Seq<Vec<bool>>, li: int, mi: int) -> bool {
    0 <= li < overruns.len() && 0 <= mi < overruns[li]@.len() && overruns[li]@[mi]
}

/// The problems of one memo, in order: a zero or repeated identifier, a
/// start that is not finite and not below zero, a duration that is not
/// finite and above zero, a pitch outside 0 to 127, an end after the audio.
pub open spec fn memo_errors(layers: Seq<LayerView>, overruns: Seq<Vec<bool>>, li: int, mi: int) -> Seq<
    Seq<char>,
> {
    let memo = layers[li].memos[mi];
    let id = memo.id.spec_get();
    let path = memo_path(li, mi);
    (if id == 0 {
        seq![path + ".idは1以上にしてください"@]
    } else if earlier_memo_ids(layers, li, mi).contains(id) {
        seq![path + ".idが重複しています"@]
    } else {
        Seq::empty()
    }) + check(
        !f64_bits_finite_non_negative(memo.start_sec_bits),
        path + ".start_secは0以上の有限値にしてください"@,
    ) + check(
        !f64_bits_finite_positive(memo.duration_sec_bits),
        path + ".duration_secは0より大きい有限値にしてください"@,
    ) + check(memo.pitch_midi < 0 || memo.pitch_midi > 127, path + ".pitch_midiは0〜127にしてください"@)
        + check(overruns_at(overruns, li, mi), path + "が音源の長さを超えています"@)
}

/// The problems of the first `count` memos of layer `li`.
pub open spec fn memos_errors(
    layers: Seq<LayerView>,
    overruns: Seq<Vec<bool>>,
    li: int,
    count: nat,
) -> Seq<Seq<char>>
    decreases count,
{
    if count == 0 {
        Seq::empty()
    } else {
        memos_errors(layers, overruns, li, (count - 1) as nat) + memo_errors(
            layers,
            overruns,
            li,
            count - 1,
        )
    }
}

/// The problems of one layer, in order: a zero or repeated identifier, a
/// blank name, then those of its memos.
pub open spec fn layer_errors(layers: Seq<LayerView>, overruns: Seq<Vec<bool>>, li: int) -> Seq<
    Seq<char>,
> {
    let layer = layers[li];
    let id = layer.id.spec_get();
    (if id == 0 {
        seq![layer_path(li) + ".idは1以上にしてください"@]
    } else if layer_id_values(layers.take(li)).contains(id) {
        seq![layer_path(li) + ".idが重複しています"@]
    } else {
        Seq::empty()
    }) + check(trimmed_text(layer.name).len() == 0, layer_path(li) + ".nameが空です"@)
        + memos_errors(layers, overruns, li, layer.memos.len())
}

/// The problems of the first `count` layers.
pub open spec fn layers_errors(layers: Seq<LayerView>, overruns: Seq<Vec<bool>>, count: nat) -> Seq<
    Seq<char>,
>
    decreases count,
{
    if count == 0 {
        Seq::empty()
    } else {
        layers_errors(layers, overruns, (count - 1) as nat) + layer_errors(
            layers,
            overruns,
            count - 1,
        )
    }
}

/// Every problem of a project file, in the order the checks are made.
pub open spec fn document_errors(
    audio: AudioIdentity,
    data: ProjectDataView,
    overruns: Seq<Vec<bool>>,
) -> Seq<Seq<char>> {
    audio_errors(audio) + settings_errors(data.project_settings) + check(
        data.layers.len() == 0,
        "layersには1件以上のレイヤーが必要です"@,
    ) + layers_errors(data.layers, overruns, data.layers.len())
}

/// The texts of a list of messages.
pub open spec fn texts(messages: Seq<String>) -> Seq<Seq<char>> {
    messages.map_values(|message: String| message@)
}

/// The project data a project file holds, as a value.
pub open spec fn document_data(document: &SidecarDocument) -> ProjectDataView {
    ProjectDataView {
        project_settings: document.project_settings,
        layers: layer_views(document.layers@),
    }
}

fn push_if(errors: &mut Vec<String>, condition: bool, message: String)
    ensures
        texts(final(errors)@) == texts(old(errors)@) + check(condition, message@),
{
    if condition {
        errors.push(message);
        assert(texts(errors@) =~= texts(old(errors)@) + check(condition, message@));
    } else {
        assert(texts(errors@) =~= texts(old(errors)@) + check(condition, message@));
    }
}

fn layer_path_text(li: usize) -> (path: String)
    ensures
        path@ == layer_path(li as int),
{
    let mut path = String::from_str("layers[");
    push_decimal(&mut path, li as u128);
    path.append("]");
    path
}

fn memo_path_text(li: usize, mi: usize) -> (path: String)
    ensures
        path@ == memo_path(li as int, mi as int),
{
    let mut path = layer_path_text(li);
    path.append(".memos[");
    push_decimal(&mut path, mi as u128);
    path.append("]");
    path
}

fn with_suffix(mut text: String, suffix: &str) -> (joined: String)
    ensures
        joined@ == text@ + suffix@,
{
    text.append(suffix);
    text
}

/// The identifiers other than zero among `ids`: those a duplicate check
/// has seen.
spec fn nonzero_ids(ids: Seq<u64>) -> Set<u64> {
    Set::new(|x: u64| x != 0 && ids.contains(x))
}

proof fn lemma_nonzero_ids_push(ids: Seq<u64>, id: u64)
    ensures
        nonzero_ids(ids.push(id)) == if id == 0 {
            nonzero_ids(ids)
        } else {
            nonzero_ids(ids).insert(id)
        },
{
    let pushed = ids.push(id);
    assert forall|x: u64| pushed.contains(x) <==> (ids.contains(x) || x == id) by {
        if ids.contains(x) {
            let k = choose|k: int| 0 <= k < ids.len() && ids[k] == x;
            assert(pushed[k] == x);
        }
        if x == id {
            assert(pushed[ids.len() as int] == id);
        }
        if pushed.contains(x) {
            let k = choose|k: int| 0 <= k < pushed.len() && pushed[k] == x;
            if k < ids.len() {
                assert(ids[k] == x);
            }
        }
    }
    if id == 0 {
        assert(nonzero_ids(pushed) =~= nonzero_ids(ids));
    } else {
        assert(nonzero_ids(pushed) =~= nonzero_ids(ids).insert(id));
    }
}

fn push_audio_errors(errors: &mut Vec<String>, audio: &AudioIdentity)
    ensures
        texts(final(errors)@) == texts(old(errors)@) + audio_errors(*audio),
{
    push_if(
        errors,
        is_blank(audio.file_name.as_str()),
        String::from_str("audio.file_nameが空です"),
    );
    push_if(
        errors,
        !f64_is_finite_positive(audio.duration_seconds_bits),
        String::from_str("audio.duration_secondsは0より大きい有限値にしてください"),
    );
    push_if(
        errors,
        audio.sample_rate_hz == 0,
        String::from_str("audio.sample_rate_hzは1以上にしてください"),
    );
    assert(texts(errors@) =~= texts(old(errors)@) + audio_errors(*audio));
}

fn push_settings_errors(errors: &mut Vec<String>, settings: &ProjectSettings)
    ensures
        texts(final(errors)@) == texts(old(errors)@) + settings_errors(*settings),
{
    let ghost start = texts(errors@);
    push_if(
        errors,
        !f32_within(settings.preview_reference_a4_hz_bits, 0x43d7_0000u32, 0x43e1_0000u32),
        String::from_str("project_settings.preview_reference_a4_hzは430〜450の有限値にしてください"),
    );
    let ghost after_a4 = texts(errors@);
    let mut i: usize = 0;
    while i < 5
        invariant
            i <= 5,
            texts(errors@) == after_a4 + gain_errors(settings.equalizer_gains_db_bits@, i as nat),
        decreases 5 - i,
    {
        let mut message = String::from_str("project_settings.equalizer_gains_db[");
        push_decimal(&mut message, i as u128);
        message.append("]は-12〜12の有限値にしてください");
        push_if(
            errors,
            !f32_within(settings.equalizer_gains_db_bits[i], 0xc140_0000u32, 0x4140_0000u32),
            message,
        );
        assert(texts(errors@) =~= after_a4 + gain_errors(
            settings.equalizer_gains_db_bits@,
            (i + 1) as nat,
        ));
        i = i + 1;
    }
    let analysis = &settings.fundamental_analysis;
    push_if(
        errors,
        !f32_within(analysis.emphasis_bits, 0, 0x42c8_0000u32),
        String::from_str("project_settings.fundamental_analysis.emphasisは0〜100の有限値にしてください"),
    );
    push_if(
        errors,
        analysis.scale_root >= 12,
        String::from_str("project_settings.fundamental_analysis.scale_rootは0〜11にしてください"),
    );
    push_if(
        errors,
        !f32_within(analysis.unemphasized_pitch_attenuation_bits, 0, 0x42c8_0000u32),
        String::from_str(
            "project_settings.fundamental_analysis.unemphasized_pitch_attenuationは0〜100の有限値にしてください",
        ),
    );
    assert(texts(errors@) =~= start + settings_errors(*settings));
}

#[verifier::rlimit(40)]
fn push_memo_errors(
    errors: &mut Vec<String>,
    layers: &Vec<PitchMemoLayer>,
    overruns: &Vec<Vec<bool>>,
    li: usize,
    seen_memo_ids: &mut HashSet<u64>,
)
    requires
        li < layers@.len(),
        old(seen_memo_ids)@ == nonzero_ids(memo_id_values(layer_views(layers@).take(li as int))),
    ensures
        texts(final(errors)@) == texts(old(errors)@) + memos_errors(
            layer_views(layers@),
            overruns@,
            li as int,
            layers@[li as int].memos@.len(),
        ),
        final(seen_memo_ids)@ == nonzero_ids(memo_id_values(layer_views(layers@).take(li + 1))),
{
    let ghost views = layer_views(layers@);
    let ghost start = texts(errors@);
    let memos = &layers[li].memos;
    assert(views[li as int].memos == memos@);
    let mut mi: usize = 0;
    while mi < memos.len()
        invariant
            views == layer_views(layers@),
            li < layers@.len(),
            views[li as int].memos == memos@,
            mi <= memos@.len(),
            seen_memo_ids@ == nonzero_ids(earlier_memo_ids(views, li as int, mi as int)),
            texts(errors@) == start + memos_errors(views, overruns@, li as int, mi as nat),
        decreases memos@.len() - mi,
    {
        let memo = memos[mi];
        let ghost before = texts(errors@);
        let path = memo_path_text(li, mi);
        let id = memo.id.get();
        if id == 0 {
            errors.push(with_suffix(memo_path_text(li, mi), ".idは1以上にしてください"));
        } else if !seen_memo_ids.insert(id) {
            errors.push(with_suffix(memo_path_text(li, mi), ".idが重複しています"));
        }
        let ghost after_id = texts(errors@);
        push_if(
            errors,
            !f64_is_finite_non_negative(memo.start_sec_bits),
            with_suffix(memo_path_text(li, mi), ".start_secは0以上の有限値にしてください"),
        );
        push_if(
            errors,
            !f64_is_finite_positive(memo.duration_sec_bits),
            with_suffix(memo_path_text(li, mi), ".duration_secは0より大きい有限値にしてください"),
        );
        push_if(
            errors,
            memo.pitch_midi < 0 || memo.pitch_midi > 127,
            with_suffix(memo_path_text(li, mi), ".pitch_midiは0〜127にしてください"),
        );
        let overruns_here = li < overruns.len() && mi < overruns[li].len() && overruns[li][mi];
        push_if(errors, overruns_here, with_suffix(path, "が音源の長さを超えています"));
        proof {
            assert(views[li as int].memos[mi as int] == memo);
            let id_part = if id == 0 {
                seq![memo_path(li as int, mi as int) + ".idは1以上にしてください"@]
            } else if earlier_memo_ids(views, li as int, mi as int).contains(id) {
                seq![memo_path(li as int, mi as int) + ".idが重複しています"@]
            } else {
                Seq::empty()
            };
            assert(after_id =~= before + id_part);
            assert(texts(errors@) =~= start + memos_errors(views, overruns@, li as int, (mi + 1) as nat));
            assert(earlier_memo_ids(views, li as int, mi + 1) =~= earlier_memo_ids(
                views,
                li as int,
                mi as int,
            ).push(id));
            lemma_nonzero_ids_push(earlier_memo_ids(views, li as int, mi as int), id);
        }
        mi = mi + 1;
    }
    proof {
        assert(views.take(li + 1).drop_last() =~= views.take(li as int));
        assert(views[li as int].memos.take(mi as int) =~= views[li as int].memos);
        assert(earlier_memo_ids(views, li as int, mi as int) =~= memo_id_values(views.take(li + 1)));
    }
}

fn push_layers_errors(errors: &mut Vec<String>, layers: &Vec<PitchMemoLayer>, overruns: &Vec<Vec<bool>>)
    ensures
        texts(final(errors)@) == texts(old(errors)@) + layers_errors(
            layer_views(layers@),
            overruns@,
            layers@.len(),
        ),
{
    let ghost views = layer_views(layers@);
    let ghost start = texts(errors@);
    let mut seen_layer_ids: HashSet<u64> = HashSet::new();
    let mut seen_memo_ids: HashSet<u64> = HashSet::new();
    assert(views.take(0) =~= Seq::<LayerView>::empty());
    assert(nonzero_ids(layer_id_values(views.take(0))) =~= Set::<u64>::empty());
    assert(nonzero_ids(memo_id_values(views.take(0))) =~= Set::<u64>::empty());
    let mut li: usize = 0;
    while li < layers.len()
        invariant
            views == layer_views(layers@),
            li <= layers@.len(),
            seen_layer_ids@ == nonzero_ids(layer_id_values(views.take(li as int))),
            seen_memo_ids@ == nonzero_ids(memo_id_values(views.take(li as int))),
            texts(errors@) == start + layers_errors(views, overruns@, li as nat),
        decreases layers@.len() - li,
    {
        let layer = &layers[li];
        assert(views[li as int] == layer@);
        let ghost before = texts(errors@);
        let id = layer.id.get();
        if id == 0 {
            errors.push(with_suffix(layer_path_text(li), ".idは1以上にしてください"));
        } else if !seen_layer_ids.insert(id) {
            errors.push(with_suffix(layer_path_text(li), ".idが重複しています"));
        }
        let ghost after_id = texts(errors@);
        push_if(
            errors,
            is_blank(layer.name.as_str()),
            with_suffix(layer_path_text(li), ".nameが空です"),
        );
        let ghost after_name = texts(errors@);
        push_memo_errors(errors, layers, overruns, li, &mut seen_memo_ids);
        proof {
            let id_part = if id == 0 {
                seq![layer_path(li as int) + ".idは1以上にしてください"@]
            } else if layer_id_values(views.take(li as int)).contains(id) {
                seq![layer_path(li as int) + ".idが重複しています"@]
            } else {
                Seq::empty()
            };
            assert(after_id =~= before + id_part);
            assert(texts(errors@) =~= start + layers_errors(views, overruns@, (li + 1) as nat));
            assert(layer_id_values(views.take(li + 1)) =~= layer_id_values(views.take(li as int)).push(id));
            lemma_nonzero_ids_push(layer_id_values(views.take(li as int)), id);
        }
        li = li + 1;
    }
}

/// Checks a project file before it is loaded or written. Every problem is
/// reported, as a message naming the value, in the order of the checks;
/// `overruns` says, layer by layer and memo by memo, whether a memo ends
/// after the audio (which takes floating-point arithmetic).
pub fn validate_document(document: &SidecarDocument, overruns: &Vec<Vec<bool>>) -> (checked: Result<
    (),
    Vec<String>,
>)
    ensures
        match checked {
            Ok(()) => document_errors(document.audio, document_data(document), overruns@).len()
                == 0,
            Err(errors) => texts(errors@) == document_errors(
                document.audio,
                document_data(document),
                overruns@,
            ) && errors@.len() > 0,
        },
{
    let mut errors: Vec<String> = Vec::new();
    push_audio_errors(&mut errors, &document.audio);
    push_settings_errors(&mut errors, &document.project_settings);
    push_if(
        &mut errors,
        document.layers.len() == 0,
        String::from_str("layersには1件以上のレイヤーが必要です"),
    );
    push_layers_errors(&mut errors, &document.layers, overruns);
    assert(texts(errors@) =~= document_errors(document.audio, document_data(document), overruns@));
    if errors.len() == 0 {
        Ok(())
    } else {
        Err(errors)
    }
}

/// The project data of a project file.
pub fn document_project_data(document: SidecarDocument) -> (data: ProjectData)
    ensures
        data@ == document_data(&document),
{
    ProjectData { project_settings: document.project_settings, layers: document.layers }
}

#[verifier::external_type_specification]
#[verifier::external_body]
pub struct ExJsonError(serde_json::Error);

/// Why a project file could not be read or written.
#[derive(Debug)]
pub enum SidecarError {
    Io(std::io::Error),
    Json(serde_json::Error),
    UnsupportedFormatVersion(u32),
    InvalidValues(Vec<String>),
    InvalidAudioPath(String),
    ModifiedBeforeUnixEpoch(String),
    ModifiedTimeOutOfRange(String),
}

/// What loading a project file found.
#[derive(Debug)]
pub enum LoadOutcome {
    NotFound,
    Loaded { project: ProjectData, audio_mismatches: Vec<AudioMismatch> },
}

/// The name of the project file that belongs to an audio file: its whole
/// name, extension included, followed by ".otomieru.json".
pub fn sidecar_file_name(audio_file_name: &str) -> (name: String)
    ensures
        name@ == audio_file_name@ + ".otomieru.json"@,
{
    let mut name = String::from_str(audio_file_name);
    name.append(".otomieru.json");
    name
}

/// The project file beside an audio file: the audio file's name followed by
/// ".otomieru.json", in the same directory. Fails when the path names no file.
pub fn sidecar_path(audio_path: &str) -> (path: Result<String, SidecarError>)
    ensures
        match path {
            Ok(path) => path_file_name(audio_path@) is Some && path@ == path_with_file_name(
                audio_path@,
                path_file_name(audio_path@)->0 + ".otomieru.json"@,
            ),
            Err(error) => path_file_name(audio_path@) is None && (error matches SidecarError::InvalidAudioPath(p) && p@ == audio_path@),
        },
{
    match file_name_of(audio_path) {
        Some(file_name) => {
            let name = sidecar_file_name(file_name.as_str());
            Ok(with_file_name(audio_path, name.as_str()))
        },
        None => Err(SidecarError::InvalidAudioPath(String::from_str(audio_path))),
    }
}

/// The file a project is written to before it replaces the project file:
/// the project file's name followed by ".tmp".
pub fn temporary_sidecar_path(path: &str) -> (temporary: Result<String, SidecarError>)
    ensures
        match temporary {
            Ok(temporary) => path_file_name(path@) is Some && temporary@ == path_with_file_name(
                path@,
                path_file_name(path@)->0 + ".tmp"@,
            ),
            Err(error) => path_file_name(path@) is None && (error matches SidecarError::InvalidAudioPath(p) && p@ == path@),
        },
{
    match file_name_of(path) {
        Some(file_name) => {
            let mut name = String::from_str(file_name.as_str());
            name.append(".tmp");
            Ok(with_file_name(path, name.as_str()))
        },
        None => Err(SidecarError::InvalidAudioPath(String::from_str(path))),
    }
}

/// What accepting a parsed project file gives: refused with the error of
/// the first check that fails (an unsupported version, then invalid values);
/// otherwise its project, with the ways in which the current audio differs
/// from the saved one.
pub open spec fn accepted_document(
    document: &SidecarDocument,
    current_audio: AudioIdentity,
    durations_agree: bool,
    overruns: Seq<Vec<bool>>,
    accepted: &Result<LoadOutcome, SidecarError>,
) -> bool {
    match accepted {
        Ok(LoadOutcome::Loaded { project, audio_mismatches }) => document.format_version
            == SIDECAR_FORMAT_VERSION && document_errors(
            document.audio,
            document_data(document),
            overruns,
        ).len() == 0 && project@ == document_data(document) && audio_mismatches@
            == spec_audio_mismatches(document.audio, current_audio, durations_agree),
        Ok(LoadOutcome::NotFound) => false,
        Err(SidecarError::UnsupportedFormatVersion(version)) => document.format_version
            != SIDECAR_FORMAT_VERSION && version == document.format_version,
        Err(SidecarError::InvalidValues(errors)) => document.format_version
            == SIDECAR_FORMAT_VERSION && texts(errors@) == document_errors(
            document.audio,
            document_data(document),
            overruns,
        ) && errors@.len() > 0,
        Err(_) => false,
    }
}

/// What preparing the project file of a project gives: the file, when the
/// project's values are valid; else every problem found.
pub open spec fn prepared_document(
    audio: AudioIdentity,
    project: ProjectDataView,
    overruns: Seq<Vec<bool>>,
    prepared: &Result<SidecarDocument, SidecarError>,
) -> bool {
    match prepared {
        Ok(document) => document.format_version == SIDECAR_FORMAT_VERSION && document.audio
            == audio && document_data(&document) == project && document_errors(
            audio,
            project,
            overruns,
        ).len() == 0,
        Err(SidecarError::InvalidValues(errors)) => texts(errors@) == document_errors(
            audio,
            project,
            overruns,
        ) && errors@.len() > 0,
        Err(_) => false,
    }
}

/// A valid project survives its project file: the file prepared for it,
/// once accepted for the same audio, gives the project back with no
/// difference in the audio.
pub proof fn lemma_prepared_document_is_accepted(
    audio: AudioIdentity,
    project: ProjectDataView,
    overruns: Seq<Vec<bool>>,
    prepared: Result<SidecarDocument, SidecarError>,
    accepted: Result<LoadOutcome, SidecarError>,
)
    requires
        document_errors(audio, project, overruns).len() == 0,
        prepared_document(audio, project, overruns, &prepared),
        prepared matches Ok(document) ==> accepted_document(
            &document,
            audio,
            true,
            overruns,
            &accepted,
        ),
    ensures
        prepared is Ok,
        accepted matches Ok(LoadOutcome::Loaded { project: loaded, audio_mismatches })
            && loaded@ == project && audio_mismatches@.len() == 0,
{
    lemma_identity_matches_itself(audio);
}

proof fn lemma_contains_after(front: Seq<Seq<char>>, back: Seq<Seq<char>>, message: Seq<char>)
    requires
        back.contains(message),
    ensures
        (front + back).contains(message),
        (back + front).contains(message),
{
    let k = choose|k: int| 0 <= k < back.len() && back[k] == message;
    assert((front + back)[front.len() + k] == message);
    assert((back + front)[k] == message);
}

/// A project file whose scale root is not a pitch class (0 to 11) is never
/// accepted: its problems include the scale-root message, so validation
/// fails and accepting it gives an error.
pub proof fn lemma_scale_root_out_of_range_is_refused(
    document: SidecarDocument,
    current_audio: AudioIdentity,
    durations_agree: bool,
    overruns: Seq<Vec<bool>>,
    accepted: Result<LoadOutcome, SidecarError>,
)
    requires
        document.project_settings.fundamental_analysis.scale_root >= 12,
        accepted_document(&document, current_audio, durations_agree, overruns, &accepted),
    ensures
        document_errors(document.audio, document_data(&document), overruns).contains(
            "project_settings.fundamental_analysis.scale_rootは0〜11にしてください"@,
        ),
        accepted is Err,
{
    let message = "project_settings.fundamental_analysis.scale_rootは0〜11にしてください"@;
    let settings = document.project_settings;
    let analysis = settings.fundamental_analysis;
    let first = check(
        !f32_bits_within(settings.preview_reference_a4_hz_bits, 0x43d7_0000u32, 0x43e1_0000u32),
        "project_settings.preview_reference_a4_hzは430〜450の有限値にしてください"@,
    ) + gain_errors(settings.equalizer_gains_db_bits@, 5) + check(
        !f32_bits_within(analysis.emphasis_bits, 0, 0x42c8_0000u32),
        "project_settings.fundamental_analysis.emphasisは0〜100の有限値にしてください"@,
    );
    let root = check(analysis.scale_root >= 12, message);
    let last = check(
        !f32_bits_within(analysis.unemphasized_pitch_attenuation_bits, 0, 0x42c8_0000u32),
        "project_settings.fundamental_analysis.unemphasized_pitch_attenuationは0〜100の有限値にしてください"@,
    );
    assert(root[0] == message);
    lemma_contains_after(first, root, message);
    lemma_contains_after(last, first + root, message);
    assert(settings_errors(settings) == first + root + last);
    let data = document_data(&document);
    let before = audio_errors(document.audio);
    let after = check(data.layers.len() == 0, "layersには1件以上のレイヤーが必要です"@)
        + layers_errors(data.layers, overruns, data.layers.len());
    lemma_contains_after(before, settings_errors(settings), message);
    lemma_contains_after(after, before + settings_errors(settings), message);
    assert(document_errors(document.audio, data, overruns) == before + settings_errors(settings)
        + after);
}

/// Every out-of-range project setting is reported with its own message: a
/// reference pitch outside 430 to 450 Hz, an emphasis or an attenuation
/// outside 0 to 100, a scale root above 11; and a project file without
/// layers is reported too.
pub proof fn lemma_settings_problems_are_reported(
    audio: AudioIdentity,
    data: ProjectDataView,
    overruns: Seq<Vec<bool>>,
)
    ensures
        ({
            let errors = document_errors(audio, data, overruns);
            let settings = data.project_settings;
            let analysis = settings.fundamental_analysis;
            &&& !f32_bits_within(settings.preview_reference_a4_hz_bits, 0x43d7_0000u32, 0x43e1_0000u32)
                ==> errors.contains(
                "project_settings.preview_reference_a4_hzは430〜450の有限値にしてください"@,
            )
            &&& !f32_bits_within(analysis.emphasis_bits, 0, 0x42c8_0000u32) ==> errors.contains(
                "project_settings.fundamental_analysis.emphasisは0〜100の有限値にしてください"@,
            )
            &&& analysis.scale_root >= 12 ==> errors.contains(
                "project_settings.fundamental_analysis.scale_rootは0〜11にしてください"@,
            )
            &&& !f32_bits_within(analysis.unemphasized_pitch_attenuation_bits, 0, 0x42c8_0000u32)
                ==> errors.contains(
                "project_settings.fundamental_analysis.unemphasized_pitch_attenuationは0〜100の有限値にしてください"@,
            )
            &&& data.layers.len() == 0 ==> errors.contains("layersには1件以上のレイヤーが必要です"@)
        }),
{
    let settings = data.project_settings;
    let analysis = settings.fundamental_analysis;
    let a4 = check(
        !f32_bits_within(settings.preview_reference_a4_hz_bits, 0x43d7_0000u32, 0x43e1_0000u32),
        "project_settings.preview_reference_a4_hzは430〜450の有限値にしてください"@,
    );
    let gains = gain_errors(settings.equalizer_gains_db_bits@, 5);
    let emphasis = check(
        !f32_bits_within(analysis.emphasis_bits, 0, 0x42c8_0000u32),
        "project_settings.fundamental_analysis.emphasisは0〜100の有限値にしてください"@,
    );
    let root = check(
        analysis.scale_root >= 12,
        "project_settings.fundamental_analysis.scale_rootは0〜11にしてください"@,
    );
    let attenuation = check(
        !f32_bits_within(analysis.unemphasized_pitch_attenuation_bits, 0, 0x42c8_0000u32),
        "project_settings.fundamental_analysis.unemphasized_pitch_attenuationは0〜100の有限値にしてください"@,
    );
    let before = audio_errors(audio);
    let no_layers = check(data.layers.len() == 0, "layersには1件以上のレイヤーが必要です"@);
    let layers = layers_errors(data.layers, overruns, data.layers.len());
    assert(settings_errors(settings) == a4 + gains + emphasis + root + attenuation);
    assert(document_errors(audio, data, overruns) == before + (a4 + gains + emphasis + root
        + attenuation) + no_layers + layers);
    let all = before + (a4 + gains + emphasis + root + attenuation) + no_layers + layers;
    if a4.len() > 0 {
        assert(a4[0] == all[before.len() as int]);
    }
    if emphasis.len() > 0 {
        assert(emphasis[0] == all[(before.len() + a4.len() + gains.len()) as int]);
    }
    if root.len() > 0 {
        assert(root[0] == all[(before.len() + a4.len() + gains.len() + emphasis.len()) as int]);
    }
    if attenuation.len() > 0 {
        assert(attenuation[0] == all[(before.len() + a4.len() + gains.len() + emphasis.len()
            + root.len()) as int]);
    }
    if no_layers.len() > 0 {
        assert(no_layers[0] == all[before.len() + settings_errors(settings).len() as int]);
    }
}

/// Takes a parsed project file: refused with the error of the first check
/// that fails (an unsupported version, then invalid values); otherwise its
/// project, with the ways in which the current audio differs from the saved
/// one.
pub fn accept_sidecar_document(
    document: SidecarDocument,
    current_audio: &AudioIdentity,
    durations_agree: bool,
    overruns: &Vec<Vec<bool>>,
) -> (accepted: Result<LoadOutcome, SidecarError>)
    ensures
        accepted_document(&document, *current_audio, durations_agree, overruns@, &accepted),
{
    match check_sidecar_version(document.format_version) {
        Ok(()) => {},
        Err(version) => {
            return Err(SidecarError::UnsupportedFormatVersion(version));
        },
    }
    match validate_document(&document, overruns) {
        Ok(()) => {},
        Err(errors) => {
            return Err(SidecarError::InvalidValues(errors));
        },
    }
    let mismatches = audio_mismatches(&document.audio, current_audio, durations_agree);
    let ghost data = document_data(&document);
    let project = document_project_data(document);
    Ok(LoadOutcome::Loaded { project, audio_mismatches: mismatches })
}

/// The project file to write for a project: the current format version,
/// the audio identity, the project settings and the layers; refused with
/// every problem found when its values are invalid.
pub fn prepare_sidecar_document(
    audio: AudioIdentity,
    project: &ProjectData,
    overruns: &Vec<Vec<bool>>,
) -> (prepared: Result<SidecarDocument, SidecarError>)
    ensures
        prepared_document(audio, project@, overruns@, &prepared),
{
    let data = crate::project::copy_data(project);
    let document = SidecarDocument {
        format_version: SIDECAR_FORMAT_VERSION,
        audio,
        project_settings: data.project_settings,
        layers: data.layers,
    };
    assert(document_data(&document) == project@);
    match validate_document(&document, overruns) {
        Ok(()) => Ok(document),
        Err(errors) => Err(SidecarError::InvalidValues(errors)),
    }
}

} // verus!
