use vstd::prelude::*;
use crate::float_bits::{
    f64_bits_equal,
    f64_bits_nan,
    f32_bits_equal,
    f32_bits_nan,
    f32_bits_clamp_unit,
    f64_equal,
    f32_equal,
    f32_clamp_unit,
};
use crate::project_ids::{
    LayerId,
    MemoId,
    SelectedMemo,
    ScalePreset,
    in_scale,
    scale_pitch_classes,
    spec_next_id,
    next_id,
    lemma_next_id_is_fresh,
};
use crate::text::{decimal, decimal_string};

verus! {

/// How many memo layers a project has.
pub const FIXED_LAYER_COUNT: usize = 6;

/// The bits of the `f32` volume a layer starts with, `1.0`.
pub const DEFAULT_LAYER_VOLUME_BITS: u32 = 0x3f80_0000;

/// The bits of the `f32` opacity a layer starts with, `1.0`.
pub const DEFAULT_LAYER_OPACITY_BITS: u32 = 0x3f80_0000;

/// The bits of the `f64` duration, in seconds, of a newly placed memo: `0.5`.
pub const DEFAULT_MEMO_DURATION_SECONDS_BITS: u64 = 0x3fe0_0000_0000_0000;

/// How many equaliser bands the project settings hold.
pub const EQ_BAND_COUNT: usize = 5;

/// How the spectrogram emphasises the fundamentals of a scale. Floating
/// values are kept as `f32` bit patterns.
#[derive(Debug, Clone, Copy, PartialEq)]
pub struct FundamentalAnalysisSettings {
    pub emphasis_bits: u32,
    pub scale_root: usize,
    pub scale_preset: ScalePreset,
    pub emphasized_pitch_classes: [bool; 12],
    pub unemphasized_pitch_attenuation_bits: u32,
}

impl FundamentalAnalysisSettings {
    /// Marks the pitch classes of the chosen scale on the chosen root, and
    /// only those.
    pub fn apply_scale_preset(&mut self)
        requires
            old(self).scale_root <= usize::MAX - 11,
        ensures
            forall|pitch_class: int|
                0 <= pitch_class < 12 ==> #[trigger] final(self).emphasized_pitch_classes@[pitch_class]
                    == in_scale(old(self).scale_root as int, old(self).scale_preset, pitch_class),
            final(self).emphasis_bits == old(self).emphasis_bits,
            final(self).scale_root == old(self).scale_root,
            final(self).scale_preset == old(self).scale_preset,
            final(self).unemphasized_pitch_attenuation_bits
                == old(self).unemphasized_pitch_attenuation_bits,
    {
        self.emphasized_pitch_classes = scale_pitch_classes(self.scale_root, self.scale_preset);
    }
}

/// No emphasis on the C major scale: C, D, E, F, G, A and B marked.
pub open spec fn is_default_analysis(settings: FundamentalAnalysisSettings) -> bool {
    &&& settings.emphasis_bits == 0
    &&& settings.scale_root == 0
    &&& settings.scale_preset == ScalePreset::Major
    &&& settings.emphasized_pitch_classes@ == seq![
        true,
        false,
        true,
        false,
        true,
        true,
        false,
        true,
        false,
        true,
        false,
        true,
    ]
    &&& settings.unemphasized_pitch_attenuation_bits == 0
}

impl Default for FundamentalAnalysisSettings {
    /// No emphasis, C major.
    fn default() -> (settings: FundamentalAnalysisSettings)
        ensures
            is_default_analysis(settings),
    {
        FundamentalAnalysisSettings {
            emphasis_bits: 0,
            scale_root: 0,
            scale_preset: ScalePreset::Major,
            emphasized_pitch_classes: [
                true,
                false,
                true,
                false,
                true,
                true,
                false,
                true,
                false,
                true,
                false,
                true,
            ],
            unemphasized_pitch_attenuation_bits: 0,
        }
    }
}

/// Settings saved with a project. Floating values are `f32` bit patterns.
#[derive(Debug, Clone, Copy, PartialEq)]
pub struct ProjectSettings {
    pub preview_reference_a4_hz_bits: u32,
    pub equalizer_gains_db_bits: [u32; 5],
    pub fundamental_analysis: FundamentalAnalysisSettings,
}

/// A4 at 440 Hz (the bits of `440.0f32`), every equaliser gain at zero
/// and the default analysis.
pub open spec fn is_default_project_settings(settings: ProjectSettings) -> bool {
    &&& settings.preview_reference_a4_hz_bits == 0x43dc_0000u32
    &&& settings.equalizer_gains_db_bits@ == seq![0u32, 0u32, 0u32, 0u32, 0u32]
    &&& is_default_analysis(settings.fundamental_analysis)
}

impl Default for ProjectSettings {
    /// A4 at 440 Hz, a flat equaliser and the default analysis.
    fn default() -> (settings: ProjectSettings)
        ensures
            is_default_project_settings(settings),
    {
        ProjectSettings {
            preview_reference_a4_hz_bits: 0x43dc_0000u32,
            equalizer_gains_db_bits: [0u32, 0u32, 0u32, 0u32, 0u32],
            fundamental_analysis: FundamentalAnalysisSettings::default(),
        }
    }
}

/// A note placed on the spectrogram: start and duration in seconds, as `f64`
/// bit patterns, and a MIDI pitch.
#[derive(Debug, Clone, Copy, PartialEq, Eq, Structural)]
pub struct PitchMemo {
    pub id: MemoId,
    pub start_sec_bits: u64,
    pub duration_sec_bits: u64,
    pub pitch_midi: i32,
}

/// A layer of memos. Visibility, muting, volume and opacity (`f32` bit
/// patterns) are settings of the running session, not of the project.
#[derive(Debug)]
pub struct PitchMemoLayer {
    pub id: LayerId,
    pub name: String,
    pub visible: bool,
    pub muted: bool,
    pub volume_bits: u32,
    pub opacity_bits: u32,
    pub memos: Vec<PitchMemo>,
}

/// A layer as a value: its name as characters and its memos as a sequence.
#[verifier::ext_equal]
pub struct LayerView {
    pub id: LayerId,
    pub name: Seq<char>,
    pub visible: bool,
    pub muted: bool,
    pub volume_bits: u32,
    pub opacity_bits: u32,
    pub memos: Seq<PitchMemo>,
}

impl View for PitchMemoLayer {
    type V = LayerView;

    open spec fn view(&self) -> LayerView {
        LayerView {
            id: self.id,
            name: self.name@,
            visible: self.visible,
            muted: self.muted,
            volume_bits: self.volume_bits,
            opacity_bits: self.opacity_bits,
            memos: self.memos@,
        }
    }
}

/// The data of a project that is saved beside its audio file.
#[derive(Debug)]
pub struct ProjectData {
    pub project_settings: ProjectSettings,
    pub layers: Vec<PitchMemoLayer>,
}

/// Project data as a value.
#[verifier::ext_equal]
pub struct ProjectDataView {
    pub project_settings: ProjectSettings,
    pub layers: Seq<LayerView>,
}

impl View for ProjectData {
    type V = ProjectDataView;

    open spec fn view(&self) -> ProjectDataView {
        ProjectDataView {
            project_settings: self.project_settings,
            layers: self.layers@.map_values(|layer: PitchMemoLayer| layer@),
        }
    }
}

impl Default for ProjectData {
    /// Default settings and no layers.
    fn default() -> (data: ProjectData)
        ensures
            is_default_project_settings(data@.project_settings),
            data@.layers.len() == 0,
    {
        ProjectData { project_settings: ProjectSettings::default(), layers: Vec::new() }
    }
}

/// `i` is the first position of a layer with this identifier.
pub open spec fn is_first_layer(layers: Seq<LayerView>, id: LayerId, i: int) -> bool {
    &&& 0 <= i < layers.len()
    &&& layers[i].id == id
    &&& forall|j: int| 0 <= j < i ==> layers[j].id != id
}

/// The position of the first layer with this identifier, if any.
pub open spec fn layer_position(layers: Seq<LayerView>, id: LayerId) -> Option<int> {
    if exists|i: int| is_first_layer(layers, id, i) {
        Some(choose|i: int| is_first_layer(layers, id, i))
    } else {
        None
    }
}

/// `i` is the first position of a memo with this identifier.
pub open spec fn is_first_memo(memos: Seq<PitchMemo>, id: MemoId, i: int) -> bool {
    &&& 0 <= i < memos.len()
    &&& memos[i].id == id
    &&& forall|j: int| 0 <= j < i ==> memos[j].id != id
}

/// The position of the first memo with this identifier, if any.
pub open spec fn memo_position(memos: Seq<PitchMemo>, id: MemoId) -> Option<int> {
    if exists|i: int| is_first_memo(memos, id, i) {
        Some(choose|i: int| is_first_memo(memos, id, i))
    } else {
        None
    }
}

pub proof fn lemma_layer_position(layers: Seq<LayerView>, id: LayerId)
    ensures
        forall|i: int| is_first_layer(layers, id, i) ==> layer_position(layers, id) == Some(i),
        (forall|j: int| 0 <= j < layers.len() ==> layers[j].id != id) ==> layer_position(
            layers,
            id,
        ) is None,
        layer_position(layers, id) matches Some(i) ==> is_first_layer(layers, id, i),
{
    assert forall|i: int| is_first_layer(layers, id, i) implies layer_position(layers, id) == Some(
        i,
    ) by {
        let k = choose|k: int| is_first_layer(layers, id, k);
        assert(is_first_layer(layers, id, k));
        if k < i {
            assert(layers[k].id != id);
        }
        if i < k {
            assert(layers[i].id != id);
        }
    }
}

pub proof fn lemma_memo_position(memos: Seq<PitchMemo>, id: MemoId)
    ensures
        forall|i: int| is_first_memo(memos, id, i) ==> memo_position(memos, id) == Some(i),
        (forall|j: int| 0 <= j < memos.len() ==> memos[j].id != id) ==> memo_position(memos, id) is None,
        memo_position(memos, id) matches Some(i) ==> is_first_memo(memos, id, i),
{
    assert forall|i: int| is_first_memo(memos, id, i) implies memo_position(memos, id) == Some(i) by {
        let k = choose|k: int| is_first_memo(memos, id, k);
        assert(is_first_memo(memos, id, k));
        if k < i {
            assert(memos[k].id != id);
        }
        if i < k {
            assert(memos[i].id != id);
        }
    }
}

/// The layers of a project as values.
pub open spec fn layer_views(layers: Seq<PitchMemoLayer>) -> Seq<LayerView> {
    layers.map_values(|layer: PitchMemoLayer| layer@)
}

/// Finds the first layer with this identifier.
fn find_layer(layers: &Vec<PitchMemoLayer>, id: LayerId) -> (found: Option<usize>)
    ensures
        match found {
            Some(i) => layer_position(layer_views(layers@), id) == Some(i as int),
            None => layer_position(layer_views(layers@), id) is None,
        },
{
    let ghost views = layer_views(layers@);
    let mut i: usize = 0;
    while i < layers.len()
        invariant
            views == layer_views(layers@),
            i <= layers@.len(),
            forall|j: int| 0 <= j < i ==> views[j].id != id,
        decreases layers@.len() - i,
    {
        if layers[i].id == id {
            proof {
                lemma_layer_position(views, id);
                assert(is_first_layer(views, id, i as int));
            }
            return Some(i);
        }
        i = i + 1;
    }
    proof {
        lemma_layer_position(views, id);
    }
    None
}

/// Finds the first memo with this identifier.
fn find_memo(memos: &Vec<PitchMemo>, id: MemoId) -> (found: Option<usize>)
    ensures
        match found {
            Some(i) => memo_position(memos@, id) == Some(i as int),
            None => memo_position(memos@, id) is None,
        },
{
    let mut i: usize = 0;
    while i < memos.len()
        invariant
            i <= memos@.len(),
            forall|j: int| 0 <= j < i ==> memos@[j].id != id,
        decreases memos@.len() - i,
    {
        if memos[i].id == id {
            proof {
                lemma_memo_position(memos@, id);
                assert(is_first_memo(memos@, id, i as int));
            }
            return Some(i);
        }
        i = i + 1;
    }
    proof {
        lemma_memo_position(memos@, id);
    }
    None
}

/// Two memos are the same to the saved file: the same identifier and pitch,
/// and start and duration that `==` finds equal.
pub open spec fn memo_same(a: PitchMemo, b: PitchMemo) -> bool {
    &&& a.id == b.id
    &&& f64_bits_equal(a.start_sec_bits, b.start_sec_bits)
    &&& f64_bits_equal(a.duration_sec_bits, b.duration_sec_bits)
    &&& a.pitch_midi == b.pitch_midi
}

/// Two layers are the same to the saved file: identifier, name and memos,
/// whatever their session settings.
pub open spec fn layer_same(a: LayerView, b: LayerView) -> bool {
    &&& a.id == b.id
    &&& a.name == b.name
    &&& a.memos.len() == b.memos.len()
    &&& forall|i: int| 0 <= i < a.memos.len() ==> memo_same(#[trigger] a.memos[i], b.memos[i])
}

/// Two analysis settings compare equal, floating values by `==`.
pub open spec fn analysis_same(a: FundamentalAnalysisSettings, b: FundamentalAnalysisSettings) -> bool {
    &&& f32_bits_equal(a.emphasis_bits, b.emphasis_bits)
    &&& a.scale_root == b.scale_root
    &&& a.scale_preset == b.scale_preset
    &&& a.emphasized_pitch_classes@ == b.emphasized_pitch_classes@
    &&& f32_bits_equal(a.unemphasized_pitch_attenuation_bits, b.unemphasized_pitch_attenuation_bits)
}

/// Two sets of project settings compare equal, floating values by `==`.
pub open spec fn settings_same(a: ProjectSettings, b: ProjectSettings) -> bool {
    &&& f32_bits_equal(a.preview_reference_a4_hz_bits, b.preview_reference_a4_hz_bits)
    &&& forall|i: int|
        0 <= i < EQ_BAND_COUNT ==> f32_bits_equal(
            #[trigger] a.equalizer_gains_db_bits@[i],
            b.equalizer_gains_db_bits@[i],
        )
    &&& analysis_same(a.fundamental_analysis, b.fundamental_analysis)
}

/// Two projects are the same to the saved file: their settings and layers
/// compare equal once the session settings of the layers are left aside.
pub open spec fn persistent_same(a: ProjectDataView, b: ProjectDataView) -> bool {
    &&& settings_same(a.project_settings, b.project_settings)
    &&& a.layers.len() == b.layers.len()
    &&& forall|i: int| 0 <= i < a.layers.len() ==> layer_same(#[trigger] a.layers[i], b.layers[i])
}

fn memos_same(a: &Vec<PitchMemo>, b: &Vec<PitchMemo>) -> (same: bool)
    ensures
        same == (a@.len() == b@.len() && forall|i: int|
            0 <= i < a@.len() ==> memo_same(#[trigger] a@[i], b@[i])),
{
    if a.len() != b.len() {
        return false;
    }
    let mut i: usize = 0;
    while i < a.len()
        invariant
            a@.len() == b@.len(),
            i <= a@.len(),
            forall|j: int| 0 <= j < i ==> memo_same(#[trigger] a@[j], b@[j]),
        decreases a@.len() - i,
    {
        let x = a[i];
        let y = b[i];
        if !(x.id == y.id && f64_equal(x.start_sec_bits, y.start_sec_bits) && f64_equal(
            x.duration_sec_bits,
            y.duration_sec_bits,
        ) && x.pitch_midi == y.pitch_midi) {
            assert(!memo_same(a@[i as int], b@[i as int]));
            return false;
        }
        i = i + 1;
    }
    true
}

fn analysis_equal(a: &FundamentalAnalysisSettings, b: &FundamentalAnalysisSettings) -> (same: bool)
    ensures
        same == analysis_same(*a, *b),
{
    let mut classes_equal = true;
    let mut i: usize = 0;
    while i < 12
        invariant
            i <= 12,
            classes_equal == forall|j: int|
                0 <= j < i ==> a.emphasized_pitch_classes@[j] == b.emphasized_pitch_classes@[j],
        decreases 12 - i,
    {
        if a.emphasized_pitch_classes[i] != b.emphasized_pitch_classes[i] {
            classes_equal = false;
        }
        i = i + 1;
    }
    proof {
        if classes_equal {
            assert(a.emphasized_pitch_classes@ =~= b.emphasized_pitch_classes@);
        }
    }
    f32_equal(a.emphasis_bits, b.emphasis_bits) && a.scale_root == b.scale_root && a.scale_preset
        == b.scale_preset && classes_equal && f32_equal(
        a.unemphasized_pitch_attenuation_bits,
        b.unemphasized_pitch_attenuation_bits,
    )
}

fn settings_equal(a: &ProjectSettings, b: &ProjectSettings) -> (same: bool)
    ensures
        same == settings_same(*a, *b),
{
    let mut gains_equal = true;
    let mut i: usize = 0;
    while i < EQ_BAND_COUNT
        invariant
            i <= EQ_BAND_COUNT,
            gains_equal == forall|j: int|
                0 <= j < i ==> f32_bits_equal(
                    #[trigger] a.equalizer_gains_db_bits@[j],
                    b.equalizer_gains_db_bits@[j],
                ),
        decreases EQ_BAND_COUNT - i,
    {
        if !f32_equal(a.equalizer_gains_db_bits[i], b.equalizer_gains_db_bits[i]) {
            gains_equal = false;
        }
        i = i + 1;
    }
    f32_equal(a.preview_reference_a4_hz_bits, b.preview_reference_a4_hz_bits) && gains_equal
        && analysis_equal(&a.fundamental_analysis, &b.fundamental_analysis)
}

/// Whether two projects are the same to the saved file.
pub fn persistent_data_same(a: &ProjectData, b: &ProjectData) -> (same: bool)
    ensures
        same == persistent_same(a@, b@),
{
    if !settings_equal(&a.project_settings, &b.project_settings) {
        return false;
    }
    if a.layers.len() != b.layers.len() {
        return false;
    }
    let ghost av = a@.layers;
    let ghost bv = b@.layers;
    let mut i: usize = 0;
    while i < a.layers.len()
        invariant
            av == a@.layers,
            bv == b@.layers,
            a.layers@.len() == b.layers@.len(),
            i <= a.layers@.len(),
            forall|j: int| 0 <= j < i ==> layer_same(#[trigger] av[j], bv[j]),
        decreases a.layers@.len() - i,
    {
        let x = &a.layers[i];
        let y = &b.layers[i];
        assert(av[i as int] == x@);
        assert(bv[i as int] == y@);
        if !(x.id == y.id && crate::audio_identity::same_text(x.name.as_str(), y.name.as_str())
            && memos_same(&x.memos, &y.memos)) {
            assert(!layer_same(av[i as int], bv[i as int]));
            return false;
        }
        i = i + 1;
    }
    true
}

/// An edit that `undo` can take back, with what taking it back needs.
#[derive(Debug, Clone, Copy, PartialEq, Eq, Structural)]
pub enum ProjectEdit {
    Added(SelectedMemo),
    Deleted { selected: SelectedMemo, index: usize, memo: PitchMemo },
    Updated { selected: SelectedMemo, before: PitchMemo },
}

/// What the session knows of a project beyond its data: the selection, the
/// identifiers to hand out next, the edits that can be undone and the data
/// as last saved.
#[derive(Debug)]
pub struct ProjectEditingState {
    pub selected_layer_id: Option<LayerId>,
    pub selected_memo: Option<SelectedMemo>,
    pub dirty: bool,
    next_layer_id: u64,
    next_memo_id: u64,
    undo_stack: Vec<ProjectEdit>,
    saved_data: ProjectData,
}

/// A project being edited: its data and its editing state.
#[derive(Debug)]
pub struct ProjectState {
    pub data: ProjectData,
    pub editing: ProjectEditingState,
}

/// A project being edited, as a value.
#[verifier::ext_equal]
pub struct ProjectStateView {
    pub data: ProjectDataView,
    pub selected_layer_id: Option<LayerId>,
    pub selected_memo: Option<SelectedMemo>,
    pub dirty: bool,
    pub next_layer_id: u64,
    pub next_memo_id: u64,
    pub undo_stack: Seq<ProjectEdit>,
    pub saved_data: ProjectDataView,
}

impl View for ProjectState {
    type V = ProjectStateView;

    closed spec fn view(&self) -> ProjectStateView {
        ProjectStateView {
            data: self.data@,
            selected_layer_id: self.editing.selected_layer_id,
            selected_memo: self.editing.selected_memo,
            dirty: self.editing.dirty,
            next_layer_id: self.editing.next_layer_id,
            next_memo_id: self.editing.next_memo_id,
            undo_stack: self.editing.undo_stack@,
            saved_data: self.editing.saved_data@,
        }
    }
}

/// The state with `dirty` recomputed: the data differs from what was saved.
pub open spec fn refreshed(s: ProjectStateView) -> ProjectStateView {
    ProjectStateView { dirty: !persistent_same(s.data, s.saved_data), ..s }
}

/// The data with one layer replaced.
pub open spec fn with_layer(data: ProjectDataView, i: int, layer: LayerView) -> ProjectDataView {
    ProjectDataView { layers: data.layers.update(i, layer), ..data }
}

/// A layer with other memos.
pub open spec fn with_memos(layer: LayerView, memos: Seq<PitchMemo>) -> LayerView {
    LayerView { memos: memos, ..layer }
}

/// The data with the memos of one layer replaced.
pub open spec fn with_layer_memos(data: ProjectDataView, i: int, memos: Seq<PitchMemo>) -> ProjectDataView {
    with_layer(data, i, with_memos(data.layers[i], memos))
}

fn copy_memos(memos: &Vec<PitchMemo>) -> (copy: Vec<PitchMemo>)
    ensures
        copy@ == memos@,
{
    let mut copy: Vec<PitchMemo> = Vec::new();
    let mut i: usize = 0;
    while i < memos.len()
        invariant
            i <= memos@.len(),
            copy@ == memos@.subrange(0, i as int),
        decreases memos@.len() - i,
    {
        copy.push(memos[i]);
        assert(copy@ =~= memos@.subrange(0, i + 1));
        i = i + 1;
    }
    assert(memos@.subrange(0, i as int) =~= memos@);
    copy
}

fn copy_layer(layer: &PitchMemoLayer) -> (copy: PitchMemoLayer)
    ensures
        copy@ == layer@,
{
    PitchMemoLayer {
        id: layer.id,
        name: String::from_str(layer.name.as_str()),
        visible: layer.visible,
        muted: layer.muted,
        volume_bits: layer.volume_bits,
        opacity_bits: layer.opacity_bits,
        memos: copy_memos(&layer.memos),
    }
}

/// A copy of project data.
pub fn copy_data(data: &ProjectData) -> (copy: ProjectData)
    ensures
        copy@ == data@,
{
    let mut layers: Vec<PitchMemoLayer> = Vec::new();
    let mut i: usize = 0;
    while i < data.layers.len()
        invariant
            i <= data.layers@.len(),
            layer_views(layers@) == layer_views(data.layers@.subrange(0, i as int)),
        decreases data.layers@.len() - i,
    {
        let copy = copy_layer(&data.layers[i]);
        let ghost before = layers@;
        layers.push(copy);
        assert(layer_views(before) == layer_views(data.layers@.subrange(0, i as int)));
        assert(layer_views(before).len() == before.len());
        assert(before.len() == i);
        assert(layers@.len() == i + 1);
        assert(layer_views(layers@).len() == i + 1);
        assert forall|j: int| 0 <= j < i + 1 implies #[trigger] layer_views(layers@)[j]
            == layer_views(data.layers@.subrange(0, i + 1))[j] by {
            if j < i {
                assert(layer_views(layers@)[j] == layer_views(before)[j]);
                assert(layer_views(data.layers@.subrange(0, i + 1))[j] == layer_views(
                    data.layers@.subrange(0, i as int),
                )[j]);
            }
        }
        assert(layer_views(layers@) =~= layer_views(data.layers@.subrange(0, i + 1)));
        i = i + 1;
    }
    assert(data.layers@.subrange(0, i as int) =~= data.layers@);
    ProjectData { project_settings: data.project_settings, layers }
}

/// Taking a layer out and putting another in its place replaces it.
proof fn lemma_replaced_layer(layers: Seq<PitchMemoLayer>, i: int, layer: PitchMemoLayer)
    requires
        0 <= i < layers.len(),
    ensures
        layer_views(layers.remove(i).insert(i, layer)) == layer_views(layers).update(i, layer@),
{
    assert(layer_views(layers.remove(i).insert(i, layer)) =~= layer_views(layers).update(i, layer@));
}

/// The layer and memo positions that `selected` names, if both exist.
pub open spec fn memo_target(s: ProjectStateView, selected: SelectedMemo) -> Option<(int, int)> {
    match layer_position(s.data.layers, selected.layer_id) {
        Some(li) => match memo_position(s.data.layers[li].memos, selected.memo_id) {
            Some(mi) => Some((li, mi)),
            None => None,
        },
        None => None,
    }
}

/// The layer a new memo goes to: the first with the identifier, while
/// memo identifiers remain (the next one is neither 0 nor the last).
pub open spec fn add_memo_target(s: ProjectStateView, layer_id: LayerId) -> Option<int> {
    if s.next_memo_id == 0 || s.next_memo_id == u64::MAX {
        None
    } else {
        layer_position(s.data.layers, layer_id)
    }
}

/// The project after placing a memo: appended to its layer under the next
/// identifier, selected, and recorded for undo.
pub open spec fn state_after_add_memo(
    s: ProjectStateView,
    layer_id: LayerId,
    start_sec_bits: u64,
    duration_sec_bits: u64,
    pitch_midi: i32,
) -> ProjectStateView {
    match add_memo_target(s, layer_id) {
        Some(li) => {
            let memo = PitchMemo {
                id: MemoId::spec_new(s.next_memo_id),
                start_sec_bits,
                duration_sec_bits,
                pitch_midi,
            };
            let selected = SelectedMemo { layer_id, memo_id: memo.id };
            refreshed(
                ProjectStateView {
                    data: with_layer_memos(s.data, li, s.data.layers[li].memos.push(memo)),
                    selected_memo: Some(selected),
                    next_memo_id: (s.next_memo_id + 1) as u64,
                    undo_stack: s.undo_stack.push(ProjectEdit::Added(selected)),
                    ..s
                },
            )
        },
        None => s,
    }
}

/// The project after deleting the memo `selected` names: removed from its
/// layer, recorded for undo, and no longer selected.
pub open spec fn state_after_delete_memo(s: ProjectStateView, selected: SelectedMemo) -> ProjectStateView {
    match memo_target(s, selected) {
        Some((li, mi)) => {
            let memos = s.data.layers[li].memos;
            refreshed(
                ProjectStateView {
                    data: with_layer_memos(s.data, li, memos.remove(mi)),
                    selected_memo: if s.selected_memo == Some(selected) {
                        None
                    } else {
                        s.selected_memo
                    },
                    undo_stack: s.undo_stack.push(
                        ProjectEdit::Deleted { selected, index: mi as usize, memo: memos[mi] },
                    ),
                    ..s
                },
            )
        },
        None => s,
    }
}

/// Whether an update of the memo `selected` names changes it: the memo
/// exists and its start, duration (compared by `==`) or pitch differ.
pub open spec fn update_changes(
    s: ProjectStateView,
    selected: SelectedMemo,
    start_sec_bits: u64,
    duration_sec_bits: u64,
    pitch_midi: i32,
) -> bool {
    match memo_target(s, selected) {
        Some((li, mi)) => {
            let memo = s.data.layers[li].memos[mi];
            !(f64_bits_equal(memo.start_sec_bits, start_sec_bits) && f64_bits_equal(
                memo.duration_sec_bits,
                duration_sec_bits,
            ) && memo.pitch_midi == pitch_midi)
        },
        None => false,
    }
}

/// The project after updating the memo `selected` names: new start,
/// duration and pitch under the same identifier, the memo and its layer
/// selected, the old memo recorded for undo. Unchanged where the update
/// changes nothing.
pub open spec fn state_after_update_memo(
    s: ProjectStateView,
    selected: SelectedMemo,
    start_sec_bits: u64,
    duration_sec_bits: u64,
    pitch_midi: i32,
) -> ProjectStateView {
    match memo_target(s, selected) {
        Some((li, mi)) => if update_changes(
            s,
            selected,
            start_sec_bits,
            duration_sec_bits,
            pitch_midi,
        ) {
            let memos = s.data.layers[li].memos;
            let updated = PitchMemo { id: memos[mi].id, start_sec_bits, duration_sec_bits, pitch_midi };
            refreshed(
                ProjectStateView {
                    data: with_layer_memos(s.data, li, memos.update(mi, updated)),
                    selected_layer_id: Some(selected.layer_id),
                    selected_memo: Some(selected),
                    undo_stack: s.undo_stack.push(
                        ProjectEdit::Updated { selected, before: memos[mi] },
                    ),
                    ..s
                },
            )
        } else {
            s
        },
        None => s,
    }
}

/// The project after undoing the last edit, which leaves the undo stack: an
/// added memo is removed again, a deleted one goes back to its position (or
/// the end of its layer, where that is shorter now), an updated one gets its
/// old values back; the memo's layer becomes the selected layer. Where the
/// layer or memo is gone, only the selection moves (for an added memo) or
/// nothing happens (otherwise).
pub open spec fn state_after_undo(s: ProjectStateView) -> ProjectStateView {
    if s.undo_stack.len() == 0 {
        s
    } else {
        let popped = ProjectStateView { undo_stack: s.undo_stack.drop_last(), ..s };
        refreshed(
            match s.undo_stack.last() {
                ProjectEdit::Added(selected) => ProjectStateView {
                    data: match memo_target(s, selected) {
                        Some((li, mi)) => with_layer_memos(
                            s.data,
                            li,
                            s.data.layers[li].memos.remove(mi),
                        ),
                        None => s.data,
                    },
                    selected_layer_id: Some(selected.layer_id),
                    selected_memo: None,
                    ..popped
                },
                ProjectEdit::Deleted { selected, index, memo } => match layer_position(
                    s.data.layers,
                    selected.layer_id,
                ) {
                    Some(li) => {
                        let memos = s.data.layers[li].memos;
                        let at = if index < memos.len() {
                            index as int
                        } else {
                            memos.len() as int
                        };
                        ProjectStateView {
                            data: with_layer_memos(s.data, li, memos.insert(at, memo)),
                            selected_layer_id: Some(selected.layer_id),
                            selected_memo: Some(selected),
                            ..popped
                        }
                    },
                    None => popped,
                },
                ProjectEdit::Updated { selected, before } => match memo_target(s, selected) {
                    Some((li, mi)) => ProjectStateView {
                        data: with_layer_memos(s.data, li, s.data.layers[li].memos.update(mi, before)),
                        selected_layer_id: Some(selected.layer_id),
                        selected_memo: Some(selected),
                        ..popped
                    },
                    None => popped,
                },
            },
        )
    }
}

impl ProjectState {
    fn refresh_dirty(&mut self)
        ensures
            final(self)@ == refreshed(old(self)@),
    {
        let same = persistent_data_same(&self.data, &self.editing.saved_data);
        self.editing.dirty = !same;
    }

    /// Takes the current data as saved.
    pub fn mark_saved(&mut self)
        ensures
            final(self)@ == refreshed(ProjectStateView { saved_data: old(self)@.data, ..old(self)@ }),
    {
        self.editing.saved_data = copy_data(&self.data);
        self.refresh_dirty();
    }

    /// Whether an edit can be undone.
    pub fn can_undo(&self) -> (can: bool)
        ensures
            can == (self@.undo_stack.len() > 0),
    {
        self.editing.undo_stack.len() > 0
    }

    /// The memo named by `selected`: the first memo with its identifier in
    /// the first layer with its layer identifier.
    pub fn memo(&self, selected: SelectedMemo) -> (memo: Option<&PitchMemo>)
        ensures
            match memo {
                Some(memo) => layer_position(self@.data.layers, selected.layer_id) matches Some(li)
                    && memo_position(self@.data.layers[li].memos, selected.memo_id) matches Some(mi)
                    && *memo == self@.data.layers[li].memos[mi],
                None => layer_position(self@.data.layers, selected.layer_id) matches Some(li) ==> memo_position(
                    self@.data.layers[li].memos,
                    selected.memo_id,
                ) is None,
            },
    {
        let li = match find_layer(&self.data.layers, selected.layer_id) {
            Some(li) => li,
            None => {
                return None;
            },
        };
        let layer = &self.data.layers[li];
        assert(self@.data.layers[li as int] == layer@);
        match find_memo(&layer.memos, selected.memo_id) {
            Some(mi) => Some(&layer.memos[mi]),
            None => None,
        }
    }

    /// Looks up the memo `selected` names.
    fn find_target(&self, selected: SelectedMemo) -> (found: Option<(usize, usize)>)
        ensures
            match found {
                Some((li, mi)) => memo_target(self@, selected) == Some((li as int, mi as int)),
                None => memo_target(self@, selected) is None,
            },
    {
        let li = match find_layer(&self.data.layers, selected.layer_id) {
            Some(li) => li,
            None => {
                return None;
            },
        };
        assert(self@.data.layers[li as int] == self.data.layers@[li as int]@);
        match find_memo(&self.data.layers[li].memos, selected.memo_id) {
            Some(mi) => Some((li, mi)),
            None => None,
        }
    }

    /// Places a memo on a layer: appended under the next memo identifier,
    /// selected and recorded for undo. `None`, with nothing changed, when no
    /// layer has the identifier or memo identifiers ran out.
    pub fn add_memo(
        &mut self,
        layer_id: LayerId,
        start_sec_bits: u64,
        duration_sec_bits: u64,
        pitch_midi: i32,
    ) -> (added: Option<MemoId>)
        ensures
            final(self)@ == state_after_add_memo(
                old(self)@,
                layer_id,
                start_sec_bits,
                duration_sec_bits,
                pitch_midi,
            ),
            added == (match add_memo_target(old(self)@, layer_id) {
                Some(_) => Some(MemoId::spec_new(old(self)@.next_memo_id)),
                None => None,
            }),
    {
        let li = match find_layer(&self.data.layers, layer_id) {
            Some(li) => li,
            None => {
                return None;
            },
        };
        let id = match MemoId::new(self.editing.next_memo_id) {
            Some(id) => id,
            None => {
                return None;
            },
        };
        let next = match self.editing.next_memo_id.checked_add(1) {
            Some(next) => next,
            None => {
                return None;
            },
        };
        let ghost before = self.data.layers@;
        self.editing.next_memo_id = next;
        let mut layer = self.data.layers.remove(li);
        layer.memos.push(PitchMemo { id, start_sec_bits, duration_sec_bits, pitch_midi });
        self.data.layers.insert(li, layer);
        proof {
            lemma_replaced_layer(before, li as int, self.data.layers@[li as int]);
        }
        let selected = SelectedMemo { layer_id, memo_id: id };
        self.editing.selected_memo = Some(selected);
        self.editing.undo_stack.push(ProjectEdit::Added(selected));
        self.refresh_dirty();
        Some(id)
    }

    /// Deletes the memo `selected` names and records it for undo; it stops
    /// being selected. `false`, with nothing changed, when there is no such
    /// memo.
    pub fn delete_memo(&mut self, selected: SelectedMemo) -> (deleted: bool)
        ensures
            final(self)@ == state_after_delete_memo(old(self)@, selected),
            deleted == memo_target(old(self)@, selected) is Some,
    {
        let (li, mi) = match self.find_target(selected) {
            Some(target) => target,
            None => {
                return false;
            },
        };
        let ghost before = self.data.layers@;
        let mut layer = self.data.layers.remove(li);
        let memo = layer.memos.remove(mi);
        self.data.layers.insert(li, layer);
        proof {
            lemma_replaced_layer(before, li as int, self.data.layers@[li as int]);
        }
        self.editing.undo_stack.push(ProjectEdit::Deleted { selected, index: mi, memo });
        if self.editing.selected_memo == Some(selected) {
            self.editing.selected_memo = None;
        }
        self.refresh_dirty();
        true
    }

    /// Gives the memo `selected` names a new start, duration and pitch,
    /// selects it and its layer, and records the old memo for undo. `false`,
    /// with nothing changed, when there is no such memo or nothing would
    /// change.
    pub fn update_memo(
        &mut self,
        selected: SelectedMemo,
        start_sec_bits: u64,
        duration_sec_bits: u64,
        pitch_midi: i32,
    ) -> (updated: bool)
        ensures
            final(self)@ == state_after_update_memo(
                old(self)@,
                selected,
                start_sec_bits,
                duration_sec_bits,
                pitch_midi,
            ),
            updated == update_changes(
                old(self)@,
                selected,
                start_sec_bits,
                duration_sec_bits,
                pitch_midi,
            ),
    {
        let (li, mi) = match self.find_target(selected) {
            Some(target) => target,
            None => {
                return false;
            },
        };
        let before = self.data.layers[li].memos[mi];
        assert(before == self@.data.layers[li as int].memos[mi as int]);
        if f64_equal(before.start_sec_bits, start_sec_bits) && f64_equal(
            before.duration_sec_bits,
            duration_sec_bits,
        ) && before.pitch_midi == pitch_midi {
            return false;
        }
        let ghost layers_before = self.data.layers@;
        let mut layer = self.data.layers.remove(li);
        layer.memos.set(
            mi,
            PitchMemo { id: before.id, start_sec_bits, duration_sec_bits, pitch_midi },
        );
        self.data.layers.insert(li, layer);
        proof {
            lemma_replaced_layer(layers_before, li as int, self.data.layers@[li as int]);
        }
        self.editing.undo_stack.push(ProjectEdit::Updated { selected, before });
        self.editing.selected_layer_id = Some(selected.layer_id);
        self.editing.selected_memo = Some(selected);
        self.refresh_dirty();
        true
    }

    /// Takes back the last edit. `false`, with nothing changed, when there
    /// is none.
    pub fn undo(&mut self) -> (undone: bool)
        ensures
            final(self)@ == state_after_undo(old(self)@),
            undone == (old(self)@.undo_stack.len() > 0),
    {
        let edit = match self.editing.undo_stack.pop() {
            Some(edit) => edit,
            None => {
                return false;
            },
        };
        match edit {
            ProjectEdit::Added(selected) => {
                match self.find_target(selected) {
                    Some((li, mi)) => {
                        let ghost before = self.data.layers@;
                        let mut layer = self.data.layers.remove(li);
                        layer.memos.remove(mi);
                        self.data.layers.insert(li, layer);
                        proof {
                            lemma_replaced_layer(before, li as int, self.data.layers@[li as int]);
                        }
                    },
                    None => {},
                }
                self.editing.selected_layer_id = Some(selected.layer_id);
                self.editing.selected_memo = None;
            },
            ProjectEdit::Deleted { selected, index, memo } => {
                match find_layer(&self.data.layers, selected.layer_id) {
                    Some(li) => {
                        let ghost before = self.data.layers@;
                        let mut layer = self.data.layers.remove(li);
                        let at = if index < layer.memos.len() {
                            index
                        } else {
                            layer.memos.len()
                        };
                        layer.memos.insert(at, memo);
                        self.data.layers.insert(li, layer);
                        proof {
                            lemma_replaced_layer(before, li as int, self.data.layers@[li as int]);
                        }
                        self.editing.selected_layer_id = Some(selected.layer_id);
                        self.editing.selected_memo = Some(selected);
                    },
                    None => {},
                }
            },
            ProjectEdit::Updated { selected, before } => {
                match self.find_target(selected) {
                    Some((li, mi)) => {
                        let ghost layers_before = self.data.layers@;
                        let mut layer = self.data.layers.remove(li);
                        layer.memos.set(mi, before);
                        self.data.layers.insert(li, layer);
                        proof {
                            lemma_replaced_layer(
                                layers_before,
                                li as int,
                                self.data.layers@[li as int],
                            );
                        }
                        self.editing.selected_layer_id = Some(selected.layer_id);
                        self.editing.selected_memo = Some(selected);
                    },
                    None => {},
                }
            },
        }
        self.refresh_dirty();
        true
    }
}

/// Every memo of the project and every memo an edit refers to has an
/// identifier below the next one to hand out, and every layer likewise,
/// except where identifiers ran out (the next one is 0).
pub open spec fn ids_are_fresh(s: ProjectStateView) -> bool {
    &&& s.next_memo_id != 0 ==> forall|li: int, mi: int|
        0 <= li < s.data.layers.len() && 0 <= mi < s.data.layers[li].memos.len()
            ==> #[trigger] s.data.layers[li].memos[mi].id.spec_get() < s.next_memo_id
    &&& s.next_memo_id != 0 ==> forall|k: int|
        0 <= k < s.undo_stack.len() ==> #[trigger] edit_memo_id(s.undo_stack[k]) < s.next_memo_id
    &&& s.next_layer_id != 0 ==> forall|li: int|
        0 <= li < s.data.layers.len() ==> #[trigger] s.data.layers[li].id.spec_get() < s.next_layer_id
}

/// The memo identifier an edit refers to, and that of the memo it keeps.
pub open spec fn edit_memo_id(edit: ProjectEdit) -> u64 {
    match edit {
        ProjectEdit::Added(selected) => selected.memo_id.spec_get(),
        ProjectEdit::Deleted { selected, memo, .. } => if selected.memo_id.spec_get()
            > memo.id.spec_get() {
            selected.memo_id.spec_get()
        } else {
            memo.id.spec_get()
        },
        ProjectEdit::Updated { selected, before } => if selected.memo_id.spec_get()
            > before.id.spec_get() {
            selected.memo_id.spec_get()
        } else {
            before.id.spec_get()
        },
    }
}

/// Every memo list of the project is short enough to be indexed by `usize`.
pub open spec fn lengths_fit(s: ProjectStateView) -> bool {
    forall|li: int| 0 <= li < s.data.layers.len() ==> #[trigger] s.data.layers[li].memos.len() <= usize::MAX
}

/// Layers with the same identifiers in the same order are searched alike.
proof fn lemma_same_layer_ids(a: Seq<LayerView>, b: Seq<LayerView>, id: LayerId)
    requires
        a.len() == b.len(),
        forall|i: int| #![trigger a[i]] #![trigger b[i]] 0 <= i < a.len() ==> a[i].id == b[i].id,
    ensures
        layer_position(a, id) == layer_position(b, id),
{
    lemma_layer_position(a, id);
    lemma_layer_position(b, id);
    if let Some(i) = layer_position(a, id) {
        assert(is_first_layer(b, id, i));
    } else if let Some(i) = layer_position(b, id) {
        assert(is_first_layer(a, id, i));
    }
}

/// Memos with the same identifiers in the same order are searched alike.
proof fn lemma_same_memo_ids(a: Seq<PitchMemo>, b: Seq<PitchMemo>, id: MemoId)
    requires
        a.len() == b.len(),
        forall|i: int| #![trigger a[i]] #![trigger b[i]] 0 <= i < a.len() ==> a[i].id == b[i].id,
    ensures
        memo_position(a, id) == memo_position(b, id),
{
    lemma_memo_position(a, id);
    lemma_memo_position(b, id);
    if let Some(i) = memo_position(a, id) {
        assert(is_first_memo(b, id, i));
    } else if let Some(i) = memo_position(b, id) {
        assert(is_first_memo(a, id, i));
    }
}

/// Replacing a layer's memos keeps the layers' identifiers.
proof fn lemma_layer_ids_kept(data: ProjectDataView, li: int, memos: Seq<PitchMemo>, id: LayerId)
    requires
        0 <= li < data.layers.len(),
    ensures
        layer_position(with_layer_memos(data, li, memos).layers, id) == layer_position(
            data.layers,
            id,
        ),
{
    let changed = with_layer_memos(data, li, memos).layers;
    assert forall|i: int| 0 <= i < changed.len() implies #[trigger] changed[i].id
        == data.layers[i].id by {}
    lemma_same_layer_ids(changed, data.layers, id);
}

/// Undoing the placing of a memo gives back the data as it was before,
/// provided no memo of the target layer already holds the identifier the
/// new memo receives.
pub proof fn lemma_undo_add_memo_restores_data(
    s: ProjectStateView,
    layer_id: LayerId,
    start_sec_bits: u64,
    duration_sec_bits: u64,
    pitch_midi: i32,
)
    requires
        add_memo_target(s, layer_id) is Some,
        forall|mi: int|
            0 <= mi < s.data.layers[add_memo_target(s, layer_id)->0].memos.len()
                ==> #[trigger] s.data.layers[add_memo_target(s, layer_id)->0].memos[mi].id.spec_get()
                != s.next_memo_id,
    ensures
        state_after_undo(
            state_after_add_memo(s, layer_id, start_sec_bits, duration_sec_bits, pitch_midi),
        ).data == s.data,
{
    let li = add_memo_target(s, layer_id)->0;
    lemma_layer_position(s.data.layers, layer_id);
    let id = MemoId::spec_new(s.next_memo_id);
    MemoId::lemma_get_new(s.next_memo_id);
    let memo = PitchMemo { id, start_sec_bits, duration_sec_bits, pitch_midi };
    let memos = s.data.layers[li].memos;
    let pushed = memos.push(memo);
    let s1 = state_after_add_memo(s, layer_id, start_sec_bits, duration_sec_bits, pitch_midi);
    assert(s1.data == with_layer_memos(s.data, li, pushed));
    lemma_layer_ids_kept(s.data, li, pushed, layer_id);
    assert(s1.data.layers[li].memos == pushed);
    assert forall|j: int| 0 <= j < memos.len() implies pushed[j].id != id by {
        assert(memos[j].id.spec_get() != s.next_memo_id);
    }
    lemma_memo_position(pushed, id);
    assert(is_first_memo(pushed, id, memos.len() as int));
    let selected = SelectedMemo { layer_id, memo_id: id };
    assert(s1.undo_stack.last() == ProjectEdit::Added(selected));
    assert(memo_target(s1, selected) == Some((li, memos.len() as int)));
    assert(pushed.remove(memos.len() as int) =~= memos);
    assert(with_layer_memos(s1.data, li, memos).layers =~= s.data.layers);
}

/// Undoing the deletion of a memo gives back the data as it was before.
pub proof fn lemma_undo_delete_memo_restores_data(s: ProjectStateView, selected: SelectedMemo)
    requires
        lengths_fit(s),
        memo_target(s, selected) is Some,
    ensures
        state_after_undo(state_after_delete_memo(s, selected)).data == s.data,
{
    let (li, mi) = memo_target(s, selected)->0;
    lemma_layer_position(s.data.layers, selected.layer_id);
    lemma_memo_position(s.data.layers[li].memos, selected.memo_id);
    let memos = s.data.layers[li].memos;
    let removed = memos.remove(mi);
    let s1 = state_after_delete_memo(s, selected);
    assert(s1.data == with_layer_memos(s.data, li, removed));
    lemma_layer_ids_kept(s.data, li, removed, selected.layer_id);
    assert(s1.data.layers[li].memos == removed);
    assert(s1.undo_stack.last() == ProjectEdit::Deleted {
        selected,
        index: mi as usize,
        memo: memos[mi],
    });
    assert(removed.insert(mi, memos[mi]) =~= memos);
    assert(with_layer_memos(s1.data, li, memos).layers =~= s.data.layers);
}

/// Undoing the update of a memo gives back the data as it was before.
pub proof fn lemma_undo_update_memo_restores_data(
    s: ProjectStateView,
    selected: SelectedMemo,
    start_sec_bits: u64,
    duration_sec_bits: u64,
    pitch_midi: i32,
)
    requires
        update_changes(s, selected, start_sec_bits, duration_sec_bits, pitch_midi),
    ensures
        state_after_undo(
            state_after_update_memo(s, selected, start_sec_bits, duration_sec_bits, pitch_midi),
        ).data == s.data,
{
    let (li, mi) = memo_target(s, selected)->0;
    lemma_layer_position(s.data.layers, selected.layer_id);
    lemma_memo_position(s.data.layers[li].memos, selected.memo_id);
    let memos = s.data.layers[li].memos;
    let updated_memo = PitchMemo {
        id: memos[mi].id,
        start_sec_bits,
        duration_sec_bits,
        pitch_midi,
    };
    let updated = memos.update(mi, updated_memo);
    let s1 = state_after_update_memo(s, selected, start_sec_bits, duration_sec_bits, pitch_midi);
    assert(s1.data == with_layer_memos(s.data, li, updated));
    lemma_layer_ids_kept(s.data, li, updated, selected.layer_id);
    assert(s1.data.layers[li].memos == updated);
    assert forall|j: int| 0 <= j < memos.len() implies #[trigger] updated[j].id == memos[j].id by {}
    lemma_same_memo_ids(updated, memos, selected.memo_id);
    assert(memo_target(s1, selected) == Some((li, mi)));
    assert(updated.update(mi, memos[mi]) =~= memos);
    assert(with_layer_memos(s1.data, li, memos).layers =~= s.data.layers);
}

/// An update that reports a change leaves the selected memo with exactly the
/// given start, duration and pitch, under its identifier and at the same
/// place; every other memo and layer is as it was. An update that reports
/// none leaves the project as it was, and then the memo already had values
/// equal to the given ones.
pub proof fn lemma_update_memo_sets_the_values(
    s: ProjectStateView,
    selected: SelectedMemo,
    start_sec_bits: u64,
    duration_sec_bits: u64,
    pitch_midi: i32,
)
    ensures
        update_changes(s, selected, start_sec_bits, duration_sec_bits, pitch_midi) ==> {
            let t = state_after_update_memo(s, selected, start_sec_bits, duration_sec_bits, pitch_midi);
            &&& memo_target(s, selected) matches Some((li, mi))
            &&& memo_target(t, selected) == Some((li, mi))
            &&& t.data.layers.len() == s.data.layers.len()
            &&& t.data.layers[li].memos.len() == s.data.layers[li].memos.len()
            &&& t.data.layers[li].memos[mi] == (PitchMemo {
                id: selected.memo_id,
                start_sec_bits,
                duration_sec_bits,
                pitch_midi,
            })
            &&& forall|i: int, j: int|
                0 <= i < s.data.layers.len() && 0 <= j < s.data.layers[i].memos.len() && (i, j) != (
                li,
                mi,
            ) ==> #[trigger] t.data.layers[i].memos[j] == s.data.layers[i].memos[j]
        },
        !update_changes(s, selected, start_sec_bits, duration_sec_bits, pitch_midi) ==> {
            &&& state_after_update_memo(s, selected, start_sec_bits, duration_sec_bits, pitch_midi)
                == s
            &&& memo_target(s, selected) matches Some((li, mi)) ==> {
                let memo = s.data.layers[li].memos[mi];
                &&& f64_bits_equal(memo.start_sec_bits, start_sec_bits)
                &&& f64_bits_equal(memo.duration_sec_bits, duration_sec_bits)
                &&& memo.pitch_midi == pitch_midi
            }
        },
{
    if update_changes(s, selected, start_sec_bits, duration_sec_bits, pitch_midi) {
        let (li, mi) = memo_target(s, selected)->0;
        lemma_layer_position(s.data.layers, selected.layer_id);
        lemma_memo_position(s.data.layers[li].memos, selected.memo_id);
        let memos = s.data.layers[li].memos;
        let updated = memos.update(
            mi,
            PitchMemo { id: memos[mi].id, start_sec_bits, duration_sec_bits, pitch_midi },
        );
        let t = state_after_update_memo(s, selected, start_sec_bits, duration_sec_bits, pitch_midi);
        assert(t.data == with_layer_memos(s.data, li, updated));
        lemma_layer_ids_kept(s.data, li, updated, selected.layer_id);
        assert(t.data.layers[li].memos == updated);
        assert forall|j: int| 0 <= j < memos.len() implies #[trigger] updated[j].id == memos[j].id by {}
        lemma_same_memo_ids(updated, memos, selected.memo_id);
        assert(memo_target(t, selected) == Some((li, mi)));
    }
}

/// Placing a memo appends it to the end of the first layer with the given
/// identifier, under the next memo identifier and with exactly the given
/// start, duration and pitch, and selects it; the identifier counter moves
/// on by one and every other memo stays as it was. Where no other memo of
/// that layer holds the new identifier, the selection finds the new memo.
pub proof fn lemma_add_memo_places_the_memo(
    s: ProjectStateView,
    layer_id: LayerId,
    start_sec_bits: u64,
    duration_sec_bits: u64,
    pitch_midi: i32,
)
    requires
        add_memo_target(s, layer_id) is Some,
    ensures
        ({
            let t = state_after_add_memo(s, layer_id, start_sec_bits, duration_sec_bits, pitch_midi);
            let li = add_memo_target(s, layer_id)->0;
            let old_memos = s.data.layers[li].memos;
            let id = MemoId::spec_new(s.next_memo_id);
            &&& layer_position(s.data.layers, layer_id) == Some(li)
            &&& t.next_memo_id == s.next_memo_id + 1
            &&& t.selected_memo == Some(SelectedMemo { layer_id, memo_id: id })
            &&& t.data.layers.len() == s.data.layers.len()
            &&& t.data.layers[li].memos.len() == old_memos.len() + 1
            &&& t.data.layers[li].memos[old_memos.len() as int] == (PitchMemo {
                id,
                start_sec_bits,
                duration_sec_bits,
                pitch_midi,
            })
            &&& forall|j: int| 0 <= j < old_memos.len() ==> #[trigger] t.data.layers[li].memos[j] == old_memos[j]
            &&& forall|i: int| 0 <= i < s.data.layers.len() && i != li ==> #[trigger] t.data.layers[i] == s.data.layers[i]
            &&& (forall|j: int| 0 <= j < old_memos.len() ==> #[trigger] old_memos[j].id != id) ==> memo_target(
                t,
                SelectedMemo { layer_id, memo_id: id },
            ) == Some((li, old_memos.len() as int))
        }),
{
    let li = add_memo_target(s, layer_id)->0;
    lemma_layer_position(s.data.layers, layer_id);
    let id = MemoId::spec_new(s.next_memo_id);
    MemoId::lemma_get_new(s.next_memo_id);
    let memos = s.data.layers[li].memos;
    let pushed = memos.push(PitchMemo { id, start_sec_bits, duration_sec_bits, pitch_midi });
    let t = state_after_add_memo(s, layer_id, start_sec_bits, duration_sec_bits, pitch_midi);
    assert(t.data == with_layer_memos(s.data, li, pushed));
    lemma_layer_ids_kept(s.data, li, pushed, layer_id);
    assert(t.data.layers[li].memos == pushed);
    if forall|j: int| 0 <= j < memos.len() ==> #[trigger] memos[j].id != id {
        assert forall|j: int| 0 <= j < memos.len() implies pushed[j].id != id by {
            assert(pushed[j] == memos[j]);
        }
        lemma_memo_position(pushed, id);
        assert(is_first_memo(pushed, id, memos.len() as int));
    }
}

/// Deleting a memo removes exactly it from its layer: the memos before it
/// stay where they were, those after it move up by one, every other layer
/// is unchanged, and the memo is no longer selected. Deleting a memo that
/// cannot be found changes nothing.
pub proof fn lemma_delete_memo_removes_only_it(s: ProjectStateView, selected: SelectedMemo)
    ensures
        memo_target(s, selected) is None ==> state_after_delete_memo(s, selected) == s,
        memo_target(s, selected) matches Some((li, mi)) ==> {
            let t = state_after_delete_memo(s, selected);
            let old_memos = s.data.layers[li].memos;
            &&& old_memos[mi].id == selected.memo_id
            &&& s.data.layers[li].id == selected.layer_id
            &&& t.data.layers.len() == s.data.layers.len()
            &&& t.data.layers[li].memos.len() == old_memos.len() - 1
            &&& forall|j: int| 0 <= j < mi ==> #[trigger] t.data.layers[li].memos[j] == old_memos[j]
            &&& forall|j: int|
                mi <= j < old_memos.len() - 1 ==> #[trigger] t.data.layers[li].memos[j] == old_memos[j + 1]
            &&& forall|i: int| 0 <= i < s.data.layers.len() && i != li ==> #[trigger] t.data.layers[i] == s.data.layers[i]
            &&& t.selected_memo != Some(selected)
        },
{
    if let Some((li, mi)) = memo_target(s, selected) {
        lemma_layer_position(s.data.layers, selected.layer_id);
        lemma_memo_position(s.data.layers[li].memos, selected.memo_id);
    }
}

/// A session setting given to every layer at once.
#[derive(Debug, Clone, Copy, PartialEq, Eq, Structural)]
pub enum LayerSetting {
    Visible(bool),
    Muted(bool),
    /// An `f32` volume bit pattern, already clamped.
    Volume(u32),
    /// An `f32` opacity bit pattern, already clamped.
    Opacity(u32),
}

/// Whether a layer's setting differs from the one to give: by `!=` on the
/// flags and on the floating values.
pub open spec fn setting_differs(layer: LayerView, setting: LayerSetting) -> bool {
    match setting {
        LayerSetting::Visible(visible) => layer.visible != visible,
        LayerSetting::Muted(muted) => layer.muted != muted,
        LayerSetting::Volume(bits) => !f32_bits_equal(layer.volume_bits, bits),
        LayerSetting::Opacity(bits) => !f32_bits_equal(layer.opacity_bits, bits),
    }
}

/// A layer with the setting given where it differs, unchanged otherwise.
pub open spec fn with_setting(layer: LayerView, setting: LayerSetting) -> LayerView {
    if !setting_differs(layer, setting) {
        layer
    } else {
        match setting {
            LayerSetting::Visible(visible) => LayerView { visible, ..layer },
            LayerSetting::Muted(muted) => LayerView { muted, ..layer },
            LayerSetting::Volume(bits) => LayerView { volume_bits: bits, ..layer },
            LayerSetting::Opacity(bits) => LayerView { opacity_bits: bits, ..layer },
        }
    }
}

/// The project with a setting given to every layer; dirty is left as it was,
/// since session settings are not saved.
pub open spec fn state_with_setting(s: ProjectStateView, setting: LayerSetting) -> ProjectStateView {
    ProjectStateView {
        data: ProjectDataView {
            layers: s.data.layers.map_values(|layer: LayerView| with_setting(layer, setting)),
            ..s.data
        },
        ..s
    }
}

/// Whether giving a setting to every layer changes any of them.
pub open spec fn setting_changes_any(s: ProjectStateView, setting: LayerSetting) -> bool {
    exists|i: int| 0 <= i < s.data.layers.len() && setting_differs(#[trigger] s.data.layers[i], setting)
}

/// Whether a new layer can be added: fewer than the fixed number exist and
/// layer identifiers remain.
pub open spec fn add_layer_allowed(s: ProjectStateView) -> bool {
    s.data.layers.len() < FIXED_LAYER_COUNT && s.next_layer_id != 0 && s.next_layer_id != u64::MAX
}

/// A new, empty, visible, unmuted layer at full volume and opacity.
pub open spec fn new_layer_view(id: LayerId, name: Seq<char>) -> LayerView {
    LayerView {
        id,
        name,
        visible: true,
        muted: false,
        volume_bits: DEFAULT_LAYER_VOLUME_BITS,
        opacity_bits: DEFAULT_LAYER_OPACITY_BITS,
        memos: Seq::empty(),
    }
}

/// The project after adding a layer under the next layer identifier; the
/// new layer is selected and no memo is.
pub open spec fn state_after_add_layer(s: ProjectStateView, name: Seq<char>) -> ProjectStateView {
    if add_layer_allowed(s) {
        let id = LayerId::spec_new(s.next_layer_id);
        refreshed(
            ProjectStateView {
                data: ProjectDataView {
                    layers: s.data.layers.push(new_layer_view(id, name)),
                    ..s.data
                },
                selected_layer_id: Some(id),
                selected_memo: None,
                next_layer_id: (s.next_layer_id + 1) as u64,
                ..s
            },
        )
    } else {
        s
    }
}

impl ProjectState {
    fn set_all_layers(&mut self, setting: LayerSetting) -> (changed: bool)
        ensures
            final(self)@ == state_with_setting(old(self)@, setting),
            changed == setting_changes_any(old(self)@, setting),
    {
        let ghost start = self@;
        let mut changed = false;
        let mut i: usize = 0;
        while i < self.data.layers.len()
            invariant
                i <= self@.data.layers.len(),
                self@.data.layers.len() == start.data.layers.len(),
                self@ == (ProjectStateView {
                    data: ProjectDataView { layers: self@.data.layers, ..start.data },
                    ..start
                }),
                forall|j: int| 0 <= j < i ==> #[trigger] self@.data.layers[j] == with_setting(
                    start.data.layers[j],
                    setting,
                ),
                forall|j: int| i <= j < self@.data.layers.len() ==> #[trigger] self@.data.layers[j]
                    == start.data.layers[j],
                changed == exists|j: int| 0 <= j < i && setting_differs(#[trigger] start.data.layers[j], setting),
            decreases self@.data.layers.len() - i,
        {
            let ghost before = self.data.layers@;
            assert(self@.data.layers[i as int] == before[i as int]@);
            let differs = match setting {
                LayerSetting::Visible(visible) => self.data.layers[i].visible != visible,
                LayerSetting::Muted(muted) => self.data.layers[i].muted != muted,
                LayerSetting::Volume(bits) => !f32_equal(self.data.layers[i].volume_bits, bits),
                LayerSetting::Opacity(bits) => !f32_equal(self.data.layers[i].opacity_bits, bits),
            };
            if differs {
                let mut layer = self.data.layers.remove(i);
                match setting {
                    LayerSetting::Visible(visible) => {
                        layer.visible = visible;
                    },
                    LayerSetting::Muted(muted) => {
                        layer.muted = muted;
                    },
                    LayerSetting::Volume(bits) => {
                        layer.volume_bits = bits;
                    },
                    LayerSetting::Opacity(bits) => {
                        layer.opacity_bits = bits;
                    },
                }
                self.data.layers.insert(i, layer);
                proof {
                    lemma_replaced_layer(before, i as int, self.data.layers@[i as int]);
                }
                changed = true;
            }
            assert(self@.data.layers[i as int] == with_setting(start.data.layers[i as int], setting));
            i = i + 1;
        }
        assert(self@.data.layers =~= start.data.layers.map_values(
            |layer: LayerView| with_setting(layer, setting),
        ));
        changed
    }

    /// Shows or hides every layer; whether any layer changed.
    pub fn set_all_layers_visible(&mut self, visible: bool) -> (changed: bool)
        ensures
            final(self)@ == state_with_setting(old(self)@, LayerSetting::Visible(visible)),
            changed == setting_changes_any(old(self)@, LayerSetting::Visible(visible)),
    {
        self.set_all_layers(LayerSetting::Visible(visible))
    }

    /// Mutes or unmutes every layer; whether any layer changed.
    pub fn set_all_layers_muted(&mut self, muted: bool) -> (changed: bool)
        ensures
            final(self)@ == state_with_setting(old(self)@, LayerSetting::Muted(muted)),
            changed == setting_changes_any(old(self)@, LayerSetting::Muted(muted)),
    {
        self.set_all_layers(LayerSetting::Muted(muted))
    }

    /// Gives every layer the volume, clamped to `0.0..=1.0` (bits of an
    /// `f32`); whether any layer changed.
    pub fn set_all_layers_volume(&mut self, volume_bits: u32) -> (changed: bool)
        ensures
            final(self)@ == state_with_setting(
                old(self)@,
                LayerSetting::Volume(f32_bits_clamp_unit(volume_bits)),
            ),
            changed == setting_changes_any(
                old(self)@,
                LayerSetting::Volume(f32_bits_clamp_unit(volume_bits)),
            ),
    {
        self.set_all_layers(LayerSetting::Volume(f32_clamp_unit(volume_bits)))
    }

    /// Gives every layer the opacity, clamped to `0.0..=1.0` (bits of an
    /// `f32`); whether any layer changed.
    pub fn set_all_layers_opacity(&mut self, opacity_bits: u32) -> (changed: bool)
        ensures
            final(self)@ == state_with_setting(
                old(self)@,
                LayerSetting::Opacity(f32_bits_clamp_unit(opacity_bits)),
            ),
            changed == setting_changes_any(
                old(self)@,
                LayerSetting::Opacity(f32_bits_clamp_unit(opacity_bits)),
            ),
    {
        self.set_all_layers(LayerSetting::Opacity(f32_clamp_unit(opacity_bits)))
    }

    /// Adds an empty layer under the next layer identifier and selects it.
    /// `None`, with nothing changed, when the project already has its fixed
    /// number of layers or layer identifiers ran out.
    pub fn add_layer(&mut self, name: String) -> (added: Option<LayerId>)
        ensures
            final(self)@ == state_after_add_layer(old(self)@, name@),
            added == (if add_layer_allowed(old(self)@) {
                Some(LayerId::spec_new(old(self)@.next_layer_id))
            } else {
                None
            }),
    {
        if self.data.layers.len() >= FIXED_LAYER_COUNT {
            return None;
        }
        let id = match LayerId::new(self.editing.next_layer_id) {
            Some(id) => id,
            None => {
                return None;
            },
        };
        let next = match self.editing.next_layer_id.checked_add(1) {
            Some(next) => next,
            None => {
                return None;
            },
        };
        self.editing.next_layer_id = next;
        let ghost before = self.data.layers@;
        self.data.layers.push(
            PitchMemoLayer {
                id,
                name,
                visible: true,
                muted: false,
                volume_bits: DEFAULT_LAYER_VOLUME_BITS,
                opacity_bits: DEFAULT_LAYER_OPACITY_BITS,
                memos: Vec::new(),
            },
        );
        assert(layer_views(self.data.layers@) =~= layer_views(before).push(
            new_layer_view(id, name@),
        ));
        self.editing.selected_layer_id = Some(id);
        self.editing.selected_memo = None;
        self.refresh_dirty();
        Some(id)
    }
}

/// The layer a project gets when its `number` (1 to 6) is missing: named
/// "Layer " and the number.
pub open spec fn fixed_layer(number: nat) -> LayerView {
    new_layer_view(LayerId::spec_new(number as u64), "Layer "@ + decimal(number))
}

/// Whether some layer has this identifier value.
pub open spec fn has_layer_id(layers: Seq<LayerView>, value: u64) -> bool {
    exists|i: int| 0 <= i < layers.len() && #[trigger] layers[i].id.spec_get() == value
}

/// The layers after filling in the fixed layers numbered 1 to `count`: each
/// missing number is appended while there are fewer than the fixed count.
pub open spec fn completed_layers(layers: Seq<LayerView>, count: nat) -> Seq<LayerView>
    decreases count,
{
    if count == 0 {
        layers
    } else {
        let before = completed_layers(layers, (count - 1) as nat);
        if before.len() >= FIXED_LAYER_COUNT || has_layer_id(before, count as u64) {
            before
        } else {
            before.push(fixed_layer(count))
        }
    }
}

/// A layer inserted into layers ordered by identifier, after those whose
/// identifier is not larger.
pub open spec fn insert_by_id(sorted: Seq<LayerView>, layer: LayerView) -> Seq<LayerView>
    decreases sorted.len(),
{
    if sorted.len() == 0 {
        seq![layer]
    } else if sorted.last().id.spec_get() <= layer.id.spec_get() {
        sorted.push(layer)
    } else {
        insert_by_id(sorted.drop_last(), layer).push(sorted.last())
    }
}

/// The layers in order of identifier; layers with equal identifiers keep
/// their order (a stable sort).
pub open spec fn sorted_by_id(layers: Seq<LayerView>) -> Seq<LayerView>
    decreases layers.len(),
{
    if layers.len() == 0 {
        layers
    } else {
        insert_by_id(sorted_by_id(layers.drop_last()), layers.last())
    }
}

/// A layer with its session settings back at their defaults.
pub open spec fn reset_layer(layer: LayerView) -> LayerView {
    LayerView {
        visible: true,
        muted: false,
        volume_bits: DEFAULT_LAYER_VOLUME_BITS,
        opacity_bits: DEFAULT_LAYER_OPACITY_BITS,
        ..layer
    }
}

/// The layers of a loaded project: completed to the fixed layers, ordered
/// by identifier, session settings reset.
pub open spec fn loaded_layers(layers: Seq<LayerView>) -> Seq<LayerView> {
    sorted_by_id(completed_layers(layers, FIXED_LAYER_COUNT as nat)).map_values(
        |layer: LayerView| reset_layer(layer),
    )
}

/// The layer identifiers, in order.
pub open spec fn layer_id_values(layers: Seq<LayerView>) -> Seq<u64> {
    layers.map_values(|layer: LayerView| layer.id.spec_get())
}

/// The memo identifiers of all layers, layer by layer.
pub open spec fn memo_id_values(layers: Seq<LayerView>) -> Seq<u64>
    decreases layers.len(),
{
    if layers.len() == 0 {
        Seq::empty()
    } else {
        memo_id_values(layers.drop_last()) + layers.last().memos.map_values(
            |memo: PitchMemo| memo.id.spec_get(),
        )
    }
}

/// A project as loaded from data: the loaded layers; the first layer
/// selected and no memo; the next identifiers one past the largest in use;
/// nothing to undo; the data taken as saved and not dirty.
pub open spec fn loaded_state(data: ProjectDataView) -> ProjectStateView {
    let layers = loaded_layers(data.layers);
    let loaded = ProjectDataView { project_settings: data.project_settings, layers };
    ProjectStateView {
        data: loaded,
        selected_layer_id: if layers.len() > 0 {
            Some(layers[0].id)
        } else {
            None
        },
        selected_memo: None,
        dirty: false,
        next_layer_id: spec_next_id(layer_id_values(layers)),
        next_memo_id: spec_next_id(memo_id_values(layers)),
        undo_stack: Seq::empty(),
        saved_data: loaded,
    }
}

fn has_layer_value(layers: &Vec<PitchMemoLayer>, value: u64) -> (found: bool)
    ensures
        found == has_layer_id(layer_views(layers@), value),
{
    let ghost views = layer_views(layers@);
    let mut i: usize = 0;
    while i < layers.len()
        invariant
            views == layer_views(layers@),
            i <= layers@.len(),
            forall|j: int| 0 <= j < i ==> #[trigger] views[j].id.spec_get() != value,
        decreases layers@.len() - i,
    {
        assert(views[i as int] == layers@[i as int]@);
        if layers[i].id.get() == value {
            assert(views[i as int].id.spec_get() == value);
            return true;
        }
        i = i + 1;
    }
    false
}

fn complete_layers(layers: &mut Vec<PitchMemoLayer>)
    ensures
        layer_views(final(layers)@) == completed_layers(
            layer_views(old(layers)@),
            FIXED_LAYER_COUNT as nat,
        ),
{
    let ghost start = layer_views(layers@);
    let mut number: u64 = 1;
    while number <= 6
        invariant
            1 <= number <= 7,
            layer_views(layers@) == completed_layers(start, (number - 1) as nat),
        decreases 7 - number,
    {
        let ghost before = layers@;
        if layers.len() < FIXED_LAYER_COUNT && !has_layer_value(layers, number) {
            let mut name = String::from_str("Layer ");
            proof {
                reveal_strlit("Layer ");
            }
            crate::text::push_decimal(&mut name, number as u128);
            let id = match LayerId::new(number) {
                Some(id) => id,
                None => {
                    return ;
                },
            };
            layers.push(
                PitchMemoLayer {
                    id,
                    name,
                    visible: true,
                    muted: false,
                    volume_bits: DEFAULT_LAYER_VOLUME_BITS,
                    opacity_bits: DEFAULT_LAYER_OPACITY_BITS,
                    memos: Vec::new(),
                },
            );
            assert(layer_views(layers@) =~= layer_views(before).push(fixed_layer(number as nat)));
        }
        number = number + 1;
    }
}

/// Inserting after the layers whose identifier is not larger, when that
/// place is `at`.
proof fn lemma_insert_by_id_at(sorted: Seq<LayerView>, layer: LayerView, at: int)
    requires
        0 <= at <= sorted.len(),
        forall|j: int| at <= j < sorted.len() ==> #[trigger] sorted[j].id.spec_get() > layer.id.spec_get(),
        at == 0 || sorted[at - 1].id.spec_get() <= layer.id.spec_get(),
    ensures
        insert_by_id(sorted, layer) == sorted.insert(at, layer),
    decreases sorted.len(),
{
    if sorted.len() == 0 {
        assert(sorted.insert(at, layer) =~= seq![layer]);
    } else if sorted.last().id.spec_get() <= layer.id.spec_get() {
        assert(sorted.insert(at, layer) =~= sorted.push(layer));
    } else {
        let init = sorted.drop_last();
        lemma_insert_by_id_at(init, layer, at);
        assert(init.insert(at, layer).push(sorted.last()) =~= sorted.insert(at, layer));
    }
}

fn sort_layers_by_id(layers: Vec<PitchMemoLayer>) -> (sorted: Vec<PitchMemoLayer>)
    ensures
        layer_views(sorted@) == sorted_by_id(layer_views(layers@)),
{
    let ghost input = layer_views(layers@);
    let n = layers.len();
    let mut rest = layers;
    let mut sorted: Vec<PitchMemoLayer> = Vec::new();
    let mut k: usize = 0;
    assert(input.subrange(0, 0) =~= Seq::<LayerView>::empty());
    assert(layer_views(rest@) =~= input.subrange(0, n as int));
    while k < n
        invariant
            n == input.len(),
            k <= n,
            layer_views(rest@) == input.subrange(k as int, n as int),
            layer_views(sorted@) == sorted_by_id(input.subrange(0, k as int)),
        decreases n - k,
    {
        let ghost rest_before = rest@;
        assert(layer_views(rest_before).len() == rest_before.len());
        assert(rest_before.len() == n - k);
        assert(layer_views(rest_before)[0] == input[k as int]);
        let layer = rest.remove(0);
        assert(layer_views(rest@) =~= layer_views(rest_before).subrange(1, (n - k) as int));
        assert(layer_views(rest@) =~= input.subrange(k + 1, n as int));
        let ghost done = layer_views(sorted@);
        let mut at = sorted.len();
        while at > 0 && sorted[at - 1].id.get() > layer.id.get()
            invariant
                at <= sorted@.len(),
                done == layer_views(sorted@),
                forall|j: int| at <= j < sorted@.len() ==> #[trigger] done[j].id.spec_get() > layer@.id.spec_get(),
            decreases at,
        {
            assert(done[at - 1] == sorted@[at - 1]@);
            at = at - 1;
        }
        proof {
            if at > 0 {
                assert(done[at - 1] == sorted@[at - 1]@);
            }
            lemma_insert_by_id_at(done, layer@, at as int);
        }
        let ghost sorted_before = sorted@;
        sorted.insert(at, layer);
        assert(layer_views(sorted@) =~= done.insert(at as int, layer@));
        assert(input.subrange(0, k + 1).drop_last() =~= input.subrange(0, k as int));
        assert(input.subrange(0, k + 1).last() == input[k as int]);
        k = k + 1;
    }
    assert(input.subrange(0, n as int) =~= input);
    sorted
}

fn reset_runtime_layer_settings(layers: &mut Vec<PitchMemoLayer>)
    ensures
        layer_views(final(layers)@) == layer_views(old(layers)@).map_values(
            |layer: LayerView| reset_layer(layer),
        ),
{
    let ghost start = layer_views(layers@);
    let mut i: usize = 0;
    while i < layers.len()
        invariant
            i <= layers@.len(),
            layers@.len() == start.len(),
            forall|j: int| 0 <= j < i ==> #[trigger] layer_views(layers@)[j] == reset_layer(start[j]),
            forall|j: int| i <= j < layers@.len() ==> #[trigger] layer_views(layers@)[j] == start[j],
        decreases layers@.len() - i,
    {
        let ghost before = layers@;
        let mut layer = layers.remove(i);
        layer.visible = true;
        layer.muted = false;
        layer.volume_bits = DEFAULT_LAYER_VOLUME_BITS;
        layer.opacity_bits = DEFAULT_LAYER_OPACITY_BITS;
        layers.insert(i, layer);
        proof {
            lemma_replaced_layer(before, i as int, layers@[i as int]);
            assert(layer_views(before)[i as int] == start[i as int]);
            assert(layer_views(layers@)[i as int] == reset_layer(start[i as int]));
            assert forall|j: int| 0 <= j < i + 1 implies #[trigger] layer_views(layers@)[j]
                == reset_layer(start[j]) by {
                if j < i {
                    assert(layer_views(before)[j] == reset_layer(start[j]));
                }
            }
            assert forall|j: int| i + 1 <= j < layers@.len() implies #[trigger] layer_views(
                layers@,
            )[j] == start[j] by {
                assert(layer_views(before)[j] == start[j]);
            }
        }
        i = i + 1;
    }
    assert(layer_views(layers@) =~= start.map_values(|layer: LayerView| reset_layer(layer)));
}

fn layer_ids(layers: &Vec<PitchMemoLayer>) -> (ids: Vec<u64>)
    ensures
        ids@ == layer_id_values(layer_views(layers@)),
{
    let mut ids: Vec<u64> = Vec::new();
    let mut i: usize = 0;
    while i < layers.len()
        invariant
            i <= layers@.len(),
            ids@ == layer_id_values(layer_views(layers@.subrange(0, i as int))),
        decreases layers@.len() - i,
    {
        ids.push(layers[i].id.get());
        assert(ids@ =~= layer_id_values(layer_views(layers@.subrange(0, i + 1))));
        i = i + 1;
    }
    assert(layers@.subrange(0, i as int) =~= layers@);
    ids
}

fn memo_ids(layers: &Vec<PitchMemoLayer>) -> (ids: Vec<u64>)
    ensures
        ids@ == memo_id_values(layer_views(layers@)),
{
    let ghost views = layer_views(layers@);
    let mut ids: Vec<u64> = Vec::new();
    let mut i: usize = 0;
    while i < layers.len()
        invariant
            views == layer_views(layers@),
            i <= layers@.len(),
            ids@ == memo_id_values(views.subrange(0, i as int)),
        decreases layers@.len() - i,
    {
        let memos = &layers[i].memos;
        assert(views[i as int].memos == memos@);
        let ghost before = ids@;
        let mut j: usize = 0;
        while j < memos.len()
            invariant
                j <= memos@.len(),
                ids@ == before + memos@.subrange(0, j as int).map_values(
                    |memo: PitchMemo| memo.id.spec_get(),
                ),
            decreases memos@.len() - j,
        {
            ids.push(memos[j].id.get());
            assert(ids@ =~= before + memos@.subrange(0, j + 1).map_values(
                |memo: PitchMemo| memo.id.spec_get(),
            ));
            j = j + 1;
        }
        assert(memos@.subrange(0, j as int) =~= memos@);
        assert(views.subrange(0, i + 1).drop_last() =~= views.subrange(0, i as int));
        i = i + 1;
    }
    assert(views.subrange(0, i as int) =~= views);
    ids
}

impl ProjectState {
    /// Opens project data for editing: the layers completed to the fixed
    /// layers 1 to 6 and ordered by identifier, their session settings
    /// reset; identifiers handed out after the largest in use; the first
    /// layer selected; the data taken as saved.
    pub fn from_data(data: ProjectData) -> (state: ProjectState)
        ensures
            state@ == loaded_state(data@),
    {
        let ghost input = data@;
        let settings = data.project_settings;
        let mut layers = data.layers;
        complete_layers(&mut layers);
        let mut layers = sort_layers_by_id(layers);
        reset_runtime_layer_settings(&mut layers);
        let layer_values = layer_ids(&layers);
        let memo_values = memo_ids(&layers);
        let next_layer_id = next_id(layer_values.as_slice());
        let next_memo_id = next_id(memo_values.as_slice());
        let selected_layer_id = if layers.len() > 0 {
            Some(layers[0].id)
        } else {
            None
        };
        let data = ProjectData { project_settings: settings, layers };
        let saved_data = copy_data(&data);
        let state = ProjectState {
            data,
            editing: ProjectEditingState {
                selected_layer_id,
                selected_memo: None,
                dirty: false,
                next_layer_id,
                next_memo_id,
                undo_stack: Vec::new(),
                saved_data,
            },
        };
        assert(state@.data =~= loaded_state(input).data);
        state
    }

    /// A new project: the six fixed layers, default settings, the first
    /// layer selected, saved.
    pub fn new() -> (state: ProjectState)
        ensures
            state@ == refreshed(loaded_state(ProjectDataView {
                project_settings: state@.data.project_settings,
                layers: Seq::empty(),
            })),
            is_default_project_settings(state@.data.project_settings),
    {
        let empty = ProjectData::default();
        assert(empty@.layers =~= Seq::<LayerView>::empty());
        let ghost empty_view = empty@;
        let mut state = ProjectState::from_data(empty);
        assert(state@ == loaded_state(ProjectDataView {
            project_settings: state@.data.project_settings,
            layers: Seq::empty(),
        })) by {
            assert(empty_view =~= ProjectDataView {
                project_settings: empty_view.project_settings,
                layers: Seq::empty(),
            });
        }
        state.editing.selected_layer_id = if state.data.layers.len() > 0 {
            assert(state@.data.layers[0] == state.data.layers@[0]@);
            Some(state.data.layers[0].id)
        } else {
            None
        };
        state.mark_saved();
        state
    }
}

/// A memo placed by `add_memo` gets an identifier no memo of the project
/// had.
pub proof fn lemma_added_memo_id_is_new(s: ProjectStateView, layer_id: LayerId)
    requires
        ids_are_fresh(s),
        add_memo_target(s, layer_id) is Some,
    ensures
        forall|li: int, mi: int|
            0 <= li < s.data.layers.len() && 0 <= mi < s.data.layers[li].memos.len()
                ==> #[trigger] s.data.layers[li].memos[mi].id != MemoId::spec_new(s.next_memo_id),
{
    MemoId::lemma_get_new(s.next_memo_id);
    assert forall|li: int, mi: int|
        0 <= li < s.data.layers.len() && 0 <= mi < s.data.layers[li].memos.len()
            implies #[trigger] s.data.layers[li].memos[mi].id != MemoId::spec_new(s.next_memo_id) by {
        assert(s.data.layers[li].memos[mi].id.spec_get() < s.next_memo_id);
    }
}

/// Placing a memo keeps identifiers fresh.
pub proof fn lemma_add_memo_keeps_ids_fresh(
    s: ProjectStateView,
    layer_id: LayerId,
    start_sec_bits: u64,
    duration_sec_bits: u64,
    pitch_midi: i32,
)
    requires
        ids_are_fresh(s),
    ensures
        ids_are_fresh(state_after_add_memo(s, layer_id, start_sec_bits, duration_sec_bits, pitch_midi)),
{
    if let Some(li) = add_memo_target(s, layer_id) {
        lemma_layer_position(s.data.layers, layer_id);
        MemoId::lemma_get_new(s.next_memo_id);
        let t = state_after_add_memo(s, layer_id, start_sec_bits, duration_sec_bits, pitch_midi);
        if s.next_memo_id != 0 {
            assert forall|i: int, j: int|
                0 <= i < t.data.layers.len() && 0 <= j < t.data.layers[i].memos.len()
                    implies #[trigger] t.data.layers[i].memos[j].id.spec_get() < t.next_memo_id by {
                if i != li || j < s.data.layers[li].memos.len() {
                    assert(s.data.layers[i].memos[j].id.spec_get() < s.next_memo_id);
                }
            }
        }
        if s.next_memo_id != 0 {
            assert forall|k: int| 0 <= k < t.undo_stack.len() implies #[trigger] edit_memo_id(
                t.undo_stack[k],
            ) < t.next_memo_id by {
                if k < s.undo_stack.len() {
                    assert(edit_memo_id(s.undo_stack[k]) < s.next_memo_id);
                }
            }
        }
        if s.next_layer_id != 0 {
            assert forall|i: int| 0 <= i < t.data.layers.len() implies #[trigger] t.data.layers[i].id.spec_get()
                < t.next_layer_id by {
                assert(s.data.layers[i].id.spec_get() < s.next_layer_id);
            }
        }
    }
}

/// Deleting a memo keeps identifiers fresh.
pub proof fn lemma_delete_memo_keeps_ids_fresh(s: ProjectStateView, selected: SelectedMemo)
    requires
        ids_are_fresh(s),
    ensures
        ids_are_fresh(state_after_delete_memo(s, selected)),
{
    if let Some((li, mi)) = memo_target(s, selected) {
        lemma_layer_position(s.data.layers, selected.layer_id);
        lemma_memo_position(s.data.layers[li].memos, selected.memo_id);
        let t = state_after_delete_memo(s, selected);
        let memos = s.data.layers[li].memos;
        if s.next_memo_id != 0 {
            assert forall|i: int, j: int|
                0 <= i < t.data.layers.len() && 0 <= j < t.data.layers[i].memos.len()
                    implies #[trigger] t.data.layers[i].memos[j].id.spec_get() < t.next_memo_id by {
                if i != li {
                    assert(s.data.layers[i].memos[j].id.spec_get() < s.next_memo_id);
                } else if j < mi {
                    assert(memos[j].id.spec_get() < s.next_memo_id);
                } else {
                    assert(memos[j + 1].id.spec_get() < s.next_memo_id);
                }
            }
        }
        if s.next_memo_id != 0 {
            assert forall|k: int| 0 <= k < t.undo_stack.len() implies #[trigger] edit_memo_id(
                t.undo_stack[k],
            ) < t.next_memo_id by {
                if k < s.undo_stack.len() {
                    assert(edit_memo_id(s.undo_stack[k]) < s.next_memo_id);
                } else {
                    assert(memos[mi].id.spec_get() < s.next_memo_id);
                }
            }
        }
        if s.next_layer_id != 0 {
            assert forall|i: int| 0 <= i < t.data.layers.len() implies #[trigger] t.data.layers[i].id.spec_get()
                < t.next_layer_id by {
                assert(s.data.layers[i].id.spec_get() < s.next_layer_id);
            }
        }
    }
}

/// Updating a memo keeps identifiers fresh.
pub proof fn lemma_update_memo_keeps_ids_fresh(
    s: ProjectStateView,
    selected: SelectedMemo,
    start_sec_bits: u64,
    duration_sec_bits: u64,
    pitch_midi: i32,
)
    requires
        ids_are_fresh(s),
    ensures
        ids_are_fresh(
            state_after_update_memo(s, selected, start_sec_bits, duration_sec_bits, pitch_midi),
        ),
{
    if update_changes(s, selected, start_sec_bits, duration_sec_bits, pitch_midi) {
        let (li, mi) = memo_target(s, selected)->0;
        lemma_layer_position(s.data.layers, selected.layer_id);
        lemma_memo_position(s.data.layers[li].memos, selected.memo_id);
        let t = state_after_update_memo(s, selected, start_sec_bits, duration_sec_bits, pitch_midi);
        let memos = s.data.layers[li].memos;
        if s.next_memo_id != 0 {
            assert forall|i: int, j: int|
                0 <= i < t.data.layers.len() && 0 <= j < t.data.layers[i].memos.len()
                    implies #[trigger] t.data.layers[i].memos[j].id.spec_get() < t.next_memo_id by {
                assert(s.data.layers[i].memos[j].id.spec_get() < s.next_memo_id);
            }
        }
        if s.next_memo_id != 0 {
            assert forall|k: int| 0 <= k < t.undo_stack.len() implies #[trigger] edit_memo_id(
                t.undo_stack[k],
            ) < t.next_memo_id by {
                if k < s.undo_stack.len() {
                    assert(edit_memo_id(s.undo_stack[k]) < s.next_memo_id);
                } else {
                    assert(memos[mi].id.spec_get() < s.next_memo_id);
                }
            }
        }
        if s.next_layer_id != 0 {
            assert forall|i: int| 0 <= i < t.data.layers.len() implies #[trigger] t.data.layers[i].id.spec_get()
                < t.next_layer_id by {
                assert(s.data.layers[i].id.spec_get() < s.next_layer_id);
            }
        }
    }
}

/// Undoing keeps identifiers fresh.
pub proof fn lemma_undo_keeps_ids_fresh(s: ProjectStateView)
    requires
        ids_are_fresh(s),
    ensures
        ids_are_fresh(state_after_undo(s)),
{
    if s.undo_stack.len() > 0 {
        let t = state_after_undo(s);
        let last = s.undo_stack.last();
        assert(s.next_memo_id != 0 ==> edit_memo_id(s.undo_stack[s.undo_stack.len() - 1])
            < s.next_memo_id);
        if s.next_memo_id != 0 {
            assert forall|k: int| 0 <= k < t.undo_stack.len() implies #[trigger] edit_memo_id(
                t.undo_stack[k],
            ) < t.next_memo_id by {
                assert(edit_memo_id(s.undo_stack[k]) < s.next_memo_id);
            }
        }
        if s.next_layer_id != 0 {
            assert forall|i: int| 0 <= i < t.data.layers.len() implies #[trigger] t.data.layers[i].id.spec_get()
                < t.next_layer_id by {
                assert(s.data.layers[i].id.spec_get() < s.next_layer_id);
            }
        }
        match last {
            ProjectEdit::Added(selected) => {
                if let Some((li, mi)) = memo_target(s, selected) {
                    lemma_layer_position(s.data.layers, selected.layer_id);
                    let memos = s.data.layers[li].memos;
                    if s.next_memo_id != 0 {
                        assert forall|i: int, j: int|
                            0 <= i < t.data.layers.len() && 0 <= j < t.data.layers[i].memos.len()
                                implies #[trigger] t.data.layers[i].memos[j].id.spec_get()
                                < t.next_memo_id by {
                            if i != li {
                                assert(s.data.layers[i].memos[j].id.spec_get() < s.next_memo_id);
                            } else if j < mi {
                                assert(memos[j].id.spec_get() < s.next_memo_id);
                            } else {
                                assert(memos[j + 1].id.spec_get() < s.next_memo_id);
                            }
                        }
                    }
                }
            },
            ProjectEdit::Deleted { selected, index, memo } => {
                if let Some(li) = layer_position(s.data.layers, selected.layer_id) {
                    lemma_layer_position(s.data.layers, selected.layer_id);
                    let memos = s.data.layers[li].memos;
                    let at = if index < memos.len() {
                        index as int
                    } else {
                        memos.len() as int
                    };
                    if s.next_memo_id != 0 {
                        assert forall|i: int, j: int|
                            0 <= i < t.data.layers.len() && 0 <= j < t.data.layers[i].memos.len()
                                implies #[trigger] t.data.layers[i].memos[j].id.spec_get()
                                < t.next_memo_id by {
                            if i != li {
                                assert(s.data.layers[i].memos[j].id.spec_get() < s.next_memo_id);
                            } else if j < at {
                                assert(memos[j].id.spec_get() < s.next_memo_id);
                            } else if j > at {
                                assert(memos[j - 1].id.spec_get() < s.next_memo_id);
                            }
                        }
                    }
                } else {
                    if s.next_memo_id != 0 {
                        assert forall|i: int, j: int|
                            0 <= i < t.data.layers.len() && 0 <= j < t.data.layers[i].memos.len()
                                implies #[trigger] t.data.layers[i].memos[j].id.spec_get()
                                < t.next_memo_id by {
                            assert(s.data.layers[i].memos[j].id.spec_get() < s.next_memo_id);
                        }
                    }
                }
            },
            ProjectEdit::Updated { selected, before } => {
                if let Some((li, mi)) = memo_target(s, selected) {
                    lemma_layer_position(s.data.layers, selected.layer_id);
                    if s.next_memo_id != 0 {
                        assert forall|i: int, j: int|
                            0 <= i < t.data.layers.len() && 0 <= j < t.data.layers[i].memos.len()
                                implies #[trigger] t.data.layers[i].memos[j].id.spec_get()
                                < t.next_memo_id by {
                            if i != li || j != mi {
                                assert(s.data.layers[i].memos[j].id.spec_get() < s.next_memo_id);
                            }
                        }
                    }
                } else {
                    if s.next_memo_id != 0 {
                        assert forall|i: int, j: int|
                            0 <= i < t.data.layers.len() && 0 <= j < t.data.layers[i].memos.len()
                                implies #[trigger] t.data.layers[i].memos[j].id.spec_get()
                                < t.next_memo_id by {
                            assert(s.data.layers[i].memos[j].id.spec_get() < s.next_memo_id);
                        }
                    }
                }
            },
        }
    }
}

/// Adding a layer and giving every layer a session setting keep
/// identifiers fresh.
pub proof fn lemma_layer_changes_keep_ids_fresh(
    s: ProjectStateView,
    name: Seq<char>,
    setting: LayerSetting,
)
    requires
        ids_are_fresh(s),
    ensures
        ids_are_fresh(state_after_add_layer(s, name)),
        ids_are_fresh(state_with_setting(s, setting)),
        ids_are_fresh(refreshed(ProjectStateView { saved_data: s.data, ..s })),
{
    let t = state_after_add_layer(s, name);
    if add_layer_allowed(s) {
        LayerId::lemma_get_new(s.next_layer_id);
        if s.next_memo_id != 0 {
            assert forall|i: int, j: int|
                0 <= i < t.data.layers.len() && 0 <= j < t.data.layers[i].memos.len()
                    implies #[trigger] t.data.layers[i].memos[j].id.spec_get() < t.next_memo_id by {
                assert(s.data.layers[i].memos[j].id.spec_get() < s.next_memo_id);
            }
        }
        if s.next_layer_id != 0 {
            assert forall|i: int| 0 <= i < t.data.layers.len() implies #[trigger] t.data.layers[i].id.spec_get()
                < t.next_layer_id by {
                if i < s.data.layers.len() {
                    assert(s.data.layers[i].id.spec_get() < s.next_layer_id);
                }
            }
        }
    }
    let u = state_with_setting(s, setting);
    if s.next_memo_id != 0 {
        assert forall|i: int, j: int|
            0 <= i < u.data.layers.len() && 0 <= j < u.data.layers[i].memos.len()
                implies #[trigger] u.data.layers[i].memos[j].id.spec_get() < u.next_memo_id by {
            assert(s.data.layers[i].memos[j].id.spec_get() < s.next_memo_id);
        }
    }
    if s.next_layer_id != 0 {
        assert forall|i: int| 0 <= i < u.data.layers.len() implies #[trigger] u.data.layers[i].id.spec_get()
            < u.next_layer_id by {
            assert(s.data.layers[i].id.spec_get() < s.next_layer_id);
        }
    }
}

proof fn lemma_memo_id_listed(layers: Seq<LayerView>, li: int, mi: int)
    requires
        0 <= li < layers.len(),
        0 <= mi < layers[li].memos.len(),
    ensures
        exists|k: int|
            0 <= k < memo_id_values(layers).len() && memo_id_values(layers)[k]
                == layers[li].memos[mi].id.spec_get(),
    decreases layers.len(),
{
    let init = layers.drop_last();
    let tail = layers.last().memos.map_values(|memo: PitchMemo| memo.id.spec_get());
    assert(memo_id_values(layers) == memo_id_values(init) + tail);
    if li < layers.len() - 1 {
        assert(init[li] == layers[li]);
        lemma_memo_id_listed(init, li, mi);
        let k = choose|k: int|
            0 <= k < memo_id_values(init).len() && memo_id_values(init)[k]
                == init[li].memos[mi].id.spec_get();
        assert(memo_id_values(layers)[k] == memo_id_values(init)[k]);
    } else {
        let k = memo_id_values(init).len() + mi;
        assert(memo_id_values(layers)[k] == tail[mi]);
    }
}

/// A loaded project hands out identifiers that no layer or memo of it has.
pub proof fn lemma_loaded_ids_are_fresh(data: ProjectDataView)
    ensures
        ids_are_fresh(loaded_state(data)),
{
    let s = loaded_state(data);
    let layers = s.data.layers;
    lemma_next_id_is_fresh(memo_id_values(layers));
    lemma_next_id_is_fresh(layer_id_values(layers));
    if s.next_memo_id != 0 {
        assert forall|li: int, mi: int|
            0 <= li < layers.len() && 0 <= mi < layers[li].memos.len()
                implies #[trigger] layers[li].memos[mi].id.spec_get() < s.next_memo_id by {
            lemma_memo_id_listed(layers, li, mi);
        }
    }
    if s.next_layer_id != 0 {
        assert forall|li: int| 0 <= li < layers.len() implies #[trigger] layers[li].id.spec_get()
            < s.next_layer_id by {
            assert(layer_id_values(layers)[li] == layers[li].id.spec_get());
        }
    }
}

/// Whether `dirty` tells whether the data differs from what was saved.
pub open spec fn dirty_is_current(s: ProjectStateView) -> bool {
    s.dirty == !persistent_same(s.data, s.saved_data)
}

/// Session settings are not saved: giving one to every layer neither makes
/// the project dirty nor clean.
pub proof fn lemma_setting_keeps_dirty_current(s: ProjectStateView, setting: LayerSetting)
    requires
        dirty_is_current(s),
    ensures
        dirty_is_current(state_with_setting(s, setting)),
        persistent_same(state_with_setting(s, setting).data, s.saved_data) == persistent_same(
            s.data,
            s.saved_data,
        ),
{
    let t = state_with_setting(s, setting);
    assert forall|i: int| 0 <= i < t.data.layers.len() implies layer_same(
        #[trigger] t.data.layers[i],
        s.saved_data.layers[i],
    ) == layer_same(s.data.layers[i], s.saved_data.layers[i]) by {
        assert(t.data.layers[i] == with_setting(s.data.layers[i], setting));
    }
    if persistent_same(t.data, s.saved_data) {
        assert forall|i: int| 0 <= i < s.data.layers.len() implies layer_same(
            #[trigger] s.data.layers[i],
            s.saved_data.layers[i],
        ) by {
            assert(layer_same(t.data.layers[i], s.saved_data.layers[i]));
        }
    }
    if persistent_same(s.data, s.saved_data) {
        assert forall|i: int| 0 <= i < t.data.layers.len() implies layer_same(
            #[trigger] t.data.layers[i],
            s.saved_data.layers[i],
        ) by {
            assert(layer_same(s.data.layers[i], s.saved_data.layers[i]));
        }
    }
}

/// No floating value of the project is a NaN.
pub open spec fn has_no_nan(data: ProjectDataView) -> bool {
    &&& !f32_bits_nan(data.project_settings.preview_reference_a4_hz_bits)
    &&& forall|i: int|
        0 <= i < EQ_BAND_COUNT ==> !f32_bits_nan(
            #[trigger] data.project_settings.equalizer_gains_db_bits@[i],
        )
    &&& !f32_bits_nan(data.project_settings.fundamental_analysis.emphasis_bits)
    &&& !f32_bits_nan(
        data.project_settings.fundamental_analysis.unemphasized_pitch_attenuation_bits,
    )
    &&& forall|li: int, mi: int|
        0 <= li < data.layers.len() && 0 <= mi < data.layers[li].memos.len() ==> {
            let memo = #[trigger] data.layers[li].memos[mi];
            !f64_bits_nan(memo.start_sec_bits) && !f64_bits_nan(memo.duration_sec_bits)
        }
}

/// Right after saving, a project is clean, unless a floating value of it is
/// a NaN (which `==` finds different from itself).
pub proof fn lemma_saved_project_is_clean(s: ProjectStateView)
    requires
        has_no_nan(s.data),
    ensures
        !refreshed(ProjectStateView { saved_data: s.data, ..s }).dirty,
{
    let d = s.data;
    assert forall|i: int| 0 <= i < d.layers.len() implies layer_same(
        #[trigger] d.layers[i],
        d.layers[i],
    ) by {
        assert forall|j: int| 0 <= j < d.layers[i].memos.len() implies memo_same(
            #[trigger] d.layers[i].memos[j],
            d.layers[i].memos[j],
        ) by {
            let memo = d.layers[i].memos[j];
            assert(!f64_bits_nan(memo.start_sec_bits) && !f64_bits_nan(memo.duration_sec_bits));
        }
    }
    assert forall|i: int| 0 <= i < EQ_BAND_COUNT implies f32_bits_equal(
        #[trigger] d.project_settings.equalizer_gains_db_bits@[i],
        d.project_settings.equalizer_gains_db_bits@[i],
    ) by {
        assert(!f32_bits_nan(d.project_settings.equalizer_gains_db_bits@[i]));
    }
}

/// Layers in order of identifier.
pub open spec fn ordered_by_id(layers: Seq<LayerView>) -> bool {
    forall|i: int, j: int|
        0 <= i < j < layers.len() ==> #[trigger] layers[i].id.spec_get()
            <= #[trigger] layers[j].id.spec_get()
}

proof fn lemma_insert_by_id_bound(sorted: Seq<LayerView>, layer: LayerView, bound: u64)
    requires
        forall|i: int| 0 <= i < sorted.len() ==> #[trigger] sorted[i].id.spec_get() <= bound,
        layer.id.spec_get() <= bound,
    ensures
        insert_by_id(sorted, layer).len() == sorted.len() + 1,
        forall|i: int|
            0 <= i < insert_by_id(sorted, layer).len() ==> #[trigger] insert_by_id(
                sorted,
                layer,
            )[i].id.spec_get() <= bound,
    decreases sorted.len(),
{
    if sorted.len() > 0 && sorted.last().id.spec_get() > layer.id.spec_get() {
        let init = sorted.drop_last();
        lemma_insert_by_id_bound(init, layer, bound);
    }
}

proof fn lemma_insert_by_id_ordered(sorted: Seq<LayerView>, layer: LayerView)
    requires
        ordered_by_id(sorted),
    ensures
        ordered_by_id(insert_by_id(sorted, layer)),
        insert_by_id(sorted, layer).len() == sorted.len() + 1,
    decreases sorted.len(),
{
    if sorted.len() > 0 && sorted.last().id.spec_get() > layer.id.spec_get() {
        let init = sorted.drop_last();
        let last = sorted.last();
        lemma_insert_by_id_ordered(init, layer);
        assert forall|i: int| 0 <= i < init.len() implies #[trigger] init[i].id.spec_get()
            <= last.id.spec_get() by {
            assert(sorted[i].id.spec_get() <= sorted[sorted.len() - 1].id.spec_get());
        }
        lemma_insert_by_id_bound(init, layer, last.id.spec_get());
        let r = insert_by_id(init, layer);
        assert forall|i: int, j: int| 0 <= i < j < r.push(last).len() implies #[trigger] r.push(
            last,
        )[i].id.spec_get() <= #[trigger] r.push(last)[j].id.spec_get() by {
            if j < r.len() {
                assert(r[i].id.spec_get() <= r[j].id.spec_get());
            } else {
                assert(r[i].id.spec_get() <= last.id.spec_get());
            }
        }
    } else if sorted.len() > 0 {
        let pushed = sorted.push(layer);
        assert forall|i: int, j: int| 0 <= i < j < pushed.len() implies #[trigger] pushed[i].id.spec_get()
            <= #[trigger] pushed[j].id.spec_get() by {
            if j == sorted.len() {
                assert(sorted[i].id.spec_get() <= sorted[sorted.len() - 1].id.spec_get());
            }
        }
    }
}

proof fn lemma_sorted_by_id_ordered(layers: Seq<LayerView>)
    ensures
        ordered_by_id(sorted_by_id(layers)),
        sorted_by_id(layers).len() == layers.len(),
    decreases layers.len(),
{
    if layers.len() > 0 {
        lemma_sorted_by_id_ordered(layers.drop_last());
        lemma_insert_by_id_ordered(sorted_by_id(layers.drop_last()), layers.last());
    }
}

/// The layers of a loaded project are in order of identifier.
pub proof fn lemma_loaded_layers_are_ordered(layers: Seq<LayerView>)
    ensures
        ordered_by_id(loaded_layers(layers)),
{
    let sorted = sorted_by_id(completed_layers(layers, FIXED_LAYER_COUNT as nat));
    lemma_sorted_by_id_ordered(completed_layers(layers, FIXED_LAYER_COUNT as nat));
    let loaded = loaded_layers(layers);
    assert forall|i: int, j: int| 0 <= i < j < loaded.len() implies #[trigger] loaded[i].id.spec_get()
        <= #[trigger] loaded[j].id.spec_get() by {
        assert(sorted[i].id.spec_get() <= sorted[j].id.spec_get());
    }
}

proof fn lemma_completion_covers(layers: Seq<LayerView>, count: nat)
    requires
        count <= FIXED_LAYER_COUNT,
    ensures
        completed_layers(layers, count).len() >= FIXED_LAYER_COUNT || forall|number: u64|
            1 <= number <= count ==> #[trigger] has_layer_id(completed_layers(layers, count), number),
    decreases count,
{
    if count > 0 {
        let before = completed_layers(layers, (count - 1) as nat);
        lemma_completion_covers(layers, (count - 1) as nat);
        let after = completed_layers(layers, count);
        if after.len() < FIXED_LAYER_COUNT {
            assert forall|number: u64| 1 <= number <= count implies #[trigger] has_layer_id(
                after,
                number,
            ) by {
                if number < count {
                    assert(has_layer_id(before, number));
                    let i = choose|i: int| 0 <= i < before.len() && #[trigger] before[i].id.spec_get() == number;
                    assert(after[i] == before[i]);
                } else if !has_layer_id(before, count as u64) {
                    LayerId::lemma_get_new(count as u64);
                    assert(after[before.len() as int] == fixed_layer(count));
                    assert(after[before.len() as int].id.spec_get() == number);
                }
            }
        }
    }
}

/// A loaded project has at least the fixed number of layers: every missing
/// fixed layer is filled in while there are fewer.
pub proof fn lemma_loaded_project_has_fixed_layers(layers: Seq<LayerView>)
    ensures
        loaded_layers(layers).len() >= FIXED_LAYER_COUNT,
{
    let completed = completed_layers(layers, FIXED_LAYER_COUNT as nat);
    lemma_completion_covers(layers, FIXED_LAYER_COUNT as nat);
    lemma_sorted_by_id_ordered(completed);
    if completed.len() < FIXED_LAYER_COUNT {
        let values = completed.map_values(|layer: LayerView| layer.id.spec_get() as int);
        let wanted = vstd::set_lib::set_int_range(1, 7);
        vstd::set_lib::lemma_int_range(1, 7);
        assert forall|n: int| wanted.contains(n) implies values.to_set().contains(n) by {
            assert(has_layer_id(completed, n as u64));
            let i = choose|i: int| 0 <= i < completed.len() && #[trigger] completed[i].id.spec_get() == n as u64;
            assert(values[i] == n);
        }
        vstd::seq_lib::seq_to_set_is_finite(values);
        vstd::set_lib::lemma_len_subset(wanted, values.to_set());
        values.lemma_cardinality_of_set();
    }
}

} // verus!
