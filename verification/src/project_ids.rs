use vstd::prelude::*;

verus! {

/// The identifier of a memo layer; zero only where a saved project holds
/// it, which validation rejects.
#[derive(Debug, Clone, Copy, PartialEq, Eq, Hash, PartialOrd, Ord, Structural)]
pub struct LayerId {
    value: u64,
}

impl LayerId {
    pub closed spec fn spec_get(self) -> u64 {
        self.value
    }

    pub closed spec fn spec_new(value: u64) -> LayerId {
        LayerId { value }
    }

    pub proof fn lemma_get_new(value: u64)
        ensures
            Self::spec_new(value).spec_get() == value,
    {
    }

    pub proof fn lemma_eq_by_value(a: LayerId, b: LayerId)
        ensures
            (a == b) <==> (a.spec_get() == b.spec_get()),
    {
    }

    /// The identifier with this value, `None` for zero.
    pub fn new(value: u64) -> (id: Option<LayerId>)
        ensures
            match id {
                Some(id) => value != 0 && id.spec_get() == value && id == Self::spec_new(value),
                None => value == 0,
            },
    {
        if value == 0 {
            None
        } else {
            Some(LayerId { value })
        }
    }

    /// The identifier as a saved project holds it, which may be zero;
    /// validation of the project rejects zero.
    pub fn from_stored(value: u64) -> (id: Self)
        ensures
            id.spec_get() == value,
            id == Self::spec_new(value),
    {
        Self { value }
    }

    pub fn get(self) -> (value: u64)
        ensures
            value == self.spec_get(),
    {
        self.value
    }
}

/// The identifier of a pitch memo; zero only where a saved project holds
/// it, which validation rejects.
#[derive(Debug, Clone, Copy, PartialEq, Eq, Hash, PartialOrd, Ord, Structural)]
pub struct MemoId {
    value: u64,
}

impl MemoId {
    pub closed spec fn spec_get(self) -> u64 {
        self.value
    }

    pub closed spec fn spec_new(value: u64) -> MemoId {
        MemoId { value }
    }

    pub proof fn lemma_get_new(value: u64)
        ensures
            Self::spec_new(value).spec_get() == value,
    {
    }

    pub proof fn lemma_eq_by_value(a: MemoId, b: MemoId)
        ensures
            (a == b) <==> (a.spec_get() == b.spec_get()),
    {
    }

    /// The identifier with this value, `None` for zero.
    pub fn new(value: u64) -> (id: Option<MemoId>)
        ensures
            match id {
                Some(id) => value != 0 && id.spec_get() == value && id == Self::spec_new(value),
                None => value == 0,
            },
    {
        if value == 0 {
            None
        } else {
            Some(MemoId { value })
        }
    }

    /// The identifier as a saved project holds it, which may be zero;
    /// validation of the project rejects zero.
    pub fn from_stored(value: u64) -> (id: Self)
        ensures
            id.spec_get() == value,
            id == Self::spec_new(value),
    {
        Self { value }
    }

    pub fn get(self) -> (value: u64)
        ensures
            value == self.spec_get(),
    {
        self.value
    }
}

/// A memo named by its layer and its own identifier.
#[derive(Debug, Clone, Copy, PartialEq, Eq, Structural)]
pub struct SelectedMemo {
    pub layer_id: LayerId,
    pub memo_id: MemoId,
}

/// The largest value of a sequence of identifiers, 0 for none.
pub open spec fn max_value(values: Seq<u64>) -> u64
    decreases values.len(),
{
    if values.len() == 0 {
        0
    } else {
        let rest = max_value(values.drop_last());
        if values.last() > rest {
            values.last()
        } else {
            rest
        }
    }
}

/// The identifier to hand out after `values`: one past the largest, 1 when
/// there are none, and 0 (no identifier left) after `u64::MAX`.
pub open spec fn spec_next_id(values: Seq<u64>) -> u64 {
    if values.len() == 0 {
        1
    } else if max_value(values) == u64::MAX {
        0
    } else {
        (max_value(values) + 1) as u64
    }
}

proof fn lemma_max_value_bounds(values: Seq<u64>)
    ensures
        forall|i: int| 0 <= i < values.len() ==> values[i] <= max_value(values),
        values.len() > 0 ==> values.contains(max_value(values)),
    decreases values.len(),
{
    if values.len() > 0 {
        let rest = values.drop_last();
        lemma_max_value_bounds(rest);
        assert forall|i: int| 0 <= i < values.len() implies values[i] <= max_value(values) by {
            if i < values.len() - 1 {
                assert(rest[i] == values[i]);
            }
        }
        if rest.len() == 0 {
            assert(values[0] == max_value(values));
        } else if values.last() <= max_value(rest) {
            let k = choose|k: int| 0 <= k < rest.len() && rest[k] == max_value(rest);
            assert(values[k] == max_value(values));
        } else {
            assert(values[values.len() - 1] == max_value(values));
        }
    }
}

/// The next identifier is fresh: larger than every identifier given, unless
/// identifiers ran out (then it is 0, which is never an identifier).
pub proof fn lemma_next_id_is_fresh(values: Seq<u64>)
    ensures
        spec_next_id(values) != 0 ==> forall|i: int|
            0 <= i < values.len() ==> values[i] < spec_next_id(values),
        spec_next_id(values) == 0 ==> values.contains(u64::MAX),
{
    lemma_max_value_bounds(values);
}

pub fn next_id(values: &[u64]) -> (next: u64)
    ensures
        next == spec_next_id(values@),
{
    if values.len() == 0 {
        return 1;
    }
    let mut max: u64 = 0;
    let mut index: usize = 0;
    while index < values.len()
        invariant
            index <= values.len(),
            max == max_value(values@.take(index as int)),
        decreases values.len() - index,
    {
        proof {
            assert(values@.take(index + 1).drop_last() =~= values@.take(index as int));
        }
        if values[index] > max {
            max = values[index];
        }
        index = index + 1;
    }
    proof {
        assert(values@.take(values.len() as int) =~= values@);
    }
    if max == u64::MAX {
        0
    } else {
        max + 1
    }
}

/// Layers are visible until the user hides them.
pub fn default_layer_visible() -> (visible: bool)
    ensures
        visible,
{
    true
}

/// A scale that marks which pitch classes the spectrogram emphasises.
#[derive(Debug, Clone, Copy, PartialEq, Eq, Structural)]
pub enum ScalePreset {
    Major,
    Minor,
    Pentatonic,
    Chromatic,
}

pub open spec fn scale_label(preset: ScalePreset) -> Seq<char> {
    match preset {
        ScalePreset::Major => "Major"@,
        ScalePreset::Minor => "Minor"@,
        ScalePreset::Pentatonic => "Pentatonic"@,
        ScalePreset::Chromatic => "Chromatic"@,
    }
}

/// The scale's steps above its root, in semitones.
pub open spec fn scale_intervals(preset: ScalePreset) -> Seq<usize> {
    match preset {
        ScalePreset::Major => seq![0, 2, 4, 5, 7, 9, 11],
        ScalePreset::Minor => seq![0, 2, 3, 5, 7, 8, 10],
        ScalePreset::Pentatonic => seq![0, 2, 4, 7, 9],
        ScalePreset::Chromatic => seq![0, 1, 2, 3, 4, 5, 6, 7, 8, 9, 10, 11],
    }
}

impl ScalePreset {
    pub fn all() -> (all: Vec<ScalePreset>)
        ensures
            all@ == seq![
                ScalePreset::Major,
                ScalePreset::Minor,
                ScalePreset::Pentatonic,
                ScalePreset::Chromatic,
            ],
    {
        let mut all = Vec::new();
        all.push(ScalePreset::Major);
        all.push(ScalePreset::Minor);
        all.push(ScalePreset::Pentatonic);
        all.push(ScalePreset::Chromatic);
        all
    }

    pub fn label(self) -> (label: &'static str)
        ensures
            label@ == scale_label(self),
    {
        match self {
            ScalePreset::Major => "Major",
            ScalePreset::Minor => "Minor",
            ScalePreset::Pentatonic => "Pentatonic",
            ScalePreset::Chromatic => "Chromatic",
        }
    }

    pub fn intervals(self) -> (intervals: Vec<usize>)
        ensures
            intervals@ == scale_intervals(self),
    {
        match self {
            ScalePreset::Major => vec![0, 2, 4, 5, 7, 9, 11],
            ScalePreset::Minor => vec![0, 2, 3, 5, 7, 8, 10],
            ScalePreset::Pentatonic => vec![0, 2, 4, 7, 9],
            ScalePreset::Chromatic => vec![0, 1, 2, 3, 4, 5, 6, 7, 8, 9, 10, 11],
        }
    }
}

/// Whether pitch class `pitch_class` belongs to the scale on `root`.
pub open spec fn in_scale(root: int, preset: ScalePreset, pitch_class: int) -> bool {
    exists|i: int|
        0 <= i < scale_intervals(preset).len() && (root + scale_intervals(preset)[i]) % 12
            == pitch_class
}

/// The twelve pitch classes, marked where they belong to the scale on `root`.
pub fn scale_pitch_classes(root: usize, preset: ScalePreset) -> (classes: [bool; 12])
    requires
        root <= usize::MAX - 11,
    ensures
        forall|pitch_class: int|
            0 <= pitch_class < 12 ==> #[trigger] classes@[pitch_class] == in_scale(
                root as int,
                preset,
                pitch_class,
            ),
{
    let mut classes = [false;12];
    let intervals = preset.intervals();
    let mut index: usize = 0;
    while index < intervals.len()
        invariant
            root <= usize::MAX - 11,
            intervals@ == scale_intervals(preset),
            index <= intervals.len(),
            forall|pitch_class: int|
                0 <= pitch_class < 12 ==> #[trigger] classes@[pitch_class] == exists|i: int|
                    0 <= i < index && (root + intervals@[i]) % 12 == pitch_class,
        decreases intervals.len() - index,
    {
        let pitch_class = (root + intervals[index]) % 12;
        classes[pitch_class] = true;
        proof {
            assert forall|p: int| 0 <= p < 12 implies #[trigger] classes@[p] == exists|i: int|
                0 <= i < index + 1 && (root + intervals@[i]) % 12 == p by {
                if p == pitch_class as int {
                    assert(0 <= index as int && (root + intervals@[index as int]) % 12 == p);
                } else {
                    if exists|i: int| 0 <= i < index + 1 && (root + intervals@[i]) % 12 == p {
                        let i = choose|i: int| 0 <= i < index + 1 && (root + intervals@[i]) % 12 == p;
                        assert(i != index as int);
                    }
                }
            }
        }
        index = index + 1;
    }
    classes
}


/// How far a pitch class lies above the root, from 0 to 11.
pub open spec fn degree_above(root: int, pitch_class: int) -> int {
    (pitch_class - root) % 12
}

proof fn lemma_in_scale_by_degree(root: int, preset: ScalePreset, pitch_class: int)
    requires
        root >= 0,
        0 <= pitch_class < 12,
    ensures
        in_scale(root, preset, pitch_class) <==> exists|i: int|
            0 <= i < scale_intervals(preset).len() && #[trigger] scale_intervals(preset)[i]
                == degree_above(root, pitch_class),
{
    let iv = scale_intervals(preset);
    let d = degree_above(root, pitch_class);
    assert forall|i: int| 0 <= i < iv.len() implies 0 <= #[trigger] iv[i] < 12 by {
        assert(preset == ScalePreset::Major || preset == ScalePreset::Minor || preset
            == ScalePreset::Pentatonic || preset == ScalePreset::Chromatic);
    }
    if in_scale(root, preset, pitch_class) {
        let i = choose|i: int| 0 <= i < iv.len() && (root + iv[i]) % 12 == pitch_class;
        let k = iv[i] as int;
        assert(k == d) by (nonlinear_arith)
            requires
                root >= 0,
                0 <= k < 12,
                0 <= pitch_class < 12,
                (root + k) % 12 == pitch_class,
                d == (pitch_class - root) % 12,
        ;
    }
    if exists|i: int| 0 <= i < iv.len() && #[trigger] iv[i] == d {
        let i = choose|i: int| 0 <= i < iv.len() && #[trigger] iv[i] == d;
        let k = iv[i] as int;
        assert((root + k) % 12 == pitch_class) by (nonlinear_arith)
            requires
                root >= 0,
                k == d,
                0 <= pitch_class < 12,
                d == (pitch_class - root) % 12,
        ;
    }
}

/// The scales as steps above the root: a pitch class belongs to the major
/// scale when it lies 0, 2, 4, 5, 7, 9 or 11 semitones above the root; to
/// the natural minor scale at 0, 2, 3, 5, 7, 8 or 10; to the pentatonic
/// scale at 0, 2, 4, 7 or 9; to the chromatic scale always.
pub proof fn lemma_scale_degrees(root: int, pitch_class: int)
    requires
        root >= 0,
        0 <= pitch_class < 12,
    ensures
        ({
            let d = degree_above(root, pitch_class);
            &&& in_scale(root, ScalePreset::Major, pitch_class) <==> (d == 0 || d == 2 || d == 4 || d
                == 5 || d == 7 || d == 9 || d == 11)
            &&& in_scale(root, ScalePreset::Minor, pitch_class) <==> (d == 0 || d == 2 || d == 3 || d
                == 5 || d == 7 || d == 8 || d == 10)
            &&& in_scale(root, ScalePreset::Pentatonic, pitch_class) <==> (d == 0 || d == 2 || d == 4
                || d == 7 || d == 9)
            &&& in_scale(root, ScalePreset::Chromatic, pitch_class)
        }),
{
    let d = degree_above(root, pitch_class);
    assert(0 <= d < 12);
    lemma_in_scale_by_degree(root, ScalePreset::Major, pitch_class);
    lemma_in_scale_by_degree(root, ScalePreset::Minor, pitch_class);
    lemma_in_scale_by_degree(root, ScalePreset::Pentatonic, pitch_class);
    lemma_in_scale_by_degree(root, ScalePreset::Chromatic, pitch_class);
    let major = scale_intervals(ScalePreset::Major);
    let minor = scale_intervals(ScalePreset::Minor);
    let penta = scale_intervals(ScalePreset::Pentatonic);
    let chroma = scale_intervals(ScalePreset::Chromatic);
    assert(major[0] == 0 && major[1] == 2 && major[2] == 4 && major[3] == 5 && major[4] == 7
        && major[5] == 9 && major[6] == 11 && major.len() == 7);
    assert(minor[0] == 0 && minor[1] == 2 && minor[2] == 3 && minor[3] == 5 && minor[4] == 7
        && minor[5] == 8 && minor[6] == 10 && minor.len() == 7);
    assert(penta[0] == 0 && penta[1] == 2 && penta[2] == 4 && penta[3] == 7 && penta[4] == 9
        && penta.len() == 5);
    assert(chroma[d] == d && chroma.len() == 12);
}

/// The natural minor scale on a root holds the pitch classes of the major
/// scale three semitones higher (its relative major): C minor and E-flat
/// major share their notes.
pub proof fn lemma_minor_is_relative_major(root: int, pitch_class: int)
    requires
        root >= 0,
        0 <= pitch_class < 12,
    ensures
        in_scale(root, ScalePreset::Minor, pitch_class) <==> in_scale(
            root + 3,
            ScalePreset::Major,
            pitch_class,
        ),
{
    lemma_scale_degrees(root, pitch_class);
    lemma_scale_degrees(root + 3, pitch_class);
    let d = degree_above(root, pitch_class);
    let e = degree_above(root + 3, pitch_class);
    assert(e == if d >= 3 { d - 3 } else { d + 9 }) by (nonlinear_arith)
        requires
            d == (pitch_class - root) % 12,
            e == (pitch_class - (root + 3)) % 12,
    ;
}

} // verus!
