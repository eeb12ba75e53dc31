use vstd::prelude::*;

verus! {

/// What identifies the audio file a project or a cache was made for. The
/// duration is kept as the bit pattern of its `f64` value of seconds.
#[derive(Debug, Clone, PartialEq, Eq)]
pub struct AudioIdentity {
    pub file_name: String,
    pub file_size_bytes: u64,
    pub modified_unix_ms: u64,
    pub duration_seconds_bits: u64,
    pub sample_rate_hz: u32,
}

/// A way in which the audio file at hand differs from the one a project was
/// saved with.
#[derive(Debug, Clone, Copy, PartialEq, Eq, Structural)]
pub enum AudioMismatch {
    FileName,
    FileSize,
    ModifiedTime,
    Duration,
    SampleRate,
}

impl AudioMismatch {
    pub open spec fn spec_label(self) -> &'static str {
        match self {
            AudioMismatch::FileName => "ファイル名",
            AudioMismatch::FileSize => "ファイルサイズ",
            AudioMismatch::ModifiedTime => "更新日時",
            AudioMismatch::Duration => "長さ",
            AudioMismatch::SampleRate => "サンプルレート",
        }
    }

    /// The name of the differing property as the user reads it.
    pub fn label(self) -> (label: &'static str)
        ensures
            label@ == self.spec_label()@,
    {
        match self {
            AudioMismatch::FileName => "ファイル名",
            AudioMismatch::FileSize => "ファイルサイズ",
            AudioMismatch::ModifiedTime => "更新日時",
            AudioMismatch::Duration => "長さ",
            AudioMismatch::SampleRate => "サンプルレート",
        }
    }
}

/// One entry when the condition holds, none otherwise.
pub open spec fn entry_if(condition: bool, mismatch: AudioMismatch) -> Seq<AudioMismatch> {
    if condition {
        seq![mismatch]
    } else {
        Seq::empty()
    }
}

/// The differences between the saved identity and the current one, in the
/// order file name, size, modification time, duration, sample rate. Whether
/// the durations agree within the tolerance is decided on the floating-point
/// values and handed in.
pub open spec fn spec_audio_mismatches(
    saved: AudioIdentity,
    current: AudioIdentity,
    durations_agree: bool,
) -> Seq<AudioMismatch> {
    entry_if(saved.file_name@ != current.file_name@, AudioMismatch::FileName) + entry_if(
        saved.file_size_bytes != current.file_size_bytes,
        AudioMismatch::FileSize,
    ) + entry_if(saved.modified_unix_ms != current.modified_unix_ms, AudioMismatch::ModifiedTime)
        + entry_if(!durations_agree, AudioMismatch::Duration) + entry_if(
        saved.sample_rate_hz != current.sample_rate_hz,
        AudioMismatch::SampleRate,
    )
}

/// Whether two texts hold the same characters.
pub fn same_text(a: &str, b: &str) -> (same: bool)
    ensures
        same == (a@ == b@),
{
    let a_len = a.unicode_len();
    let b_len = b.unicode_len();
    if a_len != b_len {
        return false;
    }
    let mut i: usize = 0;
    while i < a_len
        invariant
            a_len == a@.len(),
            b_len == b@.len(),
            a_len == b_len,
            i <= a_len,
            a@.subrange(0, i as int) == b@.subrange(0, i as int),
        decreases a_len - i,
    {
        if a.get_char(i) != b.get_char(i) {
            assert(a@[i as int] != b@[i as int]);
            return false;
        }
        assert(a@.subrange(0, i + 1) =~= a@.subrange(0, i as int).push(a@[i as int]));
        assert(b@.subrange(0, i + 1) =~= b@.subrange(0, i as int).push(b@[i as int]));
        i = i + 1;
    }
    assert(a@ =~= a@.subrange(0, a_len as int));
    assert(b@ =~= b@.subrange(0, b_len as int));
    true
}

/// The ways in which the current audio differs from the one the project was
/// saved with, in a fixed order; empty when it is the same file.
pub fn audio_mismatches(
    saved: &AudioIdentity,
    current: &AudioIdentity,
    durations_agree: bool,
) -> (mismatches: Vec<AudioMismatch>)
    ensures
        mismatches@ == spec_audio_mismatches(*saved, *current, durations_agree),
{
    let mut mismatches: Vec<AudioMismatch> = Vec::new();
    let ghost expected = spec_audio_mismatches(*saved, *current, durations_agree);
    if !same_text(saved.file_name.as_str(), current.file_name.as_str()) {
        mismatches.push(AudioMismatch::FileName);
    }
    assert(mismatches@ =~= entry_if(saved.file_name@ != current.file_name@, AudioMismatch::FileName));
    if saved.file_size_bytes != current.file_size_bytes {
        mismatches.push(AudioMismatch::FileSize);
    }
    if saved.modified_unix_ms != current.modified_unix_ms {
        mismatches.push(AudioMismatch::ModifiedTime);
    }
    if !durations_agree {
        mismatches.push(AudioMismatch::Duration);
    }
    if saved.sample_rate_hz != current.sample_rate_hz {
        mismatches.push(AudioMismatch::SampleRate);
    }
    assert(mismatches@ =~= expected);
    mismatches
}

/// The labels of the differences joined by "・", as the load message shows
/// them.
pub open spec fn joined_labels(mismatches: Seq<AudioMismatch>) -> Seq<char>
    decreases mismatches.len(),
{
    if mismatches.len() == 0 {
        Seq::empty()
    } else if mismatches.len() == 1 {
        mismatches[0].spec_label()@
    } else {
        joined_labels(mismatches.drop_last()) + "・"@ + mismatches.last().spec_label()@
    }
}

/// The labels of the differences joined by "・".
pub fn mismatch_labels(mismatches: &[AudioMismatch]) -> (text: String)
    ensures
        text@ == joined_labels(mismatches@),
{
    let mut text = String::new();
    let mut i: usize = 0;
    while i < mismatches.len()
        invariant
            i <= mismatches@.len(),
            text@ == joined_labels(mismatches@.subrange(0, i as int)),
        decreases mismatches.len() - i,
    {
        let ghost prefix = mismatches@.subrange(0, i + 1);
        assert(prefix.drop_last() =~= mismatches@.subrange(0, i as int));
        if i > 0 {
            text.append("・");
        }
        text.append(mismatches[i].label());
        i = i + 1;
    }
    assert(mismatches@.subrange(0, mismatches@.len() as int) =~= mismatches@);
    text
}

/// An audio file compared with itself shows no difference, whenever its
/// durations are found to agree.
pub proof fn lemma_identity_matches_itself(identity: AudioIdentity)
    ensures
        spec_audio_mismatches(identity, identity, true) == Seq::<AudioMismatch>::empty(),
{
    assert(spec_audio_mismatches(identity, identity, true) =~= Seq::<AudioMismatch>::empty());
}


/// The place of each kind of difference in a report: file name, size,
/// modification time, duration, sample rate.
pub open spec fn mismatch_rank(mismatch: AudioMismatch) -> int {
    match mismatch {
        AudioMismatch::FileName => 0,
        AudioMismatch::FileSize => 1,
        AudioMismatch::ModifiedTime => 2,
        AudioMismatch::Duration => 3,
        AudioMismatch::SampleRate => 4,
    }
}

/// Each entry comes after the ones of lower rank, so none repeats.
pub open spec fn in_report_order(mismatches: Seq<AudioMismatch>) -> bool {
    forall|i: int, j: int|
        0 <= i < j < mismatches.len() ==> mismatch_rank(#[trigger] mismatches[i]) < mismatch_rank(
            #[trigger] mismatches[j],
        )
}

proof fn lemma_entry_if(condition: bool, mismatch: AudioMismatch)
    ensures
        forall|x: AudioMismatch| #[trigger] entry_if(condition, mismatch).contains(x) <==> (condition
            && x == mismatch),
        entry_if(condition, mismatch).len() <= 1,
        forall|i: int|
            0 <= i < entry_if(condition, mismatch).len() ==> #[trigger] entry_if(
                condition,
                mismatch,
            )[i] == mismatch,
{
    if condition {
        assert(entry_if(condition, mismatch)[0] == mismatch);
    }
}

proof fn lemma_report_concat(front: Seq<AudioMismatch>, back: Seq<AudioMismatch>, rank: int)
    requires
        in_report_order(front),
        forall|i: int| 0 <= i < front.len() ==> mismatch_rank(#[trigger] front[i]) < rank,
        back.len() <= 1,
        forall|i: int| 0 <= i < back.len() ==> mismatch_rank(#[trigger] back[i]) == rank,
    ensures
        in_report_order(front + back),
        forall|i: int| 0 <= i < (front + back).len() ==> mismatch_rank(#[trigger] (front + back)[i])
            <= rank,
        forall|x: AudioMismatch| #[trigger] (front + back).contains(x) <==> (front.contains(x)
            || back.contains(x)),
{
    let joined = front + back;
    assert forall|i: int, j: int| 0 <= i < j < joined.len() implies mismatch_rank(
        #[trigger] joined[i],
    ) < mismatch_rank(#[trigger] joined[j]) by {
        if j < front.len() {
            assert(joined[i] == front[i] && joined[j] == front[j]);
        } else {
            assert(joined[i] == front[i]);
            assert(joined[j] == back[j - front.len()]);
        }
    }
    assert forall|i: int| 0 <= i < joined.len() implies mismatch_rank(#[trigger] joined[i]) <= rank by {
        if i < front.len() {
            assert(joined[i] == front[i]);
        } else {
            assert(joined[i] == back[i - front.len()]);
        }
    }
    assert forall|x: AudioMismatch| #[trigger] joined.contains(x) <==> (front.contains(x) || back.contains(
        x,
    )) by {
        if joined.contains(x) {
            let k = choose|k: int| 0 <= k < joined.len() && joined[k] == x;
            if k < front.len() {
                assert(front[k] == x);
            } else {
                assert(back[k - front.len()] == x);
            }
        }
        if front.contains(x) {
            let k = choose|k: int| 0 <= k < front.len() && front[k] == x;
            assert(joined[k] == x);
        }
        if back.contains(x) {
            let k = choose|k: int| 0 <= k < back.len() && back[k] == x;
            assert(joined[front.len() + k] == x);
        }
    }
}

/// A report of differences names each property exactly when it differs:
/// the file name when the names differ, the size, the modification time and
/// the sample rate when their values differ, the duration when the
/// durations do not agree; each at most once, in the order file name, size,
/// modification time, duration, sample rate.
pub proof fn lemma_mismatches_name_what_differs(
    saved: AudioIdentity,
    current: AudioIdentity,
    durations_agree: bool,
)
    ensures
        ({
            let report = spec_audio_mismatches(saved, current, durations_agree);
            &&& report.contains(AudioMismatch::FileName) <==> saved.file_name@ != current.file_name@
            &&& report.contains(AudioMismatch::FileSize) <==> saved.file_size_bytes
                != current.file_size_bytes
            &&& report.contains(AudioMismatch::ModifiedTime) <==> saved.modified_unix_ms
                != current.modified_unix_ms
            &&& report.contains(AudioMismatch::Duration) <==> !durations_agree
            &&& report.contains(AudioMismatch::SampleRate) <==> saved.sample_rate_hz
                != current.sample_rate_hz
            &&& in_report_order(report)
        }),
{
    let e0 = entry_if(saved.file_name@ != current.file_name@, AudioMismatch::FileName);
    let e1 = entry_if(saved.file_size_bytes != current.file_size_bytes, AudioMismatch::FileSize);
    let e2 = entry_if(saved.modified_unix_ms != current.modified_unix_ms, AudioMismatch::ModifiedTime);
    let e3 = entry_if(!durations_agree, AudioMismatch::Duration);
    let e4 = entry_if(saved.sample_rate_hz != current.sample_rate_hz, AudioMismatch::SampleRate);
    lemma_entry_if(saved.file_name@ != current.file_name@, AudioMismatch::FileName);
    lemma_entry_if(saved.file_size_bytes != current.file_size_bytes, AudioMismatch::FileSize);
    lemma_entry_if(saved.modified_unix_ms != current.modified_unix_ms, AudioMismatch::ModifiedTime);
    lemma_entry_if(!durations_agree, AudioMismatch::Duration);
    lemma_entry_if(saved.sample_rate_hz != current.sample_rate_hz, AudioMismatch::SampleRate);
    let empty = Seq::<AudioMismatch>::empty();
    assert(empty + e0 =~= e0);
    lemma_report_concat(empty, e0, 0);
    lemma_report_concat(e0, e1, 1);
    lemma_report_concat(e0 + e1, e2, 2);
    lemma_report_concat(e0 + e1 + e2, e3, 3);
    lemma_report_concat(e0 + e1 + e2 + e3, e4, 4);
    assert(spec_audio_mismatches(saved, current, durations_agree) == e0 + e1 + e2 + e3 + e4);
}

} // verus!
