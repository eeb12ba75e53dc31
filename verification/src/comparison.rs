use vstd::prelude::*;

verus! {

/// One step of the A/B comparison loop: the source alone, the pitch memos
/// alone, or both together.
#[derive(Debug, Clone, Copy, PartialEq, Eq, Structural)]
pub enum ComparisonPhase {
    Original,
    Notes,
    Mix,
}

/// The longest comparison sequence that the audio control can hold.
pub const MAX_COMPARISON_SEQUENCE_LEN: usize = 10;

pub open spec fn phase_label(phase: ComparisonPhase) -> Seq<char> {
    match phase {
        ComparisonPhase::Original => "Original"@,
        ComparisonPhase::Notes => "Notes"@,
        ComparisonPhase::Mix => "Mix"@,
    }
}

impl ComparisonPhase {
    pub fn label(self) -> (label: &'static str)
        ensures
            label@ == phase_label(self),
    {
        match self {
            ComparisonPhase::Original => "Original",
            ComparisonPhase::Notes => "Notes",
            ComparisonPhase::Mix => "Mix",
        }
    }
}

/// The sequence used until the user configures another one:
/// Original, then Notes, then Mix.
pub open spec fn spec_default_comparison_sequence() -> Seq<ComparisonPhase> {
    seq![ComparisonPhase::Original, ComparisonPhase::Notes, ComparisonPhase::Mix]
}

pub fn default_comparison_sequence() -> (sequence: Vec<ComparisonPhase>)
    ensures
        sequence@ == spec_default_comparison_sequence(),
{
    let mut sequence = Vec::new();
    sequence.push(ComparisonPhase::Original);
    sequence.push(ComparisonPhase::Notes);
    sequence.push(ComparisonPhase::Mix);
    sequence
}

/// A sequence can drive the comparison loop when it has between one and
/// `MAX_COMPARISON_SEQUENCE_LEN` steps.
pub open spec fn valid_comparison_sequence(sequence: Seq<ComparisonPhase>) -> bool {
    1 <= sequence.len() <= MAX_COMPARISON_SEQUENCE_LEN
}

pub fn is_valid_comparison_sequence(sequence: &[ComparisonPhase]) -> (valid: bool)
    ensures
        valid == valid_comparison_sequence(sequence@),
{
    1 <= sequence.len() && sequence.len() <= MAX_COMPARISON_SEQUENCE_LEN
}

/// The phase at step `index` of a sequence that repeats forever.
pub open spec fn spec_comparison_phase_at(
    sequence: Seq<ComparisonPhase>,
    index: int,
) -> Option<ComparisonPhase> {
    if sequence.len() == 0 {
        None
    } else {
        Some(sequence[index % (sequence.len() as int)])
    }
}

pub fn comparison_phase_at(sequence: &[ComparisonPhase], sequence_index: usize) -> (phase: Option<
    ComparisonPhase,
>)
    ensures
        phase == spec_comparison_phase_at(sequence@, sequence_index as int),
{
    if sequence.len() == 0 {
        None
    } else {
        Some(sequence[sequence_index % sequence.len()])
    }
}

} // verus!
