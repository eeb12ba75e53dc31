use vstd::prelude::*;
use vstd::arithmetic::div_mod::*;
use vstd::arithmetic::power2::*;
use vstd::bits::*;

use crate::comparison::{
    spec_comparison_phase_at,
    ComparisonPhase, MAX_COMPARISON_SEQUENCE_LEN, default_comparison_sequence,
    spec_default_comparison_sequence, valid_comparison_sequence,
};

verus! {

/// Low four bits: 0 when the loop is off, otherwise the step index plus one.
const STATE_MASK: usize = 15;

/// The sequence's phases start above the state field, two bits per step.
const SEQUENCE_SHIFT: usize = 4;

const PHASE_BITS: usize = 2;

/// The two-bit code of a phase inside the packed word.
pub open spec fn phase_code(phase: ComparisonPhase) -> nat {
    match phase {
        ComparisonPhase::Original => 1,
        ComparisonPhase::Notes => 2,
        ComparisonPhase::Mix => 3,
    }
}

/// The phase that a two-bit code stands for; 0 marks the end of the sequence.
pub open spec fn code_phase(code: nat) -> Option<ComparisonPhase> {
    if code == 1 {
        Some(ComparisonPhase::Original)
    } else if code == 2 {
        Some(ComparisonPhase::Notes)
    } else if code == 3 {
        Some(ComparisonPhase::Mix)
    } else {
        None
    }
}

pub open spec fn pow4(exponent: nat) -> nat
    decreases exponent,
{
    if exponent == 0 {
        1
    } else {
        4 * pow4((exponent - 1) as nat)
    }
}

/// The sequence read as a base-four number whose lowest digit is the first step.
pub open spec fn sequence_code(sequence: Seq<ComparisonPhase>) -> nat
    decreases sequence.len(),
{
    if sequence.len() == 0 {
        0
    } else {
        phase_code(sequence[0]) + 4 * sequence_code(sequence.drop_first())
    }
}

/// The packed word holding `sequence` above a state field `state`.
pub open spec fn packed_word(sequence: Seq<ComparisonPhase>, state: nat) -> nat {
    16 * sequence_code(sequence) + state
}

/// The code stored for step `index` of a packed word.
pub open spec fn packed_digit(encoded: nat, index: nat) -> nat {
    (encoded / 16 / pow4(index)) % 4
}

proof fn lemma_pow4_facts(exponent: nat)
    ensures
        pow4(exponent) >= 1,
        pow2(2 * exponent) == pow4(exponent),
    decreases exponent,
{
    if exponent == 0 {
        lemma2_to64();
    } else {
        lemma_pow4_facts((exponent - 1) as nat);
        lemma_pow2_adds(2 * ((exponent - 1) as nat), 2);
        lemma2_to64();
        assert(2 * ((exponent - 1) as nat) + 2 == 2 * exponent);
    }
}

proof fn lemma_pow4_monotone(small: nat, large: nat)
    requires
        small <= large,
    ensures
        pow4(small) <= pow4(large),
    decreases large,
{
    lemma_pow4_facts(large);
    if small < large {
        lemma_pow4_monotone(small, (large - 1) as nat);
    }
}

proof fn lemma_pow4_ten()
    ensures
        pow4(10) == 1048576,
{
    reveal_with_fuel(pow4, 11);
}

/// Digits of a sequence code: each step's code in order, zeros above the end.
proof fn lemma_sequence_code_digits(sequence: Seq<ComparisonPhase>, index: nat)
    ensures
        sequence_code(sequence) < pow4(sequence.len()),
        (sequence_code(sequence) / pow4(index)) % 4 == (if index < sequence.len() {
            phase_code(sequence[index as int])
        } else {
            0
        }),
    decreases sequence.len(),
{
    lemma_pow4_facts(index);
    if sequence.len() == 0 {
        assert(sequence_code(sequence) == 0);
        assert(0nat / pow4(index) == 0) by {
            lemma_div_of0(pow4(index) as int);
        }
    } else {
        let rest = sequence.drop_first();
        let code = sequence_code(sequence);
        let rest_code = sequence_code(rest);
        let first = phase_code(sequence[0]);
        if index == 0 {
            lemma_sequence_code_digits(rest, 0);
            assert(pow4(0) == 1);
            assert(code / 1 == code);
            lemma_fundamental_div_mod_converse(code as int, 4, rest_code as int, first as int);
        } else {
            lemma_sequence_code_digits(rest, (index - 1) as nat);
            lemma_pow4_facts((index - 1) as nat);
            lemma_fundamental_div_mod_converse(code as int, 4, rest_code as int, first as int);
            assert(code / 4 == rest_code);
            lemma_div_denominator(code as int, 4, pow4((index - 1) as nat) as int);
            assert(pow4(index) == 4 * pow4((index - 1) as nat));
            if index - 1 < rest.len() {
                assert(rest[(index - 1) as int] == sequence[index as int]);
            }
        }
        lemma_sequence_code_digits(rest, 0);
        assert(pow4(sequence.len()) == 4 * pow4(rest.len()));
        assert(first + 4 * rest_code < 4 * pow4(rest.len()));
    }
}

/// Reading a packed word: the state field and every step's code.
proof fn lemma_packed_word_fields(sequence: Seq<ComparisonPhase>, state: nat, index: nat)
    requires
        state < 16,
    ensures
        packed_word(sequence, state) % 16 == state,
        packed_word(sequence, state) / 16 == sequence_code(sequence),
        packed_digit(packed_word(sequence, state), index) == (if index < sequence.len() {
            phase_code(sequence[index as int])
        } else {
            0
        }),
{
    lemma_fundamental_div_mod_converse(
        packed_word(sequence, state) as int,
        16,
        sequence_code(sequence) as int,
        state as int,
    );
    lemma_sequence_code_digits(sequence, index);
}

/// A shifted and masked read of the word is the digit of the arithmetic model.
proof fn lemma_shift_reads_digit(encoded: usize, index: usize)
    requires
        index < 14,
    ensures
        ((encoded >> (SEQUENCE_SHIFT + index * PHASE_BITS) as usize) & 3) as nat == packed_digit(
            encoded as nat,
            index as nat,
        ),
{
    let shift: usize = (4 + index * 2) as usize;
    lemma_usize_shr_is_div(encoded, shift);
    let shifted: usize = encoded >> shift;
    assert(shifted & 3 == shifted % 4) by (bit_vector);
    lemma_pow2_adds(4, 2 * index as nat);
    lemma2_to64();
    lemma_pow4_facts(index as nat);
    lemma_div_denominator(encoded as int, 16, pow4(index as nat) as int);
}

/// The packed form of a valid sequence with the loop off.
fn encode_sequence(sequence: &[ComparisonPhase]) -> (encoded: usize)
    requires
        valid_comparison_sequence(sequence@),
    ensures
        encoded as nat == packed_word(sequence@, 0),
{
    let mut index = sequence.len();
    let mut code: usize = 0;
    proof {
        lemma_pow4_monotone(sequence@.len(), 10);
        lemma_pow4_ten();
        assert(sequence@.subrange(sequence@.len() as int, sequence@.len() as int) =~= Seq::<
            ComparisonPhase,
        >::empty());
    }
    while index > 0
        invariant
            index <= sequence@.len() <= MAX_COMPARISON_SEQUENCE_LEN,
            code as nat == sequence_code(sequence@.subrange(index as int, sequence@.len() as int)),
            code < pow4((sequence@.len() - index) as nat),
            pow4(sequence@.len()) <= 1048576,
        decreases index,
    {
        index = index - 1;
        let tail = Ghost(sequence@.subrange(index as int, sequence@.len() as int));
        proof {
            assert(tail@.drop_first() =~= sequence@.subrange(
                (index + 1) as int,
                sequence@.len() as int,
            ));
            assert(tail@[0] == sequence@[index as int]);
            lemma_pow4_monotone((sequence@.len() - index) as nat, sequence@.len());
            assert(pow4((sequence@.len() - index) as nat) == 4 * pow4(
                (sequence@.len() - index - 1) as nat,
            ));
        }
        code = code * 4 + encode_phase(sequence[index]);
    }
    proof {
        assert(sequence@.subrange(0, sequence@.len() as int) =~= sequence@);
    }
    code * 16
}

fn encode_phase(phase: ComparisonPhase) -> (code: usize)
    ensures
        code as nat == phase_code(phase),
{
    match phase {
        ComparisonPhase::Original => 1,
        ComparisonPhase::Notes => 2,
        ComparisonPhase::Mix => 3,
    }
}

fn decode_phase(encoded: usize, index: usize) -> (phase: Option<ComparisonPhase>)
    requires
        index < 14,
    ensures
        phase == code_phase(packed_digit(encoded as nat, index as nat)),
{
    proof {
        lemma_shift_reads_digit(encoded, index);
    }
    let code = (encoded >> (SEQUENCE_SHIFT + index * PHASE_BITS)) & 3;
    if code == 1 {
        Some(ComparisonPhase::Original)
    } else if code == 2 {
        Some(ComparisonPhase::Notes)
    } else if code == 3 {
        Some(ComparisonPhase::Mix)
    } else {
        None
    }
}

/// The number of steps stored in a word from step `index` on: the position
/// of the first empty code, at most `MAX_COMPARISON_SEQUENCE_LEN`.
pub open spec fn stored_len_from(encoded: nat, index: nat) -> nat
    decreases MAX_COMPARISON_SEQUENCE_LEN - index,
{
    if index >= MAX_COMPARISON_SEQUENCE_LEN {
        MAX_COMPARISON_SEQUENCE_LEN as nat
    } else if packed_digit(encoded, index) == 0 {
        index
    } else {
        stored_len_from(encoded, index + 1)
    }
}

pub open spec fn stored_len(encoded: nat) -> nat {
    stored_len_from(encoded, 0)
}

proof fn lemma_stored_len_bounds(encoded: nat, index: nat)
    requires
        index <= MAX_COMPARISON_SEQUENCE_LEN,
    ensures
        index <= stored_len_from(encoded, index) <= MAX_COMPARISON_SEQUENCE_LEN,
    decreases MAX_COMPARISON_SEQUENCE_LEN - index,
{
    if index < MAX_COMPARISON_SEQUENCE_LEN && packed_digit(encoded, index) != 0 {
        lemma_stored_len_bounds(encoded, index + 1);
    }
}

fn sequence_len(encoded: usize) -> (len: usize)
    ensures
        len as nat == stored_len(encoded as nat),
{
    let mut len: usize = 0;
    while len < MAX_COMPARISON_SEQUENCE_LEN
        invariant
            len <= MAX_COMPARISON_SEQUENCE_LEN,
            stored_len(encoded as nat) == stored_len_from(encoded as nat, len as nat),
        decreases MAX_COMPARISON_SEQUENCE_LEN - len,
    {
        if decode_phase(encoded, len).is_none() {
            return len;
        }
        len = len + 1;
    }
    len
}

fn phase_at_encoded_sequence(encoded: usize, index: usize) -> (phase: Option<ComparisonPhase>)
    requires
        packed_digit(encoded as nat, 0) != 0,
    ensures
        stored_len(encoded as nat) > 0,
        phase == code_phase(packed_digit(encoded as nat, index as nat % stored_len(encoded as nat))),
{
    proof {
        lemma_stored_len_bounds(encoded as nat, 1);
    }
    let len = sequence_len(encoded);
    decode_phase(encoded, index % len)
}

/// The stored length of a packed valid sequence is its length.
proof fn lemma_stored_len_of_packed(sequence: Seq<ComparisonPhase>, state: nat, index: nat)
    requires
        valid_comparison_sequence(sequence),
        state < 16,
        index <= sequence.len(),
    ensures
        stored_len_from(packed_word(sequence, state), index) == sequence.len(),
    decreases sequence.len() - index,
{
    let e = packed_word(sequence, state);
    lemma_packed_word_fields(sequence, state, index);
    if index < sequence.len() {
        lemma_stored_len_of_packed(sequence, state, index + 1);
    }
}

/// What the audio callbacks read of the comparison loop at one instant.
#[derive(Debug, Clone, Copy, PartialEq, Eq, Structural)]
pub struct ComparisonAudioSnapshot {
    pub sequence_index: Option<usize>,
    pub phase: Option<ComparisonPhase>,
}

impl ComparisonAudioSnapshot {
    /// A snapshot of a loop that is off.
    pub fn inactive() -> (snapshot: ComparisonAudioSnapshot)
        ensures
            snapshot.sequence_index is None,
            snapshot.phase is None,
    {
        ComparisonAudioSnapshot { sequence_index: None, phase: None }
    }

    /// Whether the source audio plays: decided by the phase while the loop
    /// runs, otherwise by the user's own mute.
    pub fn source_is_audible(self, user_muted: bool) -> (audible: bool)
        ensures
            audible == match self.phase {
                Some(ComparisonPhase::Original) | Some(ComparisonPhase::Mix) => true,
                Some(ComparisonPhase::Notes) => false,
                None => !user_muted,
            },
    {
        match self.phase {
            Some(ComparisonPhase::Original) => true,
            Some(ComparisonPhase::Mix) => true,
            Some(ComparisonPhase::Notes) => false,
            None => !user_muted,
        }
    }

    /// The memo voices are silenced only during the Original phase.
    pub fn memos_are_audible(self) -> (audible: bool)
        ensures
            audible == (self.phase != Some(ComparisonPhase::Original)),
    {
        match self.phase {
            Some(ComparisonPhase::Original) => false,
            _ => true,
        }
    }
}

/// The comparison loop's state, packed into a single word: the sequence in
/// two-bit codes and, in the low four bits, 0 when the loop is off or the
/// current step plus one.
pub struct ComparisonAudioControl {
    encoded_state: usize,
    sequence: Ghost<Seq<ComparisonPhase>>,
}

impl ComparisonAudioControl {
    #[verifier::type_invariant]
    spec fn well_formed(self) -> bool {
        &&& valid_comparison_sequence(self.sequence@)
        &&& self.encoded_state as nat % 16 <= self.sequence@.len()
        &&& self.encoded_state as nat == packed_word(
            self.sequence@,
            self.encoded_state as nat % 16,
        )
    }

    /// The configured sequence of phases.
    pub closed spec fn spec_sequence(self) -> Seq<ComparisonPhase> {
        self.sequence@
    }

    /// The current step while the loop runs, `None` while it is off.
    pub closed spec fn spec_position(self) -> Option<nat> {
        if self.encoded_state as nat % 16 == 0 {
            None
        } else {
            Some((self.encoded_state as nat % 16 - 1) as nat)
        }
    }

    /// What every control satisfies: a valid sequence and, while running,
    /// a step inside it.
    pub open spec fn view_well_formed(self) -> bool {
        &&& valid_comparison_sequence(self.spec_sequence())
        &&& self.spec_position() matches Some(position) ==> position < self.spec_sequence().len()
    }

    fn from_parts(sequence: Ghost<Seq<ComparisonPhase>>, base: usize, state: usize) -> (control:
        Self)
        requires
            valid_comparison_sequence(sequence@),
            base as nat == packed_word(sequence@, 0),
            state <= sequence@.len(),
        ensures
            control.view_well_formed(),
            control.spec_sequence() == sequence@,
            control.spec_position() == (if state == 0 {
                None
            } else {
                Some((state - 1) as nat)
            }),
    {
        proof {
            lemma_sequence_code_digits(sequence@, 0);
            lemma_pow4_monotone(sequence@.len(), 10);
            lemma_pow4_ten();
            lemma_packed_word_fields(sequence@, state as nat, 0);
        }
        ComparisonAudioControl { encoded_state: base + state, sequence }
    }

    /// The base of the word: the sequence with the state field cleared.
    fn sequence_bits(&self) -> (base: usize)
        ensures
            base as nat == packed_word(self.spec_sequence(), 0),
    {
        proof {
            use_type_invariant(self);
        }
        self.encoded_state - self.encoded_state % 16
    }

    /// A control that holds the default sequence with the loop off.
    pub fn new() -> (control: Self)
        ensures
            control.view_well_formed(),
            control.spec_sequence() == spec_default_comparison_sequence(),
            control.spec_position() is None,
    {
        let sequence = default_comparison_sequence();
        let base = encode_sequence(sequence.as_slice());
        Self::from_parts(Ghost(sequence@), base, 0)
    }

    /// Turns the loop on at its first step.
    pub fn enable_from_start(&mut self)
        ensures
            final(self).view_well_formed(),
            final(self).spec_sequence() == old(self).spec_sequence(),
            final(self).spec_position() == Some(0nat),
    {
        proof {
            use_type_invariant(&*self);
        }
        let base = self.sequence_bits();
        *self = Self::from_parts(self.sequence, base, 1);
    }

    /// Turns the loop off and keeps the sequence.
    pub fn disable(&mut self)
        ensures
            final(self).view_well_formed(),
            final(self).spec_sequence() == old(self).spec_sequence(),
            final(self).spec_position() is None,
    {
        proof {
            use_type_invariant(&*self);
        }
        let base = self.sequence_bits();
        *self = Self::from_parts(self.sequence, base, 0);
    }

    /// Returns a running loop to its first step; a loop that is off stays off.
    pub fn reset_to_start_if_enabled(&mut self)
        ensures
            final(self).view_well_formed(),
            final(self).spec_sequence() == old(self).spec_sequence(),
            final(self).spec_position() == (if old(self).spec_position() is Some {
                Some(0nat)
            } else {
                None
            }),
    {
        proof {
            use_type_invariant(&*self);
        }
        if self.encoded_state & STATE_MASK != 0 {
            let base = self.sequence_bits();
            proof {
                let e = self.encoded_state;
                assert(e & 15 == e % 16) by (bit_vector);
            }
            *self = Self::from_parts(self.sequence, base, 1);
        } else {
            proof {
                let e = self.encoded_state;
                assert(e & 15 == e % 16) by (bit_vector);
            }
        }
    }

    /// Replaces the sequence. A running loop restarts at the first step of
    /// the new sequence; a loop that is off stays off.
    pub fn set_sequence(&mut self, sequence: &[ComparisonPhase])
        requires
            valid_comparison_sequence(sequence@),
        ensures
            final(self).view_well_formed(),
            final(self).spec_sequence() == sequence@,
            final(self).spec_position() == (if old(self).spec_position() is Some {
                Some(0nat)
            } else {
                None
            }),
    {
        let sequence_bits = encode_sequence(sequence);
        let enabled = self.encoded_state % 16 != 0;
        let state: usize = if enabled {
            1
        } else {
            0
        };
        *self = Self::from_parts(Ghost(sequence@), sequence_bits, state);
    }

    /// Moves a running loop to its next step, wrapping after the last one.
    pub fn advance(&mut self)
        ensures
            final(self).view_well_formed(),
            final(self).spec_sequence() == old(self).spec_sequence(),
            final(self).spec_position() == match old(self).spec_position() {
                Some(position) => Some(
                    ((position + 1) % old(self).spec_sequence().len()) as nat,
                ),
                None => None,
            },
    {
        proof {
            use_type_invariant(&*self);
        }
        let encoded = self.encoded_state;
        let state = encoded % 16;
        if state == 0 {
            return;
        }
        let len = sequence_len(encoded);
        proof {
            lemma_stored_len_of_packed(self.sequence@, state as nat, 0);
        }
        let current_index = state - 1;
        let base = self.sequence_bits();
        *self = Self::from_parts(self.sequence, base, (current_index + 1) % len + 1);
    }

    /// What the audio callbacks see: the step index and its phase while the
    /// loop runs, nothing while it is off.
    pub fn snapshot(&self) -> (snapshot: ComparisonAudioSnapshot)
        ensures
            self.view_well_formed(),
            snapshot.sequence_index.is_some() == self.spec_position().is_some(),
            self.spec_position() matches Some(position) ==> {
                &&& snapshot.sequence_index == Some(position as usize)
                &&& snapshot.phase == Some(self.spec_sequence()[position as int])
            },
            self.spec_position() is None ==> snapshot.phase is None,
    {
        proof {
            use_type_invariant(self);
        }
        let encoded = self.encoded_state;
        let state = encoded % 16;
        if state == 0 {
            ComparisonAudioSnapshot::inactive()
        } else {
            let sequence_index = state - 1;
            proof {
                lemma_packed_word_fields(self.sequence@, state as nat, 0);
                let len = self.sequence@.len();
                assert(sequence_index % (len as usize) == sequence_index) by {
                    lemma_small_mod(sequence_index as nat, len);
                }
                lemma_packed_word_fields(self.sequence@, state as nat, sequence_index as nat);
            }
            let phase = phase_at_encoded_sequence(encoded, sequence_index);
            proof {
                lemma_stored_len_of_packed(self.sequence@, state as nat, 0);
                let p = self.sequence@[sequence_index as int];
                assert(code_phase(phase_code(p)) == Some(p));
            }
            ComparisonAudioSnapshot { sequence_index: Some(sequence_index), phase }
        }
    }
}

impl Default for ComparisonAudioControl {
    fn default() -> (control: Self)
        ensures
            control.view_well_formed(),
            control.spec_sequence() == spec_default_comparison_sequence(),
            control.spec_position() is None,
    {
        Self::new()
    }
}

/// The step reached from `position` after `steps` calls of `advance` on a
/// running loop over a sequence of length `len`.
pub open spec fn advanced_position(position: nat, len: nat, steps: nat) -> nat
    decreases steps,
{
    if steps == 0 {
        position
    } else {
        ((advanced_position(position, len, (steps - 1) as nat) + 1) % len) as nat
    }
}

/// A loop enabled from the start and advanced `steps` times plays the phase
/// that `comparison_phase_at` gives for index `steps`: the audio control
/// walks the configured sequence step by step and wraps after its end.
pub proof fn lemma_loop_follows_sequence(sequence: Seq<ComparisonPhase>, steps: nat)
    requires
        valid_comparison_sequence(sequence),
    ensures
        advanced_position(0, sequence.len(), steps) == steps % sequence.len(),
        spec_comparison_phase_at(sequence, steps as int) == Some(
            sequence[advanced_position(0, sequence.len(), steps) as int],
        ),
    decreases steps,
{
    let len = sequence.len();
    if steps == 0 {
        lemma_small_mod(0, len);
    } else {
        lemma_loop_follows_sequence(sequence, (steps - 1) as nat);
        assert((((steps - 1) as nat % len) + 1) % len == ((steps - 1) as int + 1) % (len as int))
            by {
            lemma_add_mod_noop((steps - 1) as int, 1, len as int);
            lemma_mod_twice((steps - 1) as int, len as int);
            if len > 1 {
                lemma_small_mod(1, len);
            }
        }
    }
}

} // verus!
