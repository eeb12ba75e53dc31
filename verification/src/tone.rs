use vstd::prelude::*;
use crate::float_bits::{f32_bits_equal, f32_bits_clamp_zero_to, f32_equal, f32_clamp_zero_to};

verus! {

/// How many memos can sound at once.
pub const MAX_MEMO_VOICES: usize = 64;

/// The bits of the loudest amplitude a memo voice plays at, `0.5f32`.
pub const MAX_VOICE_AMPLITUDE_BITS: u32 = 0x3f00_0000;

/// A memo that should sound now: which memo, its MIDI note and its
/// amplitude (`f32` bits).
#[derive(Debug, Clone, Copy, PartialEq, Eq, Structural)]
pub struct MemoToneRequest {
    pub memo_key: u64,
    pub midi_note: u8,
    pub amplitude_bits: u32,
}

/// Two requests compare equal: same memo and note, amplitudes equal by
/// `==`.
pub open spec fn requests_equal(a: MemoToneRequest, b: MemoToneRequest) -> bool {
    a.memo_key == b.memo_key && a.midi_note == b.midi_note && f32_bits_equal(
        a.amplitude_bits,
        b.amplitude_bits,
    )
}

fn same_request(a: MemoToneRequest, b: MemoToneRequest) -> (same: bool)
    ensures
        same == requests_equal(a, b),
{
    a.memo_key == b.memo_key && a.midi_note == b.midi_note && f32_equal(
        a.amplitude_bits,
        b.amplitude_bits,
    )
}

/// What the audio thread reads to play one memo voice: whether it sounds,
/// a trigger key that changes with every new note, the note and the
/// amplitude (`f32` bits).
#[derive(Debug, Clone, Copy, PartialEq, Eq, Structural)]
pub struct ToneVoiceControl {
    active: bool,
    key: u64,
    midi_note: u8,
    amplitude_bits: u32,
}

impl ToneVoiceControl {
    pub closed spec fn spec_active(self) -> bool {
        self.active
    }

    pub closed spec fn spec_key(self) -> u64 {
        self.key
    }

    pub closed spec fn spec_midi_note(self) -> u8 {
        self.midi_note
    }

    pub closed spec fn spec_amplitude_bits(self) -> u32 {
        self.amplitude_bits
    }

    /// The control after a new note: its key advanced (wrapping), sounding
    /// the request's note at its amplitude clamped to `0.0..=0.5`.
    pub closed spec fn after_update(self, request: MemoToneRequest) -> ToneVoiceControl {
        ToneVoiceControl {
            active: true,
            key: if self.key == u64::MAX {
                0
            } else {
                (self.key + 1) as u64
            },
            midi_note: request.midi_note,
            amplitude_bits: f32_bits_clamp_zero_to(request.amplitude_bits, MAX_VOICE_AMPLITUDE_BITS),
        }
    }

    /// The control silenced, everything else kept.
    pub closed spec fn after_stop(self) -> ToneVoiceControl {
        ToneVoiceControl { active: false, ..self }
    }

    /// A silent voice on A4 at zero amplitude, with key 0.
    pub closed spec fn new_spec() -> ToneVoiceControl {
        ToneVoiceControl { active: false, key: 0, midi_note: 69, amplitude_bits: 0 }
    }

    /// A silent voice on A4 at zero amplitude, with key 0.
    pub fn new() -> (control: ToneVoiceControl)
        ensures
            control == Self::new_spec(),
            !control.spec_active(),
            control.spec_key() == 0,
            control.spec_midi_note() == 69,
            control.spec_amplitude_bits() == 0,
    {
        ToneVoiceControl { active: false, key: 0, midi_note: 69, amplitude_bits: 0 }
    }

    /// Plays a request as a new note: the key always advances, so that the
    /// same memo played again (after a seek or a loop) starts afresh.
    pub fn update(&mut self, request: MemoToneRequest)
        ensures
            *final(self) == old(self).after_update(request),
            final(self).spec_active(),
            final(self).spec_key() == if old(self).spec_key() == u64::MAX {
                0
            } else {
                (old(self).spec_key() + 1) as u64
            },
            final(self).spec_midi_note() == request.midi_note,
            final(self).spec_amplitude_bits() == f32_bits_clamp_zero_to(
                request.amplitude_bits,
                MAX_VOICE_AMPLITUDE_BITS,
            ),
    {
        self.active = false;
        self.key = if self.key == u64::MAX {
            0
        } else {
            self.key + 1
        };
        self.midi_note = request.midi_note;
        self.amplitude_bits = f32_clamp_zero_to(request.amplitude_bits, MAX_VOICE_AMPLITUDE_BITS);
        self.active = true;
    }

    /// Silences the voice, keeping its key, note and amplitude.
    pub fn stop(&mut self)
        ensures
            *final(self) == old(self).after_stop(),
            !final(self).spec_active(),
            final(self).spec_key() == old(self).spec_key(),
            final(self).spec_midi_note() == old(self).spec_midi_note(),
            final(self).spec_amplitude_bits() == old(self).spec_amplitude_bits(),
    {
        self.active = false;
    }

    pub fn is_active(&self) -> (active: bool)
        ensures
            active == self.spec_active(),
    {
        self.active
    }

    pub fn key(&self) -> (key: u64)
        ensures
            key == self.spec_key(),
    {
        self.key
    }

    pub fn midi_note(&self) -> (note: u8)
        ensures
            note == self.spec_midi_note(),
    {
        self.midi_note
    }

    pub fn amplitude_bits(&self) -> (bits: u32)
        ensures
            bits == self.spec_amplitude_bits(),
    {
        self.amplitude_bits
    }
}

/// The memo voices as values: what each slot plays, its control, and the
/// transport generation the voices belong to.
#[verifier::ext_equal]
pub struct VoiceBankView {
    pub slots: Seq<Option<MemoToneRequest>>,
    pub voices: Seq<ToneVoiceControl>,
    pub last_transport_generation: Option<u64>,
}

/// Every voice silenced and every slot free.
pub open spec fn all_stopped(v: VoiceBankView) -> VoiceBankView {
    VoiceBankView {
        slots: Seq::new(v.slots.len(), |i: int| None),
        voices: v.voices.map_values(|control: ToneVoiceControl| control.after_stop()),
        ..v
    }
}

/// After a seek or a restart (a new transport generation) every voice is
/// silenced before the new ones are placed.
pub open spec fn for_transport(v: VoiceBankView, generation: u64) -> VoiceBankView {
    if v.last_transport_generation == Some(generation) {
        v
    } else {
        VoiceBankView { last_transport_generation: Some(generation), ..all_stopped(v) }
    }
}

/// Whether some request is for this memo.
pub open spec fn is_requested(requests: Seq<MemoToneRequest>, key: u64) -> bool {
    exists|i: int| 0 <= i < requests.len() && #[trigger] requests[i].memo_key == key
}

/// Whether a slot plays a memo that is no longer requested.
pub open spec fn slot_released(slot: Option<MemoToneRequest>, requests: Seq<MemoToneRequest>) -> bool {
    slot matches Some(current) && !is_requested(requests, current.memo_key)
}

/// The slots of memos no longer requested freed and their voices silenced.
pub open spec fn released(v: VoiceBankView, requests: Seq<MemoToneRequest>) -> VoiceBankView {
    VoiceBankView {
        slots: Seq::new(
            v.slots.len(),
            |i: int|
                if slot_released(v.slots[i], requests) {
                    None
                } else {
                    v.slots[i]
                },
        ),
        voices: Seq::new(
            v.voices.len(),
            |i: int|
                if slot_released(v.slots[i], requests) {
                    v.voices[i].after_stop()
                } else {
                    v.voices[i]
                },
        ),
        ..v
    }
}

/// Whether a slot plays this memo.
pub open spec fn holds_key(slot: Option<MemoToneRequest>, key: u64) -> bool {
    slot matches Some(current) && current.memo_key == key
}

/// `i` is the first slot playing this memo.
pub open spec fn is_first_keyed(slots: Seq<Option<MemoToneRequest>>, key: u64, i: int) -> bool {
    &&& 0 <= i < slots.len()
    &&& holds_key(slots[i], key)
    &&& forall|j: int| 0 <= j < i ==> !holds_key(#[trigger] slots[j], key)
}

/// `i` is the first free slot.
pub open spec fn is_first_free(slots: Seq<Option<MemoToneRequest>>, i: int) -> bool {
    &&& 0 <= i < slots.len()
    &&& slots[i] is None
    &&& forall|j: int| 0 <= j < i ==> #[trigger] slots[j] is Some
}

/// The slot a request goes to: the one already playing its memo, else the
/// first free one; `None` when every slot plays another memo.
pub open spec fn slot_for(slots: Seq<Option<MemoToneRequest>>, key: u64) -> Option<int> {
    if exists|i: int| is_first_keyed(slots, key, i) {
        Some(choose|i: int| is_first_keyed(slots, key, i))
    } else if exists|i: int| is_first_free(slots, i) {
        Some(choose|i: int| is_first_free(slots, i))
    } else {
        None
    }
}

/// A request placed in slot `k`: a new note there unless the slot already
/// plays an equal request.
pub open spec fn placed(v: VoiceBankView, request: MemoToneRequest, k: int) -> VoiceBankView {
    if v.slots[k] matches Some(current) && requests_equal(current, request) {
        v
    } else {
        VoiceBankView {
            slots: v.slots.update(k, Some(request)),
            voices: v.voices.update(k, v.voices[k].after_update(request)),
            ..v
        }
    }
}

/// The requests from the `i`-th on placed one after another, until one
/// finds no slot.
pub open spec fn assigned(v: VoiceBankView, requests: Seq<MemoToneRequest>, i: int) -> VoiceBankView
    decreases requests.len() - i,
{
    if i < 0 || i >= requests.len() {
        v
    } else {
        match slot_for(v.slots, requests[i].memo_key) {
            Some(k) => assigned(placed(v, requests[i], k), requests, i + 1),
            None => v,
        }
    }
}

/// The requests that are heard: at most as many as there are voices.
pub open spec fn heard_requests(requests: Seq<MemoToneRequest>) -> Seq<MemoToneRequest> {
    if requests.len() > MAX_MEMO_VOICES {
        requests.take(MAX_MEMO_VOICES as int)
    } else {
        requests
    }
}

/// The voices after bringing them in line with the memos that should sound
/// now.
pub open spec fn synced(v: VoiceBankView, requests: Seq<MemoToneRequest>, generation: u64) -> VoiceBankView {
    let heard = heard_requests(requests);
    assigned(released(for_transport(v, generation), heard), heard, 0)
}

/// The memo voices of the preview player and the memos they play.
pub struct MemoVoiceBank {
    slots: Vec<Option<MemoToneRequest>>,
    voices: Vec<ToneVoiceControl>,
    last_transport_generation: Option<u64>,
}

impl View for MemoVoiceBank {
    type V = VoiceBankView;

    closed spec fn view(&self) -> VoiceBankView {
        VoiceBankView {
            slots: self.slots@,
            voices: self.voices@,
            last_transport_generation: self.last_transport_generation,
        }
    }
}

proof fn lemma_slot_for(slots: Seq<Option<MemoToneRequest>>, key: u64)
    ensures
        forall|i: int| is_first_keyed(slots, key, i) ==> slot_for(slots, key) == Some(i),
        (forall|j: int| 0 <= j < slots.len() ==> !holds_key(#[trigger] slots[j], key)) ==> forall|
            i: int,
        | is_first_free(slots, i) ==> slot_for(slots, key) == Some(i),
        (forall|j: int| 0 <= j < slots.len() ==> #[trigger] slots[j] is Some && !holds_key(
            slots[j],
            key,
        )) ==> slot_for(slots, key) is None,
{
    assert forall|i: int| is_first_keyed(slots, key, i) implies slot_for(slots, key) == Some(i) by {
        let k = choose|k: int| is_first_keyed(slots, key, k);
        assert(is_first_keyed(slots, key, k));
        if k < i {
            assert(!holds_key(slots[k], key));
        }
        if i < k {
            assert(!holds_key(slots[i], key));
        }
    }
    if forall|j: int| 0 <= j < slots.len() ==> !holds_key(#[trigger] slots[j], key) {
        assert(!exists|i: int| is_first_keyed(slots, key, i));
        assert forall|i: int| is_first_free(slots, i) implies slot_for(slots, key) == Some(i) by {
            let k = choose|k: int| is_first_free(slots, k);
            assert(is_first_free(slots, k));
            if k < i {
                assert(slots[k] is Some);
            }
            if i < k {
                assert(slots[i] is Some);
            }
        }
    }
}

impl MemoVoiceBank {
    /// Both slots and voices are one per memo voice.
    pub closed spec fn well_formed(&self) -> bool {
        self.slots@.len() == MAX_MEMO_VOICES && self.voices@.len() == MAX_MEMO_VOICES
    }

    /// Silent voices, free slots, no transport generation yet.
    pub fn new() -> (bank: MemoVoiceBank)
        ensures
            bank.well_formed(),
            bank@.slots == Seq::new(MAX_MEMO_VOICES as nat, |i: int| None::<MemoToneRequest>),
            forall|i: int| 0 <= i < MAX_MEMO_VOICES ==> #[trigger] bank@.voices[i] == ToneVoiceControl::new_spec(),
            bank@.last_transport_generation is None,
    {
        let mut slots: Vec<Option<MemoToneRequest>> = Vec::new();
        let mut voices: Vec<ToneVoiceControl> = Vec::new();
        let mut i: usize = 0;
        while i < MAX_MEMO_VOICES
            invariant
                i <= MAX_MEMO_VOICES,
                slots@.len() == i,
                voices@.len() == i,
                forall|j: int| 0 <= j < i ==> #[trigger] slots@[j] is None,
                forall|j: int| 0 <= j < i ==> #[trigger] voices@[j] == ToneVoiceControl::new_spec(),
            decreases MAX_MEMO_VOICES - i,
        {
            slots.push(None);
            voices.push(ToneVoiceControl::new());
            i = i + 1;
        }
        let bank = MemoVoiceBank { slots, voices, last_transport_generation: None };
        assert(bank@.slots =~= Seq::new(MAX_MEMO_VOICES as nat, |i: int| None::<MemoToneRequest>));
        bank
    }

    /// The control of a voice.
    pub fn voice(&self, slot: usize) -> (control: ToneVoiceControl)
        requires
            self.well_formed(),
            slot < MAX_MEMO_VOICES,
        ensures
            control == self@.voices[slot as int],
    {
        self.voices[slot]
    }

    /// What a voice plays.
    pub fn slot(&self, slot: usize) -> (request: Option<MemoToneRequest>)
        requires
            self.well_formed(),
            slot < MAX_MEMO_VOICES,
        ensures
            request == self@.slots[slot as int],
    {
        self.slots[slot]
    }

    /// Silences every voice and frees every slot.
    pub fn stop_all_memo_voices(&mut self)
        requires
            old(self).well_formed(),
        ensures
            final(self).well_formed(),
            final(self)@ == all_stopped(old(self)@),
    {
        let ghost start = self@;
        let mut i: usize = 0;
        while i < MAX_MEMO_VOICES
            invariant
                self.well_formed(),
                i <= MAX_MEMO_VOICES,
                self.last_transport_generation == start.last_transport_generation,
                forall|j: int| 0 <= j < i ==> #[trigger] self.slots@[j] is None,
                forall|j: int| i <= j < MAX_MEMO_VOICES ==> #[trigger] self.slots@[j] == start.slots[j],
                forall|j: int| 0 <= j < i ==> #[trigger] self.voices@[j] == start.voices[j].after_stop(),
                forall|j: int| i <= j < MAX_MEMO_VOICES ==> #[trigger] self.voices@[j] == start.voices[j],
                start.slots.len() == MAX_MEMO_VOICES,
                start.voices.len() == MAX_MEMO_VOICES,
            decreases MAX_MEMO_VOICES - i,
        {
            let mut control = self.voices[i];
            control.stop();
            self.voices.set(i, control);
            self.slots.set(i, None);
            i = i + 1;
        }
        assert(self@.slots =~= all_stopped(start).slots);
        assert(self@.voices =~= all_stopped(start).voices);
    }

    fn requested(requests: &[MemoToneRequest], count: usize, key: u64) -> (found: bool)
        requires
            count <= requests@.len(),
        ensures
            found == is_requested(requests@.take(count as int), key),
    {
        let mut i: usize = 0;
        while i < count
            invariant
                count <= requests@.len(),
                i <= count,
                forall|j: int| 0 <= j < i ==> #[trigger] requests@[j].memo_key != key,
            decreases count - i,
        {
            if requests[i].memo_key == key {
                assert(requests@.take(count as int)[i as int].memo_key == key);
                return true;
            }
            i = i + 1;
        }
        assert forall|j: int| 0 <= j < count implies #[trigger] requests@.take(count as int)[j].memo_key
            != key by {
            assert(requests@.take(count as int)[j] == requests@[j]);
        }
        false
    }

    fn find_slot(&self, key: u64) -> (found: Option<usize>)
        requires
            self.well_formed(),
        ensures
            match found {
                Some(k) => slot_for(self@.slots, key) == Some(k as int),
                None => slot_for(self@.slots, key) is None,
            },
    {
        let slots = &self.slots;
        assert(self@.slots == slots@);
        let mut i: usize = 0;
        while i < MAX_MEMO_VOICES
            invariant
                self@.slots == slots@,
                slots@.len() == MAX_MEMO_VOICES,
                i <= MAX_MEMO_VOICES,
                forall|j: int| 0 <= j < i ==> !holds_key(#[trigger] slots@[j], key),
            decreases MAX_MEMO_VOICES - i,
        {
            match slots[i] {
                Some(current) => {
                    if current.memo_key == key {
                        proof {
                            lemma_slot_for(slots@, key);
                            assert(is_first_keyed(slots@, key, i as int));
                        }
                        return Some(i);
                    }
                },
                None => {},
            }
            i = i + 1;
        }
        let mut f: usize = 0;
        while f < MAX_MEMO_VOICES
            invariant
                self@.slots == slots@,
                slots@.len() == MAX_MEMO_VOICES,
                f <= MAX_MEMO_VOICES,
                forall|j: int| 0 <= j < MAX_MEMO_VOICES ==> !holds_key(#[trigger] slots@[j], key),
                forall|j: int| 0 <= j < f ==> #[trigger] slots@[j] is Some,
            decreases MAX_MEMO_VOICES - f,
        {
            if slots[f].is_none() {
                proof {
                    lemma_slot_for(slots@, key);
                    assert(is_first_free(slots@, f as int));
                }
                return Some(f);
            }
            f = f + 1;
        }
        proof {
            lemma_slot_for(slots@, key);
        }
        None
    }

    /// Brings the memo voices in line with the memos that should sound now
    /// (at most one per voice): after a new transport generation every voice
    /// is silenced first; voices of memos no longer requested are silenced
    /// and freed; each request keeps the voice that plays its memo or takes
    /// the first free one, and starts a new note there unless that voice
    /// already plays an equal request.
    pub fn sync_memo_voices(&mut self, requests: &[MemoToneRequest], transport_generation: u64)
        requires
            old(self).well_formed(),
        ensures
            final(self).well_formed(),
            final(self)@ == synced(old(self)@, requests@, transport_generation),
    {
        let ghost start = self@;
        let count = if requests.len() > MAX_MEMO_VOICES {
            MAX_MEMO_VOICES
        } else {
            requests.len()
        };
        let ghost heard = heard_requests(requests@);
        assert(heard =~= requests@.take(count as int));
        if self.last_transport_generation != Some(transport_generation) {
            self.stop_all_memo_voices();
            self.last_transport_generation = Some(transport_generation);
        }
        assert(self@ =~= for_transport(start, transport_generation));
        let ghost before_release = self@;
        let mut i: usize = 0;
        while i < MAX_MEMO_VOICES
            invariant
                self.well_formed(),
                i <= MAX_MEMO_VOICES,
                count <= requests@.len(),
                heard == requests@.take(count as int),
                before_release.slots.len() == MAX_MEMO_VOICES,
                before_release.voices.len() == MAX_MEMO_VOICES,
                self.last_transport_generation == before_release.last_transport_generation,
                forall|j: int| 0 <= j < i ==> #[trigger] self.slots@[j] == released(before_release, heard).slots[j],
                forall|j: int| 0 <= j < i ==> #[trigger] self.voices@[j] == released(before_release, heard).voices[j],
                forall|j: int| i <= j < MAX_MEMO_VOICES ==> #[trigger] self.slots@[j] == before_release.slots[j],
                forall|j: int| i <= j < MAX_MEMO_VOICES ==> #[trigger] self.voices@[j] == before_release.voices[j],
            decreases MAX_MEMO_VOICES - i,
        {
            match self.slots[i] {
                Some(current) => {
                    if !Self::requested(requests, count, current.memo_key) {
                        let mut control = self.voices[i];
                        control.stop();
                        self.voices.set(i, control);
                        self.slots.set(i, None);
                    }
                },
                None => {},
            }
            i = i + 1;
        }
        assert(self@ =~= released(before_release, heard));
        let ghost target = assigned(self@, heard, 0);
        let mut r: usize = 0;
        while r < count
            invariant
                self.well_formed(),
                count <= requests@.len(),
                heard == requests@.take(count as int),
                heard.len() == count,
                r <= count,
                assigned(self@, heard, r as int) == target,
            ensures
                self.well_formed(),
                self@ == target,
            decreases count - r,
        {
            let request = requests[r];
            assert(heard[r as int] == request);
            match self.find_slot(request.memo_key) {
                Some(k) => {
                    let unchanged = match self.slots[k] {
                        Some(current) => same_request(current, request),
                        None => false,
                    };
                    if !unchanged {
                        let mut control = self.voices[k];
                        control.update(request);
                        self.voices.set(k, control);
                        self.slots.set(k, Some(request));
                    }
                    r = r + 1;
                },
                None => {
                    assert(assigned(self@, heard, r as int) == self@);
                    break;
                },
            }
        }
    }
}

/// Whether two slots play the same memo.
pub open spec fn same_memo(a: Option<MemoToneRequest>, b: Option<MemoToneRequest>) -> bool {
    a matches Some(x) && b matches Some(y) && x.memo_key == y.memo_key
}

/// No memo plays in two voices.
pub open spec fn one_voice_per_memo(slots: Seq<Option<MemoToneRequest>>) -> bool {
    forall|i: int, j: int|
        0 <= i < j < slots.len() ==> !same_memo(#[trigger] slots[i], #[trigger] slots[j])
}

/// Every voice in use plays a requested memo.
pub open spec fn only_requested(slots: Seq<Option<MemoToneRequest>>, requests: Seq<MemoToneRequest>) -> bool {
    forall|k: int|
        0 <= k < slots.len() ==> (#[trigger] slots[k] matches Some(current) ==> is_requested(
            requests,
            current.memo_key,
        ))
}

proof fn lemma_first_keyed_exists(slots: Seq<Option<MemoToneRequest>>, key: u64, j: int)
    requires
        0 <= j < slots.len(),
        holds_key(slots[j], key),
    ensures
        exists|i: int| is_first_keyed(slots, key, i),
    decreases j,
{
    if exists|k: int| 0 <= k < j && holds_key(#[trigger] slots[k], key) {
        let k = choose|k: int| 0 <= k < j && holds_key(#[trigger] slots[k], key);
        lemma_first_keyed_exists(slots, key, k);
    } else {
        assert(is_first_keyed(slots, key, j));
    }
}

/// The slot a request goes to either plays its memo already, or is free
/// while no slot plays it.
proof fn lemma_slot_for_choice(slots: Seq<Option<MemoToneRequest>>, key: u64)
    ensures
        slot_for(slots, key) matches Some(k) ==> 0 <= k < slots.len() && (holds_key(slots[k], key)
            || (slots[k] is None && forall|j: int|
            0 <= j < slots.len() ==> !holds_key(#[trigger] slots[j], key))),
{
    if let Some(k) = slot_for(slots, key) {
        if exists|i: int| is_first_keyed(slots, key, i) {
        } else {
            assert forall|j: int| 0 <= j < slots.len() implies !holds_key(#[trigger] slots[j], key) by {
                if holds_key(slots[j], key) {
                    lemma_first_keyed_exists(slots, key, j);
                }
            }
        }
    }
}

proof fn lemma_assigned_keeps(v: VoiceBankView, requests: Seq<MemoToneRequest>, i: int)
    requires
        0 <= i,
        v.slots.len() == v.voices.len(),
        one_voice_per_memo(v.slots),
        only_requested(v.slots, requests),
    ensures
        one_voice_per_memo(assigned(v, requests, i).slots),
        only_requested(assigned(v, requests, i).slots, requests),
        assigned(v, requests, i).slots.len() == v.slots.len(),
        assigned(v, requests, i).voices.len() == v.voices.len(),
    decreases requests.len() - i,
{
    if i < requests.len() {
        let request = requests[i];
        if let Some(k) = slot_for(v.slots, request.memo_key) {
            lemma_slot_for_choice(v.slots, request.memo_key);
            let next = placed(v, request, k);
            assert forall|a: int, b: int| 0 <= a < b < next.slots.len() implies !same_memo(
                #[trigger] next.slots[a],
                #[trigger] next.slots[b],
            ) by {
                if a != k && b != k {
                    assert(next.slots[a] == v.slots[a] && next.slots[b] == v.slots[b]);
                } else if next.slots[k] != v.slots[k] {
                    if a == k {
                        assert(!same_memo(v.slots[k], v.slots[b]) || !holds_key(v.slots[b], request.memo_key));
                    } else {
                        assert(!same_memo(v.slots[a], v.slots[k]) || !holds_key(v.slots[a], request.memo_key));
                    }
                }
            }
            assert forall|m: int| 0 <= m < next.slots.len() implies (#[trigger] next.slots[m] matches Some(
                current,
            ) ==> is_requested(requests, current.memo_key)) by {
                if m == k && next.slots[k] != v.slots[k] {
                    assert(requests[i].memo_key == request.memo_key);
                } else {
                    assert(next.slots[m] == v.slots[m]);
                }
            }
            lemma_assigned_keeps(next, requests, i + 1);
        }
    }
}

/// Bringing the voices in line with the requests never lets one memo sound
/// in two voices, and leaves only requested memos sounding.
pub proof fn lemma_sync_keeps_one_voice_per_memo(
    v: VoiceBankView,
    requests: Seq<MemoToneRequest>,
    generation: u64,
)
    requires
        v.slots.len() == MAX_MEMO_VOICES,
        v.voices.len() == MAX_MEMO_VOICES,
        one_voice_per_memo(v.slots),
    ensures
        one_voice_per_memo(synced(v, requests, generation).slots),
        only_requested(synced(v, requests, generation).slots, heard_requests(requests)),
{
    let heard = heard_requests(requests);
    let t = for_transport(v, generation);
    assert(one_voice_per_memo(t.slots));
    let r = released(t, heard);
    assert forall|a: int, b: int| 0 <= a < b < r.slots.len() implies !same_memo(
        #[trigger] r.slots[a],
        #[trigger] r.slots[b],
    ) by {
        assert(!same_memo(t.slots[a], t.slots[b]));
    }
    assert forall|m: int| 0 <= m < r.slots.len() implies (#[trigger] r.slots[m] matches Some(current)
        ==> is_requested(heard, current.memo_key)) by {}
    lemma_assigned_keeps(r, heard, 0);
}


/// Every voice in use sounds the note of the request its slot holds.
pub open spec fn voices_follow_slots(v: VoiceBankView) -> bool {
    forall|k: int|
        0 <= k < v.slots.len() ==> (#[trigger] v.slots[k] matches Some(current) ==> {
            &&& v.voices[k].spec_active()
            &&& v.voices[k].spec_midi_note() == current.midi_note
        })
}

/// Voice `k` plays this request: its slot holds the same memo and note and
/// the request's amplitude (the same bits, or a value equal to it), and the
/// voice sounds that note.
pub open spec fn slot_sounds(v: VoiceBankView, k: int, request: MemoToneRequest) -> bool {
    &&& v.slots[k] matches Some(current)
    &&& current.memo_key == request.memo_key
    &&& current.midi_note == request.midi_note
    &&& (current.amplitude_bits == request.amplitude_bits || f32_bits_equal(
        current.amplitude_bits,
        request.amplitude_bits,
    ))
    &&& v.voices[k].spec_active()
    &&& v.voices[k].spec_midi_note() == request.midi_note
}

/// Some voice plays this request.
pub open spec fn sounds_request(v: VoiceBankView, request: MemoToneRequest) -> bool {
    exists|k: int| 0 <= k < v.slots.len() && #[trigger] slot_sounds(v, k, request)
}

/// Every voice is in use.
pub open spec fn all_voices_busy(v: VoiceBankView) -> bool {
    forall|k: int| 0 <= k < v.slots.len() ==> #[trigger] v.slots[k] is Some
}

/// No two requests are for the same memo.
pub open spec fn distinct_memos(requests: Seq<MemoToneRequest>) -> bool {
    forall|a: int, b: int|
        0 <= a < b < requests.len() ==> #[trigger] requests[a].memo_key != #[trigger] requests[b].memo_key
}

proof fn lemma_assigned_sounds(v: VoiceBankView, requests: Seq<MemoToneRequest>, i: int)
    requires
        0 <= i <= requests.len(),
        v.slots.len() == v.voices.len(),
        voices_follow_slots(v),
        distinct_memos(requests),
        forall|j: int| 0 <= j < i ==> sounds_request(v, #[trigger] requests[j]) || all_voices_busy(v),
    ensures
        voices_follow_slots(assigned(v, requests, i)),
        forall|j: int|
            0 <= j < requests.len() ==> sounds_request(assigned(v, requests, i), #[trigger] requests[j])
                || all_voices_busy(assigned(v, requests, i)),
    decreases requests.len() - i,
{
    if i < requests.len() {
        let request = requests[i];
        lemma_slot_for_choice(v.slots, request.memo_key);
        match slot_for(v.slots, request.memo_key) {
            Some(k) => {
                let next = placed(v, request, k);
                assert(next.slots.len() == v.slots.len());
                assert forall|m: int| 0 <= m < next.slots.len() implies (#[trigger] next.slots[m] matches Some(
                    current,
                ) ==> {
                    &&& next.voices[m].spec_active()
                    &&& next.voices[m].spec_midi_note() == current.midi_note
                }) by {
                    if m != k {
                        assert(next.slots[m] == v.slots[m] && next.voices[m] == v.voices[m]);
                    }
                }
                if v.slots[k] matches Some(current) && requests_equal(current, request) {
                    assert(next == v);
                    assert(v.slots[k] matches Some(current) ==> v.voices[k].spec_active()
                        && v.voices[k].spec_midi_note() == current.midi_note);
                } else {
                    assert(next.slots[k] == Some(request));
                    assert(next.voices[k] == v.voices[k].after_update(request));
                }
                assert(slot_sounds(next, k, request));
                assert forall|j: int| 0 <= j < i + 1 implies sounds_request(next, #[trigger] requests[j])
                    || all_voices_busy(next) by {
                    if j < i {
                        if sounds_request(v, requests[j]) {
                            let m = choose|m: int| 0 <= m < v.slots.len() && #[trigger] slot_sounds(v, m, requests[j]);
                            assert(requests[j].memo_key != requests[i].memo_key);
                            assert(m != k);
                            assert(next.slots[m] == v.slots[m] && next.voices[m] == v.voices[m]);
                            assert(slot_sounds(next, m, requests[j]));
                        } else {
                            assert forall|m: int| 0 <= m < next.slots.len() implies #[trigger] next.slots[m] is Some by {
                                if m != k {
                                    assert(next.slots[m] == v.slots[m]);
                                }
                            }
                        }
                    }
                }
                lemma_assigned_sounds(next, requests, i + 1);
            },
            None => {
                assert forall|m: int| 0 <= m < v.slots.len() implies #[trigger] v.slots[m] is Some by {
                    if v.slots[m] is None {
                        if !exists|f: int| is_first_free(v.slots, f) {
                            lemma_first_free_exists(v.slots, m);
                        }
                    }
                }
            },
        }
    }
}

proof fn lemma_first_free_exists(slots: Seq<Option<MemoToneRequest>>, j: int)
    requires
        0 <= j < slots.len(),
        slots[j] is None,
    ensures
        exists|i: int| is_first_free(slots, i),
    decreases j,
{
    if exists|k: int| 0 <= k < j && #[trigger] slots[k] is None {
        let k = choose|k: int| 0 <= k < j && #[trigger] slots[k] is None;
        lemma_first_free_exists(slots, k);
    } else {
        assert(is_first_free(slots, j));
    }
}

/// After the voices are brought in line with requests for distinct memos,
/// every heard request sounds: some voice plays its memo with its note and
/// an equal amplitude, unless every voice is taken. Voices in use keep
/// sounding the notes their slots hold.
pub proof fn lemma_sync_sounds_every_request(
    v: VoiceBankView,
    requests: Seq<MemoToneRequest>,
    generation: u64,
)
    requires
        v.slots.len() == v.voices.len(),
        voices_follow_slots(v),
        distinct_memos(heard_requests(requests)),
    ensures
        voices_follow_slots(synced(v, requests, generation)),
        forall|j: int|
            0 <= j < heard_requests(requests).len() ==> sounds_request(
                synced(v, requests, generation),
                #[trigger] heard_requests(requests)[j],
            ) || all_voices_busy(synced(v, requests, generation)),
{
    let heard = heard_requests(requests);
    let t = for_transport(v, generation);
    assert(voices_follow_slots(t));
    let r = released(t, heard);
    assert forall|k: int| 0 <= k < r.slots.len() implies (#[trigger] r.slots[k] matches Some(current)
        ==> {
        &&& r.voices[k].spec_active()
        &&& r.voices[k].spec_midi_note() == current.midi_note
    }) by {
        if !slot_released(t.slots[k], heard) {
            assert(r.slots[k] == t.slots[k] && r.voices[k] == t.voices[k]);
        }
    }
    lemma_assigned_sounds(r, heard, 0);
}

} // verus!
