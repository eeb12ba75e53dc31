use vstd::prelude::*;

verus! {

/// Frames of the analysis window of the frozen spectrum.
pub const FREEZE_FFT_SIZE: usize = 4096;

/// Frames of the frozen loop: a quarter of the window.
pub const FREEZE_HOP_SIZE: usize = 1024;

/// Where the freeze is in its life: off, fading in, held, or fading out.
#[derive(Debug, Clone, Copy, PartialEq, Eq, Structural)]
pub enum FreezeMode {
    Inactive,
    FadingIn,
    Active,
    FadingOut,
}

/// The frames of the equal-power cross-fade for an output rate: 20 ms,
/// rounded to the nearest frame (halves up), at least one.
pub open spec fn fade_frames_for_rate(output_sample_rate: nat) -> nat {
    let rounded = (output_sample_rate * 20 + 500) / 1000;
    if rounded == 0 {
        1
    } else {
        rounded
    }
}

/// One output frame of the cross-fade between the frozen and the live sound.
#[derive(Debug, Clone, Copy, PartialEq, Eq, Structural)]
pub enum MixStep {
    /// Only the live sound plays.
    Inactive,
    /// Only the frozen sound plays.
    Active,
    /// Frame `frame` of a fade into the frozen sound that lasts `fade_frames`.
    FadingIn { frame: usize, fade_frames: usize },
    /// Frame `frame` of a fade back to the live sound that lasts `fade_frames`.
    FadingOut { frame: usize, fade_frames: usize },
}

/// A frozen spectral frame that the audio callback loops over, double
/// buffered so that a new frame is written beside the one being played.
/// Samples are kept as the bit patterns of their `f32` values.
pub struct SpectralFreeze {
    mode: FreezeMode,
    position_frames_bits: u64,
    active_buffer: usize,
    buffers: Vec<Vec<u32>>,
    channels: usize,
    fade_frames: usize,
    transition_frame: usize,
    output_frame: usize,
}

impl SpectralFreeze {
    #[verifier::type_invariant]
    spec fn well_formed(self) -> bool {
        &&& 1 <= self.channels <= 32
        &&& self.fade_frames >= 1
        &&& self.active_buffer < 2
        &&& self.buffers@.len() == 2
        &&& forall|b: int|
            0 <= b < 2 ==> (#[trigger] self.buffers@[b])@.len() == FREEZE_HOP_SIZE * self.channels
    }

    pub closed spec fn spec_mode(&self) -> FreezeMode {
        self.mode
    }

    pub closed spec fn spec_channels(&self) -> nat {
        self.channels as nat
    }

    pub closed spec fn spec_fade_frames(&self) -> nat {
        self.fade_frames as nat
    }

    pub closed spec fn spec_transition_frame(&self) -> nat {
        self.transition_frame as nat
    }

    pub closed spec fn spec_output_frame(&self) -> nat {
        self.output_frame as nat
    }

    pub closed spec fn spec_position_frames_bits(&self) -> u64 {
        self.position_frames_bits
    }

    /// The sample that channel `channel` plays at the current output frame.
    pub closed spec fn spec_sample_bits(&self, channel: nat) -> u32 {
        let source_channel = if channel < self.channels {
            channel
        } else {
            (self.channels - 1) as nat
        };
        self.buffers@[self.active_buffer as int]@[source_channel * FREEZE_HOP_SIZE + (
        self.output_frame as nat % (FREEZE_HOP_SIZE as nat))]
    }

    /// The frozen frame being played, channel after channel.
    pub closed spec fn spec_frame(&self) -> Seq<u32> {
        self.buffers@[self.active_buffer as int]@
    }

    /// The freeze after `begin_deactivation`.
    pub closed spec fn spec_after_begin_deactivation(self) -> SpectralFreeze {
        if self.mode == FreezeMode::Inactive {
            self
        } else {
            SpectralFreeze { mode: FreezeMode::FadingOut, transition_frame: 0, ..self }
        }
    }

    /// What `mix_step` reports for the next output frame.
    pub closed spec fn spec_mix_step(self) -> MixStep {
        match self.mode {
            FreezeMode::Inactive => MixStep::Inactive,
            FreezeMode::Active => MixStep::Active,
            FreezeMode::FadingIn => MixStep::FadingIn {
                frame: self.transition_frame,
                fade_frames: self.fade_frames,
            },
            FreezeMode::FadingOut => MixStep::FadingOut {
                frame: self.transition_frame,
                fade_frames: self.fade_frames,
            },
        }
    }

    /// The freeze after one `mix_step`: a fade counts one frame (the counter
    /// wraps at the end of `usize`) and ends once `fade_frames` have passed.
    pub closed spec fn spec_after_mix_step(self) -> SpectralFreeze {
        if self.mode == FreezeMode::FadingIn || self.mode == FreezeMode::FadingOut {
            let ended = self.transition_frame + 1 >= self.fade_frames;
            SpectralFreeze {
                mode: if !ended {
                    self.mode
                } else if self.mode == FreezeMode::FadingIn {
                    FreezeMode::Active
                } else {
                    FreezeMode::Inactive
                },
                transition_frame: ((self.transition_frame + 1) % (usize::MAX as int + 1)) as usize,
                ..self
            }
        } else {
            self
        }
    }

    /// The freeze after one `advance`.
    pub closed spec fn spec_after_advance(self) -> SpectralFreeze {
        SpectralFreeze {
            output_frame: ((self.output_frame + 1) % (usize::MAX as int + 1)) as usize,
            ..self
        }
    }

    /// A silent, inactive freeze for `channels` channels (clamped to 1..=32)
    /// at `output_sample_rate`.
    pub fn new(channels: usize, output_sample_rate: u32) -> (freeze: SpectralFreeze)
        ensures
            freeze.spec_mode() == FreezeMode::Inactive,
            freeze.spec_channels() == if channels < 1 {
                1
            } else if channels > 32 {
                32
            } else {
                channels as nat
            },
            freeze.spec_fade_frames() == fade_frames_for_rate(output_sample_rate as nat),
            freeze.spec_position_frames_bits() == 0,
            freeze.spec_frame() == Seq::new(
                (FREEZE_HOP_SIZE * freeze.spec_channels()) as nat,
                |i: int| 0u32,
            ),
            freeze.spec_output_frame() == 0,
    {
        let channels = if channels < 1 {
            1
        } else if channels > 32 {
            32
        } else {
            channels
        };
        let rounded = (output_sample_rate as u64 * 20 + 500) / 1000;
        let fade_frames: usize = if rounded == 0 {
            1
        } else {
            rounded as usize
        };
        let mut buffers: Vec<Vec<u32>> = Vec::new();
        buffers.push(silent_buffer(FREEZE_HOP_SIZE * channels));
        buffers.push(silent_buffer(FREEZE_HOP_SIZE * channels));
        SpectralFreeze {
            mode: FreezeMode::Inactive,
            position_frames_bits: 0,
            active_buffer: 0,
            buffers,
            channels,
            fade_frames,
            transition_frame: 0,
            output_frame: 0,
        }
    }

    pub fn is_active(&self) -> (active: bool)
        ensures
            active == (self.spec_mode() != FreezeMode::Inactive),
    {
        self.mode != FreezeMode::Inactive
    }

    /// The source position, in frames, where the frame was taken, as the
    /// bit pattern of its `f64` value.
    pub fn position_frames_bits(&self) -> (bits: u64)
        ensures
            bits == self.spec_position_frames_bits(),
    {
        self.position_frames_bits
    }

    /// How many frames one frozen loop lasts in each channel.
    pub fn hop_frames(&self) -> (frames: usize)
        ensures
            frames == FREEZE_HOP_SIZE,
    {
        FREEZE_HOP_SIZE
    }

    pub fn channels(&self) -> (channels: usize)
        ensures
            channels == self.spec_channels(),
    {
        self.channels
    }

    /// Installs a new frozen frame taken at `position_frames_bits`: the
    /// frame goes into the buffer that is not playing, which then becomes the
    /// one that plays from its start, and the freeze fades in.
    /// `frame` holds `FREEZE_HOP_SIZE` samples of each channel, channel after
    /// channel; a shorter frame is padded with silence, a longer one cut.
    pub fn install_frame(&mut self, position_frames_bits: u64, frame: &[u32])
        ensures
            final(self).spec_mode() == FreezeMode::FadingIn,
            final(self).spec_position_frames_bits() == position_frames_bits,
            final(self).spec_transition_frame() == 0,
            final(self).spec_output_frame() == 0,
            final(self).spec_channels() == old(self).spec_channels(),
            final(self).spec_fade_frames() == old(self).spec_fade_frames(),
            final(self).spec_frame().len() == FREEZE_HOP_SIZE * old(self).spec_channels(),
            forall|i: int|
                0 <= i < FREEZE_HOP_SIZE * old(self).spec_channels() ==> #[trigger] final(self).spec_frame()[i] == if i < frame@.len() {
                    frame@[i]
                } else {
                    0u32
                },
    {
        proof {
            use_type_invariant(&*self);
        }
        let target: usize = 1 - self.active_buffer;
        let len = FREEZE_HOP_SIZE * self.channels;
        let mut buffer: Vec<u32> = Vec::new();
        let mut index: usize = 0;
        while index < len
            invariant
                index <= len,
                buffer@.len() == index,
                forall|i: int|
                    0 <= i < index ==> #[trigger] buffer@[i] == if i < frame@.len() {
                        frame@[i]
                    } else {
                        0u32
                    },
            decreases len - index,
        {
            if index < frame.len() {
                buffer.push(frame[index]);
            } else {
                buffer.push(0);
            }
            index = index + 1;
        }
        let mut buffers: Vec<Vec<u32>> = Vec::new();
        if target == 0 {
            buffers.push(buffer);
            buffers.push(self.buffers[1].clone());
        } else {
            buffers.push(self.buffers[0].clone());
            buffers.push(buffer);
        }
        *self = SpectralFreeze {
            mode: FreezeMode::FadingIn,
            position_frames_bits,
            active_buffer: target,
            buffers,
            channels: self.channels,
            fade_frames: self.fade_frames,
            transition_frame: 0,
            output_frame: 0,
        };
    }

    /// Starts fading back to the live sound, unless the freeze is off.
    pub fn begin_deactivation(&mut self)
        ensures
            *final(self) == old(self).spec_after_begin_deactivation(),
            old(self).spec_mode() == FreezeMode::Inactive ==> *final(self) == *old(self),
            old(self).spec_mode() != FreezeMode::Inactive ==> {
                &&& final(self).spec_mode() == FreezeMode::FadingOut
                &&& final(self).spec_transition_frame() == 0
                &&& final(self).spec_frame() == old(self).spec_frame()
                &&& final(self).spec_output_frame() == old(self).spec_output_frame()
                &&& final(self).spec_fade_frames() == old(self).spec_fade_frames()
                &&& final(self).spec_channels() == old(self).spec_channels()
            },
    {
        proof {
            use_type_invariant(&*self);
        }
        if self.mode != FreezeMode::Inactive {
            self.transition_frame = 0;
            self.mode = FreezeMode::FadingOut;
        }
    }

    /// Turns the freeze off at once.
    pub fn stop(&mut self)
        ensures
            final(self).spec_mode() == FreezeMode::Inactive,
            final(self).spec_frame() == old(self).spec_frame(),
            final(self).spec_channels() == old(self).spec_channels(),
            final(self).spec_fade_frames() == old(self).spec_fade_frames(),
    {
        proof {
            use_type_invariant(&*self);
        }
        self.mode = FreezeMode::Inactive;
    }

    /// The cross-fade for the next output frame. A fade counts its frames and
    /// ends after `fade_frames` of them: a fade-in holds the frozen sound, a
    /// fade-out turns the freeze off.
    pub fn mix_step(&mut self) -> (step: MixStep)
        ensures
            step == old(self).spec_mix_step(),
            *final(self) == old(self).spec_after_mix_step(),
            final(self).spec_frame() == old(self).spec_frame(),
            final(self).spec_output_frame() == old(self).spec_output_frame(),
            final(self).spec_channels() == old(self).spec_channels(),
            final(self).spec_fade_frames() == old(self).spec_fade_frames(),
            match old(self).spec_mode() {
                FreezeMode::Inactive => step == MixStep::Inactive && *final(self) == *old(self),
                FreezeMode::Active => step == MixStep::Active && *final(self) == *old(self),
                FreezeMode::FadingIn => {
                    &&& step == (MixStep::FadingIn {
                        frame: old(self).spec_transition_frame() as usize,
                        fade_frames: old(self).spec_fade_frames() as usize,
                    })
                    &&& final(self).spec_transition_frame() == (old(self).spec_transition_frame() + 1) % (usize::MAX as nat + 1)
                    &&& final(self).spec_mode() == if old(self).spec_transition_frame() + 1
                        >= old(self).spec_fade_frames() {
                        FreezeMode::Active
                    } else {
                        FreezeMode::FadingIn
                    }
                },
                FreezeMode::FadingOut => {
                    &&& step == (MixStep::FadingOut {
                        frame: old(self).spec_transition_frame() as usize,
                        fade_frames: old(self).spec_fade_frames() as usize,
                    })
                    &&& final(self).spec_transition_frame() == (old(self).spec_transition_frame() + 1) % (usize::MAX as nat + 1)
                    &&& final(self).spec_mode() == if old(self).spec_transition_frame() + 1
                        >= old(self).spec_fade_frames() {
                        FreezeMode::Inactive
                    } else {
                        FreezeMode::FadingOut
                    }
                },
            },
    {
        proof {
            use_type_invariant(&*self);
        }
        let mode = self.mode;
        if mode == FreezeMode::Inactive {
            return MixStep::Inactive;
        }
        if mode == FreezeMode::Active {
            return MixStep::Active;
        }
        match mode {
            FreezeMode::Inactive => MixStep::Inactive,
            FreezeMode::Active => MixStep::Active,
            FreezeMode::FadingIn => {
                let frame = self.transition_frame;
                let fade_frames = self.fade_frames;
                proof {
                    next_counter_is_mod(frame as nat);
                }
                self.transition_frame = if frame == usize::MAX {
                    0
                } else {
                    frame + 1
                };
                if frame >= fade_frames - 1 {
                    self.mode = FreezeMode::Active;
                }
                MixStep::FadingIn { frame, fade_frames }
            },
            FreezeMode::FadingOut => {
                let frame = self.transition_frame;
                let fade_frames = self.fade_frames;
                proof {
                    next_counter_is_mod(frame as nat);
                }
                self.transition_frame = if frame == usize::MAX {
                    0
                } else {
                    frame + 1
                };
                if frame >= fade_frames - 1 {
                    self.mode = FreezeMode::Inactive;
                }
                MixStep::FadingOut { frame, fade_frames }
            },
        }
    }

    /// The frozen sample of `channel` (the last channel stands in for any
    /// channel beyond it) at the current output frame.
    pub fn sample_bits(&self, channel: usize) -> (bits: u32)
        ensures
            bits == self.spec_sample_bits(channel as nat),
    {
        proof {
            use_type_invariant(self);
        }
        let source_channel = if channel < self.channels {
            channel
        } else {
            self.channels - 1
        };
        self.buffers[self.active_buffer][source_channel * FREEZE_HOP_SIZE + self.output_frame
            % FREEZE_HOP_SIZE]
    }

    /// Moves to the next output frame of the loop.
    pub fn advance(&mut self)
        ensures
            *final(self) == old(self).spec_after_advance(),
            final(self).spec_output_frame() == (old(self).spec_output_frame() + 1) % (
            usize::MAX as nat + 1),
            final(self).spec_frame() == old(self).spec_frame(),
            final(self).spec_mode() == old(self).spec_mode(),
            final(self).spec_channels() == old(self).spec_channels(),
            forall|channel: nat| #[trigger]
                final(self).spec_sample_bits(channel) == old(self).spec_frame()[(if channel
                    < old(self).spec_channels() {
                    channel
                } else {
                    (old(self).spec_channels() - 1) as nat
                }) * FREEZE_HOP_SIZE + (final(self).spec_output_frame() % (FREEZE_HOP_SIZE as nat))],
    {
        proof {
            use_type_invariant(&*self);
        }
        let next = if self.output_frame == usize::MAX {
            0
        } else {
            self.output_frame + 1
        };
        proof {
            next_counter_is_mod(self.output_frame as nat);
        }
        self.output_frame = next;
    }
}

proof fn next_counter_is_mod(counter: nat)
    requires
        counter <= usize::MAX,
    ensures
        (counter + 1) % (usize::MAX as nat + 1) == if counter == usize::MAX {
            0
        } else {
            counter + 1
        },
{
    if counter == usize::MAX {
        vstd::arithmetic::div_mod::lemma_mod_self_0(usize::MAX as int + 1);
    } else {
        vstd::arithmetic::div_mod::lemma_small_mod(counter + 1, usize::MAX as nat + 1);
    }
}

fn silent_buffer(len: usize) -> (buffer: Vec<u32>)
    ensures
        buffer@ == Seq::new(len as nat, |i: int| 0u32),
{
    let mut buffer = Vec::new();
    let mut index: usize = 0;
    while index < len
        invariant
            index <= len,
            buffer@ == Seq::new(index as nat, |i: int| 0u32),
        decreases len - index,
    {
        buffer.push(0);
        index = index + 1;
    }
    buffer
}

/// The frozen loop repeats: `FREEZE_HOP_SIZE` more output frames bring every
/// channel back to the same sample, also across the wrap of the frame counter,
/// since the loop length divides the counter's range.
pub proof fn lemma_frozen_loop_repeats(output_frame: nat)
    requires
        output_frame <= usize::MAX,
    ensures
        ((output_frame + 1024) % (usize::MAX as nat + 1) as nat) % 1024nat == output_frame
            % 1024nat,
{
    let m = usize::MAX as nat + 1;
    assert(m % 1024 == 0) by {
        assert(m == 0x1_0000_0000 || m == 0x1_0000_0000_0000_0000);
    }
    let x = output_frame + 1024;
    if x >= m {
        assert(x % m == x - m);
        assert((x - m) % 1024 == output_frame % 1024) by {
            assert(m == 1024 * (m / 1024));
            vstd::arithmetic::div_mod::lemma_mod_sub_multiples_vanish(x as int, 1024);
            vstd::arithmetic::div_mod::lemma_mod_multiples_vanish(
                -((m / 1024) as int),
                x as int,
                1024,
            );
        }
    } else {
        vstd::arithmetic::div_mod::lemma_small_mod(x, m);
        vstd::arithmetic::div_mod::lemma_mod_add_multiples_vanish(output_frame as int, 1024);
    }
}


/// The freeze after `n` calls of `mix_step`.
pub open spec fn after_mix_steps(freeze: SpectralFreeze, n: nat) -> SpectralFreeze
    decreases n,
{
    if n == 0 {
        freeze
    } else {
        after_mix_steps(freeze, (n - 1) as nat).spec_after_mix_step()
    }
}

/// The freeze after `n` calls of `advance`.
pub open spec fn after_advances(freeze: SpectralFreeze, n: nat) -> SpectralFreeze
    decreases n,
{
    if n == 0 {
        freeze
    } else {
        after_advances(freeze, (n - 1) as nat).spec_after_advance()
    }
}

proof fn lemma_fading_out_steps(start: SpectralFreeze, k: nat)
    requires
        start.spec_mode() == FreezeMode::FadingOut,
        start.spec_transition_frame() == 0,
        start.spec_fade_frames() >= 1,
        k < start.spec_fade_frames(),
    ensures
        after_mix_steps(start, k) == (SpectralFreeze { transition_frame: k as usize, ..start }),
    decreases k,
{
    if k > 0 {
        lemma_fading_out_steps(start, (k - 1) as nat);
        let previous = after_mix_steps(start, (k - 1) as nat);
        assert(previous.transition_frame + 1 <= usize::MAX);
        vstd::arithmetic::div_mod::lemma_small_mod(k, usize::MAX as nat + 1);
    }
}

/// A fade-out lasts `fade_frames` output frames: once `begin_deactivation`
/// has been called on a freeze that is on, each of the next `fade_frames`
/// calls of `mix_step` reports the next frame of the fade-out while the
/// freeze stays on, and after the last of them the freeze is off.
pub proof fn lemma_fade_out_ends(freeze: SpectralFreeze)
    requires
        freeze.spec_mode() != FreezeMode::Inactive,
        freeze.spec_fade_frames() >= 1,
    ensures
        forall|k: nat|
            k < freeze.spec_fade_frames() ==> {
                let during = #[trigger] after_mix_steps(freeze.spec_after_begin_deactivation(), k);
                &&& during.spec_mode() == FreezeMode::FadingOut
                &&& during.spec_mix_step() == (MixStep::FadingOut {
                    frame: k as usize,
                    fade_frames: freeze.spec_fade_frames() as usize,
                })
            },
        after_mix_steps(
            freeze.spec_after_begin_deactivation(),
            freeze.spec_fade_frames(),
        ).spec_mode() == FreezeMode::Inactive,
{
    let start = freeze.spec_after_begin_deactivation();
    let fade = freeze.spec_fade_frames();
    assert forall|k: nat| k < fade implies {
        let during = #[trigger] after_mix_steps(start, k);
        &&& during.spec_mode() == FreezeMode::FadingOut
        &&& during.spec_mix_step() == (MixStep::FadingOut {
            frame: k as usize,
            fade_frames: fade as usize,
        })
    } by {
        lemma_fading_out_steps(start, k);
    }
    lemma_fading_out_steps(start, (fade - 1) as nat);
}

proof fn lemma_advances(freeze: SpectralFreeze, n: nat)
    ensures
        after_advances(freeze, n) == (SpectralFreeze {
            output_frame: ((freeze.output_frame + n) % (usize::MAX as int + 1)) as usize,
            ..freeze
        }),
    decreases n,
{
    let m = usize::MAX as int + 1;
    if n == 0 {
        vstd::arithmetic::div_mod::lemma_small_mod(freeze.output_frame as nat, m as nat);
    } else {
        lemma_advances(freeze, (n - 1) as nat);
        let before = (freeze.output_frame + (n - 1)) % m;
        vstd::arithmetic::div_mod::lemma_add_mod_noop(freeze.output_frame + (n - 1), 1, m);
        vstd::arithmetic::div_mod::lemma_small_mod(1, m as nat);
        vstd::arithmetic::div_mod::lemma_small_mod(before as nat, m as nat);
        assert(((before + 1) % m) == (freeze.output_frame + n) % m);
    }
}

/// The frozen loop repeats: `FREEZE_HOP_SIZE` calls of `advance` bring
/// every channel back to the same sample.
pub proof fn lemma_hop_of_advances_repeats(freeze: SpectralFreeze)
    ensures
        forall|channel: nat|
            #[trigger] after_advances(freeze, FREEZE_HOP_SIZE as nat).spec_sample_bits(channel)
                == freeze.spec_sample_bits(channel),
{
    lemma_advances(freeze, FREEZE_HOP_SIZE as nat);
    lemma_frozen_loop_repeats(freeze.output_frame as nat);
}

} // verus!
