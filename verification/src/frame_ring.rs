use vstd::prelude::*;

verus! {

/// How many frames the ring between the render worker and the output holds.
pub const RING_FRAMES: usize = 32768;

/// Below this many buffered frames the render worker wakes up and refills.
pub const LOW_WATER_FRAMES: usize = 9600;

/// The render worker refills the ring up to this many frames at once.
pub const HIGH_WATER_FRAMES: usize = 19200;

/// A bounded first-in first-out queue of audio frames, each tagged with the
/// generation of the stream that produced it. Samples are `f32` bit
/// patterns, `channels` per frame, stored slot by slot.
pub struct FrameRing {
    samples: Vec<u32>,
    generations: Vec<u64>,
    tail: usize,
    len: usize,
    channels: usize,
    capacity: usize,
}

proof fn lemma_slot_bounds(slot: int, capacity: int, channels: int)
    by (nonlinear_arith)
    requires
        0 <= slot < capacity,
        0 < channels,
    ensures
        0 <= slot * channels,
        slot * channels + channels <= capacity * channels,
{
}

proof fn lemma_slots_disjoint(a: int, b: int, channels: int)
    by (nonlinear_arith)
    requires
        0 <= a < b,
        0 < channels,
    ensures
        a * channels + channels <= b * channels,
{
}

impl FrameRing {
    /// The storage matches the capacity and channel count, and the queued
    /// frames fit.
    pub closed spec fn well_formed(self) -> bool {
        &&& self.capacity == RING_FRAMES
        &&& 0 < self.channels
        &&& self.capacity * self.channels <= usize::MAX
        &&& self.samples@.len() == self.capacity * self.channels
        &&& self.generations@.len() == self.capacity
        &&& self.tail < self.capacity
        &&& self.len <= self.capacity
    }

    /// The slot that holds the `k`-th queued frame.
    closed spec fn slot(self, k: int) -> int {
        if self.tail + k < self.capacity {
            self.tail + k
        } else {
            self.tail + k - self.capacity
        }
    }

    /// The generation and the samples of the `k`-th queued frame.
    closed spec fn frame_at(self, k: int) -> (u64, Seq<u32>) {
        let slot = self.slot(k);
        (
            self.generations@[slot],
            self.samples@.subrange(slot * self.channels, slot * self.channels + self.channels),
        )
    }

    /// The queued frames, oldest first.
    pub closed spec fn frames(self) -> Seq<(u64, Seq<u32>)> {
        Seq::new(self.len as nat, |k: int| self.frame_at(k))
    }

    /// The number of samples in a frame.
    pub closed spec fn spec_channels(self) -> nat {
        self.channels as nat
    }

    /// The most frames the ring holds.
    pub closed spec fn spec_capacity(self) -> nat {
        self.capacity as nat
    }

    /// An empty ring of `RING_FRAMES` frames of `channels` samples (at least
    /// one). The samples of all frames must be countable in a `usize`.
    pub fn new(channels: usize) -> (ring: FrameRing)
        requires
            RING_FRAMES * channels <= usize::MAX,
        ensures
            ring.well_formed(),
            ring.frames().len() == 0,
            ring.spec_channels() == if channels == 0 {
                1
            } else {
                channels as nat
            },
            ring.spec_capacity() == RING_FRAMES,
    {
        let channels = if channels == 0 {
            1
        } else {
            channels
        };
        let capacity = RING_FRAMES;
        assert(capacity * channels <= usize::MAX) by (nonlinear_arith)
            requires
                capacity == 32768,
                1 <= channels,
                channels == 1 || capacity * channels <= usize::MAX,
                usize::MAX >= 0xffff_ffff,
        ;
        let total = capacity * channels;
        let mut samples: Vec<u32> = Vec::new();
        let mut i: usize = 0;
        while i < total
            invariant
                i <= total,
                samples@.len() == i,
            decreases total - i,
        {
            samples.push(0);
            i = i + 1;
        }
        let mut generations: Vec<u64> = Vec::new();
        let mut j: usize = 0;
        while j < capacity
            invariant
                j <= capacity,
                generations@.len() == j,
            decreases capacity - j,
        {
            generations.push(0);
            j = j + 1;
        }
        FrameRing { samples, generations, tail: 0, len: 0, channels, capacity }
    }

    /// The number of queued frames.
    pub fn len(&self) -> (len: usize)
        requires
            self.well_formed(),
        ensures
            len == self.frames().len(),
    {
        self.len
    }

    /// The number of samples in a frame.
    pub fn channels(&self) -> (channels: usize)
        requires
            self.well_formed(),
        ensures
            channels == self.spec_channels(),
    {
        self.channels
    }

    /// Queues a frame of the given generation, taking the first `channels`
    /// samples of `frame`. `false`, with nothing queued, when the ring is
    /// full.
    pub fn try_push(&mut self, generation: u64, frame: &[u32]) -> (pushed: bool)
        requires
            old(self).well_formed(),
            frame@.len() >= old(self).spec_channels(),
        ensures
            final(self).well_formed(),
            pushed == (old(self).frames().len() < old(self).spec_capacity()),
            final(self).frames() == if pushed {
                old(self).frames().push(
                    (generation, frame@.subrange(0, old(self).spec_channels() as int)),
                )
            } else {
                old(self).frames()
            },
            final(self).spec_channels() == old(self).spec_channels(),
            final(self).spec_capacity() == old(self).spec_capacity(),
    {
        if self.len >= self.capacity {
            return false;
        }
        let ghost before = *self;
        let slot = if self.tail + self.len < self.capacity {
            self.tail + self.len
        } else {
            self.tail + self.len - self.capacity
        };
        proof {
            lemma_slot_bounds(slot as int, self.capacity as int, self.channels as int);
        }
        let start = slot * self.channels;
        let channels = self.channels;
        let mut c: usize = 0;
        while c < channels
            invariant
                before.well_formed(),
                channels == before.channels,
                start == slot * channels,
                start + channels <= before.samples@.len(),
                c <= channels,
                self.samples@.len() == before.samples@.len(),
                self.generations == before.generations,
                self.tail == before.tail,
                self.len == before.len,
                self.channels == before.channels,
                self.capacity == before.capacity,
                frame@.len() >= channels,
                forall|i: int|
                    0 <= i < self.samples@.len() ==> #[trigger] self.samples@[i] == if start <= i
                        < start + c {
                        frame@[i - start]
                    } else {
                        before.samples@[i]
                    },
            decreases channels - c,
        {
            self.samples.set(start + c, frame[c]);
            c = c + 1;
        }
        self.generations.set(slot, generation);
        self.len = self.len + 1;
        proof {
            let expected = before.frames().push(
                (generation, frame@.subrange(0, channels as int)),
            );
            assert forall|k: int| 0 <= k < self.len implies #[trigger] self.frames()[k]
                == expected[k] by {
                let t = self.slot(k);
                assert(t == before.slot(k) || k == before.len);
                if k < before.len {
                    assert(t != slot);
                    if t < slot {
                        lemma_slots_disjoint(t, slot as int, channels as int);
                    } else {
                        lemma_slots_disjoint(slot as int, t, channels as int);
                    }
                    lemma_slot_bounds(t, self.capacity as int, channels as int);
                    assert(self.samples@.subrange(t * channels, t * channels + channels)
                        =~= before.samples@.subrange(t * channels, t * channels + channels));
                } else {
                    assert(self.samples@.subrange(start as int, start + channels) =~= frame@.subrange(
                        0,
                        channels as int,
                    ));
                }
            }
            assert(self.frames() =~= expected);
        }
        true
    }

    /// Takes the oldest frame. Where its generation is the expected one,
    /// its samples are copied to the start of `destination` and the result
    /// is `true`; a frame of another generation is dropped without a copy.
    /// `false`, with nothing changed, when the ring is empty.
    pub fn try_pop(&mut self, expected_generation: u64, destination: &mut [u32]) -> (popped: bool)
        requires
            old(self).well_formed(),
            old(destination)@.len() >= old(self).spec_channels(),
        ensures
            final(self).well_formed(),
            final(self).frames() == if old(self).frames().len() == 0 {
                old(self).frames()
            } else {
                old(self).frames().drop_first()
            },
            popped == (old(self).frames().len() > 0 && old(self).frames()[0].0
                == expected_generation),
            final(destination)@ == if popped {
                old(self).frames()[0].1 + old(destination)@.subrange(
                    old(self).spec_channels() as int,
                    old(destination)@.len() as int,
                )
            } else {
                old(destination)@
            },
            final(self).spec_channels() == old(self).spec_channels(),
            final(self).spec_capacity() == old(self).spec_capacity(),
    {
        if self.len == 0 {
            return false;
        }
        let ghost before = *self;
        let ghost destination_before = destination@;
        let slot = self.tail;
        let generation = self.generations[slot];
        let matches = generation == expected_generation;
        if matches {
            proof {
                lemma_slot_bounds(slot as int, self.capacity as int, self.channels as int);
            }
            let start = slot * self.channels;
            let channels = self.channels;
            let mut c: usize = 0;
            while c < channels
                invariant
                    before.well_formed(),
                    *self == before,
                    channels == before.channels,
                    start == slot * channels,
                    start + channels <= before.samples@.len(),
                    c <= channels,
                    destination@.len() == destination_before.len(),
                    destination_before.len() >= channels,
                    forall|i: int|
                        0 <= i < destination@.len() ==> #[trigger] destination@[i] == if i < c {
                            before.samples@[start + i]
                        } else {
                            destination_before[i]
                        },
                decreases channels - c,
            {
                destination[c] = self.samples[start + c];
                c = c + 1;
            }
            proof {
                assert(before.frames()[0].1 =~= before.samples@.subrange(
                    start as int,
                    start + channels,
                ));
                assert(destination@ =~= before.frames()[0].1 + destination_before.subrange(
                    channels as int,
                    destination_before.len() as int,
                ));
            }
        }
        self.tail = if self.tail + 1 < self.capacity {
            self.tail + 1
        } else {
            0
        };
        self.len = self.len - 1;
        proof {
            assert forall|k: int| 0 <= k < self.len implies #[trigger] self.frames()[k]
                == before.frames().drop_first()[k] by {
                assert(self.slot(k) == before.slot(k + 1));
            }
            assert(self.frames() =~= before.frames().drop_first());
        }
        matches
    }

    /// Drops the oldest frames up to the first of the expected generation,
    /// so that a new generation finds room at once.
    pub fn discard_stale(&mut self, expected_generation: u64)
        requires
            old(self).well_formed(),
        ensures
            final(self).well_formed(),
            final(self).frames() == old(self).frames().skip(
                first_of_generation(old(self).frames(), expected_generation),
            ),
            final(self).spec_channels() == old(self).spec_channels(),
            final(self).spec_capacity() == old(self).spec_capacity(),
    {
        let ghost start = self.frames();
        let ghost mut dropped: int = 0;
        while self.len > 0 && self.generations[self.tail] != expected_generation
            invariant
                self.well_formed(),
                0 <= dropped <= start.len(),
                self.frames() == start.skip(dropped),
                forall|k: int| 0 <= k < dropped ==> #[trigger] start[k].0 != expected_generation,
                self.spec_channels() == old(self).spec_channels(),
                self.spec_capacity() == old(self).spec_capacity(),
            decreases self.len,
        {
            proof {
                assert(self.frames().len() == self.len);
                assert(start.skip(dropped).len() == start.len() - dropped);
                assert(self.frames()[0] == start.skip(dropped)[0]);
                assert(self.frames()[0] == start[dropped]);
            }
            let ghost before = *self;
            self.tail = if self.tail + 1 < self.capacity {
                self.tail + 1
            } else {
                0
            };
            self.len = self.len - 1;
            proof {
                assert forall|k: int| 0 <= k < self.len implies #[trigger] self.frames()[k]
                    == before.frames()[k + 1] by {
                    assert(self.slot(k) == before.slot(k + 1));
                }
                assert(self.frames() =~= start.skip(dropped + 1));
                dropped = dropped + 1;
            }
        }
        proof {
            assert(self.frames().len() == self.len);
            if self.len > 0 {
                assert(self.frames()[0] == start.skip(dropped)[0]);
            }
            lemma_first_of_generation(start, expected_generation, dropped);
        }
    }
}

/// The position of the first frame of the generation, or the number of
/// frames when there is none.
pub open spec fn first_of_generation(frames: Seq<(u64, Seq<u32>)>, generation: u64) -> int
    decreases frames.len(),
{
    if frames.len() == 0 {
        0
    } else if frames[0].0 == generation {
        0
    } else {
        1 + first_of_generation(frames.drop_first(), generation)
    }
}

proof fn lemma_first_of_generation(frames: Seq<(u64, Seq<u32>)>, generation: u64, at: int)
    requires
        0 <= at <= frames.len(),
        forall|k: int| 0 <= k < at ==> #[trigger] frames[k].0 != generation,
        at == frames.len() || frames[at].0 == generation,
    ensures
        first_of_generation(frames, generation) == at,
    decreases frames.len(),
{
    if frames.len() > 0 && at > 0 {
        let rest = frames.drop_first();
        assert forall|k: int| 0 <= k < at - 1 implies #[trigger] rest[k].0 != generation by {
            assert(rest[k] == frames[k + 1]);
        }
        lemma_first_of_generation(rest, generation, at - 1);
    }
}


/// What the render worker does on one turn of its loop, after it has
/// restarted its stretcher for a new generation if one was requested.
#[derive(Debug, Clone, Copy, PartialEq, Eq)]
pub enum WorkerStep {
    /// Sleep briefly: the stream is disabled or the ring holds enough.
    Idle,
    /// Render and push this many frames.
    Generate(usize),
}

/// One turn of the render worker: whether to restart at the requested
/// position (the generation moved on) and how much to render. The worker
/// sleeps while disabled or while the ring holds at least the low-water
/// mark; otherwise it renders the frames that bring the ring up to the
/// high-water mark, which never overflows it.
pub fn worker_step(generation: u64, active_generation: u64, enabled: bool, buffered_frames: usize)
    -> (decision: (bool, WorkerStep))
    ensures
        decision.0 == (generation != active_generation),
        decision.1 == (if !enabled || buffered_frames >= LOW_WATER_FRAMES {
            WorkerStep::Idle
        } else {
            WorkerStep::Generate((HIGH_WATER_FRAMES - buffered_frames) as usize)
        }),
        decision.1 matches WorkerStep::Generate(count) ==> buffered_frames + count
            == HIGH_WATER_FRAMES && HIGH_WATER_FRAMES <= RING_FRAMES && count > 0,
{
    let restart = generation != active_generation;
    if !enabled || buffered_frames >= LOW_WATER_FRAMES {
        (restart, WorkerStep::Idle)
    } else {
        (restart, WorkerStep::Generate(HIGH_WATER_FRAMES - buffered_frames))
    }
}

/// After a refill the stream is ready when no new generation was requested
/// meanwhile and the ring reached the low-water mark.
pub fn ready_after_refill(generation_unchanged: bool, buffered_frames: usize) -> (ready: bool)
    ensures
        ready == (generation_unchanged && buffered_frames >= LOW_WATER_FRAMES),
{
    generation_unchanged && buffered_frames >= LOW_WATER_FRAMES
}

} // verus!
