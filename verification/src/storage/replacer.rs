//! Clock replacement: a circular array of per-frame flags and a hand that
//! sweeps over it looking for a frame to evict.

use vstd::prelude::*;

verus! {

/// What the replacer knows of one frame.
#[derive(Debug, Copy, Clone)]
pub struct FrameState {
    /// A pinned frame is in use and is never chosen.
    pub is_pinned: bool,
    /// Set when the frame is released; buys the frame one more revolution.
    pub ref_bit: bool,
}

/// The replacer as a mathematical value.
pub struct ClockView {
    pub frames: Seq<FrameState>,
    pub hand: nat,
}

/// The position behind `hand` on a circle of `len` positions.
pub open spec fn next_hand(hand: nat, len: nat) -> nat {
    if hand + 1 >= len {
        0
    } else {
        hand + 1
    }
}

/// Number of steps from `hand` forward to `target` on a circle of `len`.
pub open spec fn steps_to(hand: nat, target: nat, len: nat) -> nat {
    if target >= hand {
        (target - hand) as nat
    } else {
        (target + len - hand) as nat
    }
}

impl ClockView {
    /// The hand points at a frame, or there are no frames.
    pub open spec fn wf(self) -> bool {
        self.hand < self.frames.len() || (self.hand == 0 && self.frames.len() == 0)
    }

    /// The clock with frame `f` marked as in use. Its reference bit stays.
    pub open spec fn pinned(self, f: int) -> ClockView {
        ClockView {
            frames: self.frames.update(
                f,
                FrameState { is_pinned: true, ref_bit: self.frames[f].ref_bit },
            ),
            hand: self.hand,
        }
    }

    /// The clock with frame `f` released: not pinned, and referenced.
    pub open spec fn unpinned(self, f: int) -> ClockView {
        ClockView {
            frames: self.frames.update(f, FrameState { is_pinned: false, ref_bit: true }),
            hand: self.hand,
        }
    }

    /// Some frame is not pinned.
    pub open spec fn has_unpinned(self) -> bool {
        exists|f: int| 0 <= f < self.frames.len() && !(#[trigger] self.frames[f]).is_pinned
    }

    /// The clock sweep, for at most `steps` steps. A frame that is neither
    /// pinned nor referenced is chosen, and the hand stays on it. A frame that
    /// is not pinned but referenced loses its reference, and the hand goes on.
    /// A pinned frame is passed over. With no frames there is nothing to sweep.
    pub open spec fn sweep(self, steps: nat) -> (Option<nat>, ClockView)
        decreases steps,
    {
        if steps == 0 || self.frames.len() == 0 {
            (None, self)
        } else {
            let current = self.frames[self.hand as int];
            if !current.is_pinned && !current.ref_bit {
                (Some(self.hand), self)
            } else {
                let frames = if current.is_pinned {
                    self.frames
                } else {
                    self.frames.update(
                        self.hand as int,
                        FrameState { is_pinned: false, ref_bit: false },
                    )
                };
                ClockView { frames, hand: next_hand(self.hand, self.frames.len()) }.sweep(
                    (steps - 1) as nat,
                )
            }
        }
    }

    /// A sweep never changes which frames are pinned, never sets a reference
    /// bit, leaves pinned frames as they are, and chooses only a frame that is
    /// not pinned, on which the hand then rests.
    pub proof fn lemma_sweep_safe(self, steps: nat)
        requires
            self.wf(),
        ensures
            self.sweep(steps).1.wf(),
            self.sweep(steps).1.frames.len() == self.frames.len(),
            forall|f: int|
                0 <= f < self.frames.len() ==> {
                    let before = #[trigger] self.frames[f];
                    let after = self.sweep(steps).1.frames[f];
                    &&& after.is_pinned == before.is_pinned
                    &&& after.ref_bit ==> before.ref_bit
                    &&& before.is_pinned ==> after == before
                },
            self.sweep(steps).0 matches Some(v) ==> {
                &&& v < self.frames.len()
                &&& !self.frames[v as int].is_pinned
                &&& !self.sweep(steps).1.frames[v as int].is_pinned
                &&& !self.sweep(steps).1.frames[v as int].ref_bit
                &&& self.sweep(steps).1.hand == v
            },
        decreases steps,
    {
        if steps > 0 && self.frames.len() > 0 {
            let current = self.frames[self.hand as int];
            if !current.is_pinned && !current.ref_bit {
            } else {
                let frames = if current.is_pinned {
                    self.frames
                } else {
                    self.frames.update(
                        self.hand as int,
                        FrameState { is_pinned: false, ref_bit: false },
                    )
                };
                let then = ClockView { frames, hand: next_hand(self.hand, self.frames.len()) };
                then.lemma_sweep_safe((steps - 1) as nat);
                assert forall|f: int| 0 <= f < self.frames.len() implies {
                    let before = #[trigger] self.frames[f];
                    let after = self.sweep(steps).1.frames[f];
                    &&& after.is_pinned == before.is_pinned
                    &&& after.ref_bit ==> before.ref_bit
                    &&& before.is_pinned ==> after == before
                } by {
                    let middle = then.frames[f];
                }
            }
        }
    }

    /// A frame that is neither pinned nor referenced is reached, unless an
    /// earlier one is chosen, within as many steps as it is away.
    proof fn lemma_sweep_reaches_clear(self, steps: nat, target: nat)
        requires
            self.wf(),
            target < self.frames.len(),
            !self.frames[target as int].is_pinned,
            !self.frames[target as int].ref_bit,
            steps > steps_to(self.hand, target, self.frames.len()),
        ensures
            self.sweep(steps).0 is Some,
        decreases steps,
    {
        let current = self.frames[self.hand as int];
        if !current.is_pinned && !current.ref_bit {
        } else {
            let frames = if current.is_pinned {
                self.frames
            } else {
                self.frames.update(
                    self.hand as int,
                    FrameState { is_pinned: false, ref_bit: false },
                )
            };
            let then = ClockView { frames, hand: next_hand(self.hand, self.frames.len()) };
            assert(target != self.hand);
            then.lemma_sweep_reaches_clear((steps - 1) as nat, target);
        }
    }

    /// A frame that is not pinned is reached, unless an earlier one is chosen,
    /// within one revolution more than it is away: the first visit clears its
    /// reference, the second chooses it.
    proof fn lemma_sweep_reaches_unpinned(self, steps: nat, target: nat)
        requires
            self.wf(),
            target < self.frames.len(),
            !self.frames[target as int].is_pinned,
            steps > steps_to(self.hand, target, self.frames.len()) + self.frames.len(),
        ensures
            self.sweep(steps).0 is Some,
        decreases steps,
    {
        let current = self.frames[self.hand as int];
        if !current.is_pinned && !current.ref_bit {
        } else {
            let frames = if current.is_pinned {
                self.frames
            } else {
                self.frames.update(
                    self.hand as int,
                    FrameState { is_pinned: false, ref_bit: false },
                )
            };
            let then = ClockView { frames, hand: next_hand(self.hand, self.frames.len()) };
            if target == self.hand {
                then.lemma_sweep_reaches_clear((steps - 1) as nat, target);
            } else {
                then.lemma_sweep_reaches_unpinned((steps - 1) as nat, target);
            }
        }
    }

    /// Two revolutions find a victim exactly when some frame is not pinned.
    pub proof fn lemma_sweep_finds(self)
        requires
            self.wf(),
        ensures
            self.sweep(2 * self.frames.len()).0 is Some <==> self.has_unpinned(),
    {
        let steps = 2 * self.frames.len();
        self.lemma_sweep_safe(steps);
        if self.has_unpinned() {
            let target = choose|f: int| 0 <= f < self.frames.len() && !(#[trigger] self.frames[f]).is_pinned;
            self.lemma_sweep_reaches_unpinned(steps, target as nat);
        }
    }
}

/// Chooses which frame of a buffer pool to evict.
pub struct ClockReplacer {
    frames: Vec<FrameState>,
    clock_hand: usize,
    capacity: usize,
}

impl View for ClockReplacer {
    type V = ClockView;

    closed spec fn view(&self) -> ClockView {
        ClockView { frames: self.frames@, hand: self.clock_hand as nat }
    }
}

impl ClockReplacer {
    #[verifier::type_invariant]
    spec fn inv(&self) -> bool {
        &&& self.frames@.len() == self.capacity
        &&& self@.wf()
    }

    /// A replacer for `capacity` frames. All of them start out free to be
    /// chosen: not pinned, not referenced.
    pub fn new(capacity: usize) -> (replacer: ClockReplacer)
        ensures
            replacer@.wf(),
            replacer@.hand == 0,
            replacer@.frames == Seq::new(
                capacity as nat,
                |f: int| FrameState { is_pinned: false, ref_bit: false },
            ),
    {
        let mut frames: Vec<FrameState> = Vec::new();
        let mut f: usize = 0;
        while f < capacity
            invariant
                f <= capacity,
                frames@ == Seq::new(
                    f as nat,
                    |k: int| FrameState { is_pinned: false, ref_bit: false },
                ),
            decreases capacity - f,
        {
            frames.push(FrameState { is_pinned: false, ref_bit: false });
            f = f + 1;
            assert(frames@ =~= Seq::new(
                f as nat,
                |k: int| FrameState { is_pinned: false, ref_bit: false },
            ));
        }
        ClockReplacer { frames, clock_hand: 0, capacity }
    }

    /// Number of frames that the replacer watches.
    pub fn capacity(&self) -> (capacity: usize)
        ensures
            capacity == self@.frames.len(),
            self@.wf(),
    {
        proof {
            use_type_invariant(self);
        }
        self.capacity
    }

    /// Sweeps the clock for at most two revolutions and returns the frame
    /// to evict. A victim is found exactly when some frame is not pinned, and
    /// it is never a pinned frame.
    #[verifier::loop_isolation(false)]
    pub fn victim(&mut self) -> (victim: Option<usize>)
        ensures
            final(self)@.wf(),
            final(self)@ == old(self)@.sweep(2 * old(self)@.frames.len()).1,
            victim is Some <==> old(self)@.has_unpinned(),
            match victim {
                Some(v) => {
                    &&& old(self)@.sweep(2 * old(self)@.frames.len()).0 == Some(v as nat)
                    &&& v < old(self)@.frames.len()
                    &&& !old(self)@.frames[v as int].is_pinned
                    &&& !final(self)@.frames[v as int].is_pinned
                },
                None => old(self)@.sweep(2 * old(self)@.frames.len()).0 is None,
            },
            final(self)@.frames.len() == old(self)@.frames.len(),
            forall|f: int|
                0 <= f < old(self)@.frames.len() ==> (#[trigger] final(self)@.frames[f]).is_pinned
                    == old(self)@.frames[f].is_pinned,
    {
        proof {
            use_type_invariant(&*self);
            self@.lemma_sweep_safe(2 * self@.frames.len());
            self@.lemma_sweep_finds();
        }
        let ghost start = self@;
        let ghost total: nat = 2 * self@.frames.len();
        let ghost mut remaining: nat = total;
        let mut pass: u8 = 0;
        while pass < 2
            invariant
                pass <= 2,
                self.frames@.len() == self.capacity,
                total == 2 * self.capacity,
                self@.wf(),
                self@.sweep(remaining) == start.sweep(total),
                pass == 0 ==> remaining == total,
                pass == 1 ==> remaining == self.capacity,
                pass == 2 ==> remaining == 0,
            decreases 2 - pass,
        {
            let mut step: usize = 0;
            while step < self.capacity
                invariant
                    pass < 2,
                    step <= self.capacity,
                    self.frames@.len() == self.capacity,
                    total == 2 * self.capacity,
                    self@.wf(),
                    self@.sweep(remaining) == start.sweep(total),
                    pass == 0 ==> remaining == total - step,
                    pass == 1 ==> remaining == self.capacity - step,
                decreases self.capacity - step,
            {
                let hand: usize = self.clock_hand;
                let current = self.frames[hand];
                if !current.is_pinned {
                    if current.ref_bit {
                        self.frames[hand] = FrameState { is_pinned: false, ref_bit: false };
                    } else {
                        return Some(hand);
                    }
                }
                self.clock_hand = if hand + 1 >= self.capacity {
                    0
                } else {
                    hand + 1
                };
                step = step + 1;
                proof {
                    remaining = (remaining - 1) as nat;
                }
            }
            pass = pass + 1;
        }
        None
    }

    /// Marks a frame as in use, so that it is not chosen.
    pub fn pin(&mut self, frame_id: usize)
        requires
            frame_id < old(self)@.frames.len(),
        ensures
            final(self)@.wf(),
            final(self)@ == old(self)@.pinned(frame_id as int),
    {
        proof {
            use_type_invariant(&*self);
        }
        let ref_bit = self.frames[frame_id].ref_bit;
        self.frames[frame_id] = FrameState { is_pinned: true, ref_bit };
    }

    /// Releases a frame: it may be chosen again, and counts as referenced.
    pub fn unpin(&mut self, frame_id: usize)
        requires
            frame_id < old(self)@.frames.len(),
        ensures
            final(self)@.wf(),
            final(self)@ == old(self)@.unpinned(frame_id as int),
    {
        proof {
            use_type_invariant(&*self);
        }
        self.frames[frame_id] = FrameState { is_pinned: false, ref_bit: true };
    }
}

} // verus!
