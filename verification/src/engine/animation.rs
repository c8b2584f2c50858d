//! Animation state for Mario.
//!
//! The visible pose is derived from movement rather than stored as game
//! logic: on the ground and still is idle, on the ground and moving is a walk
//! cycle, off the ground is the jump pose, and moving one way while facing the
//! other is the skid.
use super::entity::{Facing, Mario};
use vstd::prelude::*;

verus! {

/// How many frames each walk-cycle sprite is shown before advancing.
pub const WALK_FRAME_TICKS: u8 = 4;
/// Number of frames in the walk cycle.
pub const WALK_FRAMES: u8 = 3;

#[derive(Debug, Clone, Copy, PartialEq, Eq, Structural)]
pub enum AnimState {
    Idle,
    Walk,
    Jump,
    /// Moving one way with the other direction pressed.
    Skid,
}

/// The direction a horizontal velocity points.
pub open spec fn facing_of(vx: int) -> Facing {
    if vx < 0 { Facing::Left } else { Facing::Right }
}

/// The pose implied by Mario's current movement.
pub open spec fn pose(mario: Mario) -> AnimState {
    if !mario.on_ground {
        AnimState::Jump
    } else if mario.vx != 0 && mario.facing == facing_of(-mario.vx) {
        AnimState::Skid
    } else if mario.vx != 0 {
        AnimState::Walk
    } else {
        AnimState::Idle
    }
}

/// Tracks the walk-cycle position over time.
#[derive(Debug, Clone, Copy, PartialEq, Eq, Structural)]
pub struct Animator {
    frame: u8,
    ticks: u8,
}

impl Animator {
    /// The walk frame to draw.
    pub closed spec fn frame_spec(self) -> u8 {
        self.frame
    }

    /// Frames the current walk frame has been shown.
    pub closed spec fn ticks_spec(self) -> u8 {
        self.ticks
    }

    /// Both counters stay inside their cycles.
    pub closed spec fn wf(self) -> bool {
        self.frame < WALK_FRAMES && self.ticks < WALK_FRAME_TICKS
    }

    /// The animator at rest: first frame, no ticks counted.
    pub closed spec fn fresh() -> Animator {
        Animator { frame: 0, ticks: 0 }
    }

    /// The animator one frame on, for Mario in `mario`'s state.
    pub closed spec fn advanced(self, mario: Mario) -> Animator {
        if pose(mario) == AnimState::Walk {
            if self.ticks + 1 >= WALK_FRAME_TICKS {
                Animator { frame: ((self.frame + 1) % (WALK_FRAMES as int)) as u8, ticks: 0 }
            } else {
                Animator { frame: self.frame, ticks: (self.ticks + 1) as u8 }
            }
        } else {
            Animator::fresh()
        }
    }

    /// Advancing keeps both counters inside their cycles.
    pub proof fn lemma_advanced_wf(self, mario: Mario)
        requires
            self.wf(),
        ensures
            self.advanced(mario).wf(),
    {
    }

    /// The animator `n` frames on, with Mario in `mario`'s state throughout.
    pub open spec fn advanced_by(self, mario: Mario, n: nat) -> Animator
        decreases n,
    {
        if n == 0 {
            self
        } else {
            self.advanced_by(mario, (n - 1) as nat).advanced(mario)
        }
    }

    /// The walk cycle runs on the timer: from a fresh animator, `n` frames
    /// with Mario walking show walk frame `(n / 4) % 3`, four frames each;
    /// `n` frames (at least one) in any other pose leave it on the first
    /// frame.
    pub proof fn law_walk_cycle(mario: Mario, n: nat)
        ensures
            pose(mario) == AnimState::Walk ==> {
                &&& Animator::fresh().advanced_by(mario, n).frame_spec() == (n / WALK_FRAME_TICKS as nat) % (WALK_FRAMES as nat)
                &&& Animator::fresh().advanced_by(mario, n).ticks_spec() == n % (WALK_FRAME_TICKS as nat)
            },
            pose(mario) != AnimState::Walk && n >= 1 ==> Animator::fresh().advanced_by(mario, n).frame_spec() == 0,
        decreases n,
    {
        if n > 0 {
            Animator::law_walk_cycle(mario, (n - 1) as nat);
            let m = (n - 1) as nat;
            assert(m % 4 == 3 ==> n / 4 == m / 4 + 1 && n % 4 == 0);
            assert(m % 4 != 3 ==> n / 4 == m / 4 && n % 4 == m % 4 + 1);
            assert((m / 4 + 1) % 3 == ((m / 4) % 3 + 1) % 3);
        }
    }

    /// Whether both counters are inside their cycles.
    pub fn in_cycle(&self) -> (r: bool)
        ensures
            r == self.wf(),
    {
        self.frame < WALK_FRAMES && self.ticks < WALK_FRAME_TICKS
    }

    /// A fresh animator is inside its cycles.
    pub proof fn lemma_fresh_wf()
        ensures
            Animator::fresh().wf(),
    {
    }

    pub fn new() -> (r: Self)
        ensures
            r == Animator::fresh(),
            r.frame_spec() == 0,
            r.ticks_spec() == 0,
            r.wf(),
    {
        Animator { frame: 0, ticks: 0 }
    }

    fn facing_of(vx: i32) -> (r: Facing)
        ensures
            r == facing_of(vx as int),
    {
        if vx < 0 {
            Facing::Left
        } else {
            Facing::Right
        }
    }

    /// The pose implied by Mario's current movement.
    pub fn state(mario: &Mario) -> (r: AnimState)
        requires
            mario.vx > i32::MIN,
        ensures
            r == pose(*mario),
    {
        if !mario.on_ground {
            AnimState::Jump
        } else if mario.vx != 0 && mario.facing == Self::facing_of(-mario.vx) {
            AnimState::Skid
        } else if mario.vx != 0 {
            AnimState::Walk
        } else {
            AnimState::Idle
        }
    }

    /// Advance one frame. Walking cycles through the walk frames on a timer,
    /// anything else resets to the first frame.
    pub fn update(&mut self, mario: &Mario)
        requires
            old(self).wf(),
            mario.vx > i32::MIN,
        ensures
            final(self).wf(),
            *final(self) == old(self).advanced(*mario),
            pose(*mario) == AnimState::Walk ==> {
                if old(self).ticks_spec() + 1 >= WALK_FRAME_TICKS {
                    final(self).ticks_spec() == 0 && final(self).frame_spec() == (old(self).frame_spec() + 1)
                        % (WALK_FRAMES as int)
                } else {
                    final(self).ticks_spec() == old(self).ticks_spec() + 1 && final(self).frame_spec()
                        == old(self).frame_spec()
                }
            },
            pose(*mario) != AnimState::Walk ==> final(self).frame_spec() == 0 && final(self).ticks_spec() == 0,
    {
        if Self::state(mario) == AnimState::Walk {
            self.ticks = self.ticks + 1;
            if self.ticks >= WALK_FRAME_TICKS {
                self.ticks = 0;
                self.frame = (self.frame + 1) % WALK_FRAMES;
            }
        } else {
            self.frame = 0;
            self.ticks = 0;
        }
    }

    /// Which walk-cycle frame to draw. Meaningful while walking, 0 otherwise.
    pub fn frame(&self) -> (r: u8)
        ensures
            r == self.frame_spec(),
    {
        self.frame
    }
}

impl Default for Animator {
    fn default() -> (r: Self)
        ensures
            r.frame_spec() == 0,
            r.ticks_spec() == 0,
            r.wf(),
    {
        Animator { frame: 0, ticks: 0 }
    }
}

} // verus!
