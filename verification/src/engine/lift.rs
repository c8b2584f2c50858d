//! Moving platforms, measured from the cartridge.
//!
//! A lift moves on one axis only, one pixel every two frames, and reverses on
//! a fixed frame count. It supports Mario from above the way a one-way
//! platform does, and carries him while he stands on it. A drop block stays
//! put until stood on, then falls a pixel a frame for good.
use super::entity::{pixels, size_of_power, Mario, POSITION_LIMIT, SUBPIXEL};
use vstd::prelude::*;

verus! {

/// A lift is 24 pixels across, drawn as the same tile three times over.
pub const LIFT_WIDTH: i32 = 24;
/// How much of Mario the surface test actually uses, centred in his box.
pub const FOOT_WIDTH: i32 = 6;
/// Only its top edge matters for collision, but it needs some depth.
pub const LIFT_HEIGHT: i32 = 8;
/// One pixel every two frames, on whichever axis the lift runs.
pub const LIFT_STEP_FRAMES: u32 = 2;
/// Frames between reversals for the vertical lift: 120, which is 60 pixels.
pub const VERTICAL_HALF_CYCLE: u32 = 120;
/// Frames between reversals for the horizontal lift: 106, which is 53 pixels.
pub const HORIZONTAL_HALF_CYCLE: u32 = 106;
/// A drop block is one tile across.
pub const DROP_WIDTH: i32 = 8;
/// Frames a drop block stays put after Mario stands on it.
pub const DROP_DELAY: u32 = 9;
/// The largest pixel coordinate a lift is kept within.
pub const LIFT_LIMIT: i32 = 0x0010_0000;

#[derive(Debug, Clone, Copy, PartialEq, Eq, Structural)]
pub enum Motion {
    /// A lift, running back and forth on one axis forever.
    Cycle(LiftAxis),
    /// A drop block: still until stood on, then it falls a pixel a frame.
    Drop,
}

#[derive(Debug, Clone, Copy, PartialEq, Eq, Structural)]
pub enum LiftAxis {
    Vertical,
    Horizontal,
}

/// Frames between reversals on an axis.
pub open spec fn half_cycle_of(axis: LiftAxis) -> u32 {
    match axis {
        LiftAxis::Vertical => VERTICAL_HALF_CYCLE,
        LiftAxis::Horizontal => HORIZONTAL_HALF_CYCLE,
    }
}

/// Which way a lift sets off: down for the vertical one, left for the
/// horizontal one.
pub open spec fn first_direction_of(axis: LiftAxis) -> i32 {
    match axis {
        LiftAxis::Vertical => 1i32,
        LiftAxis::Horizontal => -1i32,
    }
}

impl LiftAxis {
    pub fn half_cycle(self) -> (r: u32)
        ensures
            r == half_cycle_of(self),
    {
        match self {
            LiftAxis::Vertical => VERTICAL_HALF_CYCLE,
            LiftAxis::Horizontal => HORIZONTAL_HALF_CYCLE,
        }
    }

    /// Which way a lift sets off from the position its record decodes to.
    pub fn first_direction(self) -> (r: i32)
        ensures
            r == first_direction_of(self),
    {
        match self {
            LiftAxis::Vertical => 1,
            LiftAxis::Horizontal => -1,
        }
    }
}

#[derive(Debug, Clone, Copy, PartialEq, Eq, Structural)]
pub struct Lift {
    /// Top-left in pixels. Lifts move in whole pixels.
    pub x: i32,
    pub y: i32,
    pub motion: Motion,
    /// +1 or -1 along the axis.
    pub direction: i32,
    /// Frames since the last reversal, or since a drop block was stood on.
    pub phase: u32,
    /// Frames since the last pixel of movement.
    pub tick: u32,
    /// Set once Mario has stood on a drop block. It never clears.
    pub triggered: bool,
}

impl Lift {
    /// The lift a record creates: at rest, heading its first way.
    pub open spec fn placed(x: i32, y: i32, motion: Motion) -> Lift {
        Lift {
            x,
            y,
            motion,
            direction: match motion {
                Motion::Cycle(axis) => first_direction_of(axis),
                Motion::Drop => 1,
            },
            phase: 0,
            tick: 0,
            triggered: false,
        }
    }

    pub open spec fn width_spec(self) -> int {
        match self.motion {
            Motion::Cycle(_) => 24,
            Motion::Drop => 8,
        }
    }

    pub open spec fn in_bounds(self) -> bool {
        &&& -LIFT_LIMIT <= self.x <= LIFT_LIMIT
        &&& -LIFT_LIMIT <= self.y <= LIFT_LIMIT
        &&& -1 <= self.direction <= 1
        &&& self.phase < u32::MAX
        &&& self.tick < u32::MAX
    }

    pub fn new(x: i32, y: i32, axis: LiftAxis) -> (r: Self)
        ensures
            r == Lift::placed(x, y, Motion::Cycle(axis)),
    {
        Self::with_motion_at(x, y, Motion::Cycle(axis))
    }

    pub fn drop_block(x: i32, y: i32) -> (r: Self)
        ensures
            r == Lift::placed(x, y, Motion::Drop),
    {
        Self::with_motion_at(x, y, Motion::Drop)
    }

    pub fn with_motion_at(x: i32, y: i32, motion: Motion) -> (r: Self)
        ensures
            r == Lift::placed(x, y, motion),
    {
        Lift {
            x,
            y,
            motion,
            direction: match motion {
                Motion::Cycle(axis) => axis.first_direction(),
                Motion::Drop => 1,
            },
            phase: 0,
            tick: 0,
            triggered: false,
        }
    }

    pub fn width(&self) -> (r: i32)
        ensures
            r == self.width_spec(),
    {
        match self.motion {
            Motion::Cycle(_) => LIFT_WIDTH,
            Motion::Drop => DROP_WIDTH,
        }
    }

    /// Pixel edges (left, top, right, bottom), inclusive.
    pub fn edges(&self) -> (r: (i32, i32, i32, i32))
        requires
            self.in_bounds(),
        ensures
            r.0 == self.x,
            r.1 == self.y,
            r.2 == self.x + self.width_spec() - 1,
            r.3 == self.y + 7,
    {
        (self.x, self.y, self.x + self.width() - 1, self.y + LIFT_HEIGHT - 1)
    }

    /// One frame of a lift's movement and the distance it moved.
    pub open spec fn stepped(self) -> (Lift, (i32, i32)) {
        match self.motion {
            Motion::Drop => {
                if !self.triggered {
                    (self, (0, 0))
                } else if self.phase + 1 < DROP_DELAY {
                    (Lift { phase: (self.phase + 1) as u32, ..self }, (0, 0))
                } else {
                    (Lift { phase: (self.phase + 1) as u32, y: (self.y + 1) as i32, ..self }, (0, 1))
                }
            },
            Motion::Cycle(axis) => {
                let moves = self.tick + 1 >= LIFT_STEP_FRAMES;
                let d: (i32, i32) = if !moves {
                    (0, 0)
                } else {
                    match axis {
                        LiftAxis::Vertical => (0, self.direction),
                        LiftAxis::Horizontal => (self.direction, 0),
                    }
                };
                let l1 = Lift {
                    tick: if moves { 0 } else { (self.tick + 1) as u32 },
                    x: (self.x + d.0) as i32,
                    y: (self.y + d.1) as i32,
                    ..self
                };
                let reverse = l1.phase + 1 >= half_cycle_of(axis);
                (
                    Lift {
                        phase: if reverse { 0 } else { (l1.phase + 1) as u32 },
                        direction: if reverse { -l1.direction as i32 } else { l1.direction },
                        ..l1
                    },
                    d,
                )
            },
        }
    }

    /// Advance a frame. Returns how far it moved, as (dx, dy) in pixels, so a
    /// rider can be carried by exactly the same amount.
    pub fn step(&mut self) -> (r: (i32, i32))
        requires
            old(self).in_bounds(),
        ensures
            (*final(self), r) == old(self).stepped(),
            -1 <= r.0 <= 1,
            -1 <= r.1 <= 1,
    {
        let axis = match self.motion {
            Motion::Cycle(axis) => axis,
            Motion::Drop => return self.drop_step(),
        };
        self.tick = self.tick + 1;
        let mut step = (0, 0);
        if self.tick >= LIFT_STEP_FRAMES {
            self.tick = 0;
            step = match axis {
                LiftAxis::Vertical => (0, self.direction),
                LiftAxis::Horizontal => (self.direction, 0),
            };
            self.x = self.x + step.0;
            self.y = self.y + step.1;
        }
        self.phase = self.phase + 1;
        if self.phase >= axis.half_cycle() {
            self.phase = 0;
            self.direction = -self.direction;
        }
        step
    }

    /// A drop block waits `DROP_DELAY` frames after being stood on, then
    /// descends a pixel every frame for as long as it exists.
    fn drop_step(&mut self) -> (r: (i32, i32))
        requires
            old(self).in_bounds(),
            old(self).motion == Motion::Drop,
        ensures
            (*final(self), r) == old(self).stepped(),
            -1 <= r.0 <= 1,
            -1 <= r.1 <= 1,
    {
        if !self.triggered {
            return (0, 0);
        }
        self.phase = self.phase + 1;
        if self.phase < DROP_DELAY {
            return (0, 0);
        }
        self.y = self.y + 1;
        (0, 1)
    }
}

/// Whether Mario is held by `lift`, which moved by `mv` this frame, given
/// where his feet were before the frame's movement: his foot span overlaps
/// the surface, he is not rising, and he either came down across its top
/// edge or was resting on it before it moved.
pub open spec fn held_by(mario: Mario, lift: Lift, mv: (i32, i32), was_bottom: int) -> bool {
    let (w, h) = size_of_power(mario.power);
    let inset = (w - FOOT_WIDTH) / 2;
    let left = mario.px() + inset;
    let right = left + FOOT_WIDTH - 1;
    let ll = lift.x as int;
    let lt = lift.y as int;
    let lr = lift.x + lift.width_spec() - 1;
    let feet = mario.py() + h;
    let was_feet = was_bottom + 1;
    let was_top = lt - mv.1;
    let landed = was_feet <= was_top && feet >= lt;
    let stayed = was_feet == was_top;
    !(right < ll || left > lr) && !(mario.vy < 0 || !(landed || stayed))
}

/// The first lift (from `from` on) that holds Mario, if any.
pub open spec fn first_holder(mario: Mario, lifts: Seq<Lift>, moves: Seq<(i32, i32)>, was_bottom: int, from: int) -> Option<int>
    decreases lifts.len() - from,
{
    if from < 0 || from >= lifts.len() || from >= moves.len() {
        None
    } else if held_by(mario, lifts[from], moves[from], was_bottom) {
        Some(from)
    } else {
        first_holder(mario, lifts, moves, was_bottom, from + 1)
    }
}

/// Mario standing on a lift: feet on its top edge, not falling, carried
/// sideways by its move.
pub open spec fn carried(mario: Mario, lift: Lift, mv: (i32, i32)) -> Mario {
    let (_w, h) = size_of_power(mario.power);
    Mario {
        y: ((lift.y - h) * 256) as i32,
        vy: 0,
        on_ground: true,
        x: (mario.x + mv.0 * 256) as i32,
        ..mario
    }
}

/// Land Mario on any lift he came down onto this frame, and carry him along
/// with the one he is standing on. `was_bottom` is where his feet were before
/// the frame's movement, which is what makes the support one-way.
#[verifier::rlimit(40)]
pub fn ride_lifts(mario: &mut Mario, lifts: &mut [Lift], moves: &[(i32, i32)], was_bottom: i32)
    requires
        old(mario).in_bounds(),
        forall|i: int| 0 <= i < old(lifts)@.len() ==> (#[trigger] old(lifts)@[i]).in_bounds(),
        forall|i: int| 0 <= i < moves@.len() ==> -1 <= (#[trigger] moves@[i]).0 <= 1 && -1 <= moves@[i].1 <= 1,
        -POSITION_LIMIT <= was_bottom <= POSITION_LIMIT,
    ensures
        final(lifts)@.len() == old(lifts)@.len(),
        match first_holder(*old(mario), old(lifts)@, moves@, was_bottom as int, 0) {
            None => *final(mario) == *old(mario) && final(lifts)@ == old(lifts)@,
            Some(k) => {
                &&& *final(mario) == carried(*old(mario), old(lifts)@[k], moves@[k])
                &&& final(lifts)@ == old(lifts)@.update(k, Lift { triggered: true, ..old(lifts)@[k] })
            },
        },
{
    let (w, h) = mario.size();
    let inset = (w - FOOT_WIDTH) / 2;
    let left = mario.pixel_x() + inset;
    let right = left + FOOT_WIDTH - 1;
    let mut i: usize = 0;
    while i < lifts.len() && i < moves.len()
        invariant
            lifts@ == old(lifts)@,
            *mario == *old(mario),
            i <= lifts@.len(),
            -POSITION_LIMIT <= was_bottom <= POSITION_LIMIT,
            old(mario).in_bounds(),
            (w as int, h as int) == size_of_power(mario.power),
            inset == (w - FOOT_WIDTH) / 2,
            left == mario.px() + inset,
            right == left + FOOT_WIDTH - 1,
            forall|j: int| 0 <= j < old(lifts)@.len() ==> (#[trigger] old(lifts)@[j]).in_bounds(),
            forall|j: int| 0 <= j < moves@.len() ==> -1 <= (#[trigger] moves@[j]).0 <= 1 && -1 <= moves@[j].1 <= 1,
            first_holder(*old(mario), old(lifts)@, moves@, was_bottom as int, 0) == first_holder(
                *old(mario),
                old(lifts)@,
                moves@,
                was_bottom as int,
                i as int,
            ),
        decreases lifts@.len() - i,
    {
        let lift = lifts[i];
        let (dx, dy) = moves[i];
        let (ll, lt, lr, _lb) = lift.edges();
        let feet = mario.pixel_y() + h;
        let was_feet = was_bottom + 1;
        let was_top = lt - dy;
        let landed = was_feet <= was_top && feet >= lt;
        let stayed = was_feet == was_top;
        if !(right < ll || left > lr) && !(mario.vy < 0 || !(landed || stayed)) {
            assert(held_by(*old(mario), old(lifts)@[i as int], moves@[i as int], was_bottom as int));
            mario.y = pixels(lt - h);
            mario.vy = 0;
            mario.on_ground = true;
            mario.x = mario.x + dx * SUBPIXEL;
            let mut l = lift;
            l.triggered = true;
            lifts[i] = l;
            return;
        }
        i = i + 1;
    }
}

} // verus!
