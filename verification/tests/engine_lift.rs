use sml::engine::entity::{pixels, Mario, SUBPIXEL};
use sml::engine::lift::{ride_lifts, Lift, LiftAxis, DROP_DELAY, FOOT_WIDTH, HORIZONTAL_HALF_CYCLE, VERTICAL_HALF_CYCLE};

/// The cartridge holds Mario over a 29 pixel window of his own position,
/// swept a pixel at a time. That number is the
/// whole reason the lift is 24 wide and the foot test is 6: no other pair
/// of a tile-multiple surface and a sensible foot produces 29.
#[test]
fn mario_is_held_across_the_twenty_nine_pixels_the_cartridge_holds_him() {
    let lift = Lift::new(100, 100, LiftAxis::Vertical);
    let held: Vec<i32> = (60..160)
        .filter(|&x| {
            let mut mario = Mario::new(x, 100 - 12);
            mario.vy = 1;
            ride_lifts(&mut mario, &mut [lift], &[(0, 0)], 100 - 1);
            mario.on_ground
        })
        .collect();
    assert_eq!(
        held.len(),
        29,
        "held from {:?} to {:?}",
        held.first(),
        held.last()
    );
}

/// The other half of the same measurement. The drop block's surface is 8
/// wide against the lift's 24, and the window it holds Mario over is 13
/// against 29. Both are `surface + FOOT_WIDTH - 1` for the same foot, from
/// two runs that shared no number.
#[test]
fn a_drop_block_holds_him_across_the_thirteen_the_cartridge_holds_him() {
    let held: Vec<i32> = (60..160)
        .filter(|&x| {
            let mut mario = Mario::new(x, 100 - 12);
            mario.vy = 1;
            let mut blocks = [Lift::drop_block(100, 100)];
            ride_lifts(&mut mario, &mut blocks, &[(0, 0)], 100 - 1);
            mario.on_ground
        })
        .collect();
    assert_eq!(held.len(), 13, "held from {:?}", held.first());
}

#[test]
fn a_drop_block_stays_put_until_it_is_stood_on() {
    let mut block = Lift::drop_block(0, 40);
    for _ in 0..600 {
        assert_eq!(block.step(), (0, 0));
    }
    assert_eq!(block.y, 40, "the 600 frame trace never saw it move");
}

/// The traced arc: nine frames of nothing, then a pixel every frame with
/// no let up, measured twice.
#[test]
fn a_drop_block_waits_nine_frames_and_then_falls_a_pixel_a_frame() {
    let mut mario = Mario::new(0, 40 - 12);
    let mut blocks = [Lift::drop_block(0, 40)];
    mario.vy = 1;
    ride_lifts(&mut mario, &mut blocks, &[(0, 0)], 40 - 1);
    assert!(mario.on_ground);
    assert!(blocks[0].triggered);

    for frame in 0..DROP_DELAY - 1 {
        assert_eq!(blocks[0].step(), (0, 0), "frame {frame} after the touch");
    }
    assert_eq!(blocks[0].y, 40);
    for frame in 0..50 {
        assert_eq!(blocks[0].step(), (0, 1), "frame {frame} of the fall");
    }
    assert_eq!(blocks[0].y, 90);
}

/// It carries him down, the way the trace's fixed gap of 10 does.
#[test]
fn a_drop_block_takes_mario_with_it() {
    let mut mario = Mario::new(0, 40 - 12);
    let mut blocks = [Lift::drop_block(0, 40)];
    mario.vy = 1;
    ride_lifts(&mut mario, &mut blocks, &[(0, 0)], 40 - 1);
    let (_w, h) = mario.size();
    for _ in 0..DROP_DELAY + 20 {
        let was_bottom = mario.pixel_y() + h - 1;
        let moves = [blocks[0].step()];
        ride_lifts(&mut mario, &mut blocks, &moves, was_bottom);
    }
    assert_eq!(
        mario.pixel_y() + h,
        blocks[0].y,
        "his feet stay on its top edge all the way down"
    );
    assert_eq!(blocks[0].y, 40 + 20 + 1);
}

#[test]
fn a_lift_moves_a_pixel_every_two_frames() {
    let mut lift = Lift::new(0, 100, LiftAxis::Vertical);
    assert_eq!(lift.step(), (0, 0));
    assert_eq!(lift.step(), (0, 1));
    assert_eq!(lift.y, 101);
}

#[test]
fn the_vertical_lift_covers_sixty_pixels_before_turning() {
    let mut lift = Lift::new(0, 0, LiftAxis::Vertical);
    for _ in 0..VERTICAL_HALF_CYCLE {
        lift.step();
    }
    assert_eq!(lift.y, 60);
    assert_eq!(lift.direction, -1);
    for _ in 0..VERTICAL_HALF_CYCLE {
        lift.step();
    }
    assert_eq!(lift.y, 0);
}

#[test]
fn the_horizontal_lift_covers_fifty_three_pixels_before_turning() {
    let mut lift = Lift::new(0, 0, LiftAxis::Horizontal);
    for _ in 0..HORIZONTAL_HALF_CYCLE {
        lift.step();
    }
    assert_eq!(lift.x, -53);
    assert_eq!(lift.direction, 1);
}

/// A lift sets off away from its record's position and comes back to it.
/// Traced on the cartridge in two levels: down for the vertical one, left
/// for the horizontal one, a full half cycle each way.
#[test]
fn a_lift_sets_off_the_way_the_cartridge_sends_it() {
    for (axis, expect) in [
        (LiftAxis::Vertical, (0, 60)),
        (LiftAxis::Horizontal, (-53, 0)),
    ] {
        let mut lift = Lift::new(0, 0, axis);
        let half = axis.half_cycle();
        for _ in 0..half {
            lift.step();
        }
        assert_eq!((lift.x, lift.y), expect, "half a cycle of {axis:?}");
        for _ in 0..half {
            lift.step();
        }
        assert_eq!((lift.x, lift.y), (0, 0), "and back to where it started");
    }
}

#[test]
fn mario_lands_on_a_lift_and_is_carried_by_it() {
    let mut mario = Mario::new(0, 0);
    let lift = Lift::new(0, 40, LiftAxis::Horizontal);
    let (_w, h) = mario.size();
    // Feet one pixel above the lift's top, coming down.
    mario.y = pixels(40 - h + 1);
    mario.vy = SUBPIXEL;
    ride_lifts(&mut mario, &mut [lift], &[(1, 0)], 40 - 2);
    assert_eq!(mario.pixel_y() + h, 40, "his feet rest on the top edge");
    assert!(mario.on_ground);
    assert_eq!(mario.vy, 0);
    assert_eq!(mario.pixel_x(), 1, "carried by the lift's own pixel");
}

#[test]
fn a_rising_mario_passes_through_a_lift() {
    let mut mario = Mario::new(0, 0);
    let lift = Lift::new(0, 40, LiftAxis::Vertical);
    let (_w, h) = mario.size();
    mario.y = pixels(40 - h + 1);
    mario.vy = -SUBPIXEL;
    ride_lifts(&mut mario, &mut [lift], &[(0, 0)], 60);
    assert!(!mario.on_ground, "a jump goes up through it");
    assert_eq!(mario.vy, -SUBPIXEL);
}

#[test]
fn a_lift_to_the_side_does_not_catch_him() {
    let mut mario = Mario::new(0, 0);
    let lift = Lift::new(64, 40, LiftAxis::Vertical);
    let (_w, h) = mario.size();
    mario.y = pixels(40 - h + 1);
    mario.vy = SUBPIXEL;
    ride_lifts(&mut mario, &mut [lift], &[(0, 0)], 40 - 2);
    assert!(!mario.on_ground);
}

#[test]
fn a_lift_only_runs_on_its_own_axis() {
    let mut vertical = Lift::new(10, 10, LiftAxis::Vertical);
    let mut horizontal = Lift::new(10, 10, LiftAxis::Horizontal);
    for _ in 0..40 {
        vertical.step();
        horizontal.step();
    }
    assert_eq!(vertical.x, 10);
    assert_eq!(horizontal.y, 10);
}
