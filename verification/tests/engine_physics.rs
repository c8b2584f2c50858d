use sml::engine::entity::{pixels, Facing, Mario, SMALL_HEIGHT, SMALL_WIDTH};
use sml::engine::level::{Solids, TILE};
use sml::engine::physics::{
    step_motion, step_walk, BOUNCE_CUT, FRICTION, GRAVITY, JUMP_CUT, JUMP_VELOCITY, MAX_FALL_SPEED, MAX_RISE_FRAMES,
    MAX_WALK_SPEED, RISE_DRIFT, STOMP_BOUNCE, WALK_ACCEL,
};
use sml::input::{Button, Buttons};
use sml::tuning::Tuning;

fn held(button: Button) -> Buttons {
    let mut b = Buttons::default();
    b.set(button, true);
    b
}

#[test]
fn holding_right_builds_speed_and_moves_right() {
    let mut m = Mario::new(50, 100);
    let start = m.x;
    step_walk(&mut m, held(Button::Right), &Tuning::default());
    assert_eq!(m.vx, WALK_ACCEL);
    assert!(m.x > start);
    assert_eq!(m.facing, Facing::Right);
}

#[test]
fn speed_is_capped_at_max_walk() {
    let mut m = Mario::new(0, 0);
    for _ in 0..1000 {
        step_walk(&mut m, held(Button::Right), &Tuning::default());
    }
    assert_eq!(m.vx, MAX_WALK_SPEED);
}

#[test]
fn releasing_coasts_to_a_stop() {
    let mut m = Mario::new(0, 0);
    for _ in 0..20 {
        step_walk(&mut m, held(Button::Right), &Tuning::default());
    }
    assert!(m.vx > 0);
    for _ in 0..1000 {
        step_walk(&mut m, Buttons::default(), &Tuning::default());
    }
    assert_eq!(m.vx, 0);
}

#[test]
fn friction_does_not_overshoot_past_zero() {
    let mut m = Mario::new(0, 0);
    m.vx = FRICTION / 2; // less than one friction step
    step_walk(&mut m, Buttons::default(), &Tuning::default());
    assert_eq!(m.vx, 0);
}

#[test]
fn left_and_right_together_coast_like_no_input() {
    let mut m = Mario::new(0, 0);
    m.vx = 100;
    let mut both = Buttons::default();
    both.set(Button::Left, true);
    both.set(Button::Right, true);
    step_walk(&mut m, both, &Tuning::default());
    assert_eq!(m.vx, 100 - FRICTION);
}

#[test]
fn physics_stepping_is_deterministic() {
    let script = [Button::Right, Button::Right, Button::Left];
    let mut a = Mario::new(10, 10);
    let mut b = Mario::new(10, 10);
    for &button in &script {
        step_walk(&mut a, held(button), &Tuning::default());
        step_walk(&mut b, held(button), &Tuning::default());
    }
    assert_eq!(a, b);
}

#[test]
fn physics_constants_are_pinned() {
    // Every constant here is pinned to observed emulator RAM (see the
    // module doc comment). This test is a tripwire: if a constant
    // changes, it is a deliberate act, not an accident. Update the
    // expected values here in the same commit that retunes them.
    assert_eq!(WALK_ACCEL, 43);
    assert_eq!(FRICTION, 43);
    assert_eq!(MAX_WALK_SPEED, 256);
    assert_eq!(GRAVITY, 76);
    assert_eq!(MAX_FALL_SPEED, 640);
    assert_eq!(JUMP_VELOCITY, 602);
    assert_eq!(RISE_DRIFT, 10);
    assert_eq!(MAX_RISE_FRAMES, 12);
    assert_eq!(JUMP_CUT, 76);
    assert_eq!(BOUNCE_CUT, 29);
    assert_eq!(STOMP_BOUNCE, 360);
}

// Gravity and collision.

/// A floor along the bottom row, empty above. 8 tiles wide, 4 tall, so the
/// floor's top is at pixel y = 24.
fn floor_level() -> Solids {
    Solids::from_rows(&[
        "........",
        "........",
        "........",
        "########",
    ])
}

#[test]
fn mario_falls_and_lands_on_the_floor() {
    let solids = floor_level();
    let mut m = Mario::new(8, 0); // above the floor
    for _ in 0..200 {
        step_motion(&mut m, Buttons::default(), &solids, &Tuning::default());
    }
    // Floor top is y=24 and Mario is 12 tall, so he rests at y=12.
    assert_eq!(m.pixel_y(), 24 - SMALL_HEIGHT);
    assert_eq!(m.vy, 0);
    assert!(m.on_ground);
}

#[test]
fn walking_into_a_wall_stops_horizontal_movement() {
    // Wall in the rightmost column, floor along the bottom.
    let solids = Solids::from_rows(&[
        ".......#",
        ".......#",
        ".......#",
        "########",
    ]);
    let mut m = Mario::new(8, 16); // on the floor, left of the wall
    for _ in 0..200 {
        step_motion(&mut m, held(Button::Right), &solids, &Tuning::default());
    }
    // Wall's left edge is x=56 and Mario is 11 wide, so he stops at x=45
    // and cannot pass it no matter how long he pushes.
    assert_eq!(m.pixel_x(), 56 - SMALL_WIDTH);
    for _ in 0..10 {
        step_motion(&mut m, held(Button::Right), &solids, &Tuning::default());
        assert_eq!(m.pixel_x(), 56 - SMALL_WIDTH);
    }
}

#[test]
fn not_grounded_while_in_the_air() {
    let solids = floor_level();
    let mut m = Mario::new(8, 0);
    step_motion(&mut m, Buttons::default(), &solids, &Tuning::default());
    assert!(!m.on_ground);
}

/// Settle Mario onto the floor so he starts grounded.
fn resting_on_floor() -> (Mario, Solids) {
    let solids = floor_level();
    let mut m = Mario::new(8, 0);
    for _ in 0..200 {
        step_motion(&mut m, Buttons::default(), &solids, &Tuning::default());
    }
    assert!(m.on_ground);
    (m, solids)
}

#[test]
fn pressing_jump_from_the_ground_launches_up() {
    let (mut m, solids) = resting_on_floor();
    let top = m.pixel_y();
    step_motion(&mut m, held(Button::A), &solids, &Tuning::default());
    assert!(m.vy < 0, "should be moving up");
    assert!(!m.on_ground);
    // A few frames in, he is above where he started.
    for _ in 0..5 {
        step_motion(&mut m, held(Button::A), &solids, &Tuning::default());
    }
    assert!(m.pixel_y() < top);
}

/// Rise height in pixels and frames spent rising, for a Mario launched
/// upward at `STOMP_BOUNCE` from mid-air with `bouncing` set.
fn bounce_arc(buttons: Buttons) -> (i32, i32) {
    // Tall enough that the arc plays out without touching the floor.
    let solids = Solids::from_rows(&["........", "........", "########"]);
    let mut m = Mario::new(8, 0);
    m.vy = -STOMP_BOUNCE;
    m.bouncing = true;
    let start = m.pixel_y();
    let mut frames = 0;
    while m.vy < 0 {
        step_motion(&mut m, buttons, &solids, &Tuning::default());
        frames += 1;
    }
    (start - m.pixel_y(), frames)
}

#[test]
fn stomp_bounce_matches_the_traced_arc() {
    // The cartridge lifts Mario 8px over about 12.4 frames after a stomp
    // (61 landed stomps). Simulating the
    // implemented constant end to end has to land in the same place, not
    // just equal its own source number: the first value tried here came
    // straight from 2d/t and only reached 7px once actually stepped.
    let (rise, frames) = bounce_arc(Buttons::default());
    assert_eq!(rise, 8, "bounce rise");
    assert!((12..=14).contains(&frames), "bounce lasted {frames} frames");
}

#[test]
fn stomp_bounce_ignores_a_held_jump_button() {
    // Holding A through a stomp gave 9px over 13.5 frames on the
    // cartridge, essentially the same bounce, not the near-flat held
    // rise a jump gets. Without the `bouncing` flag this arc collapses:
    // rise_frames is already spent from the jump that got Mario airborne,
    // so the held branch would reset vy to 0 on the very next frame.
    let (held_rise, held_frames) = bounce_arc(held(Button::A));
    let (free_rise, free_frames) = bounce_arc(Buttons::default());
    assert_eq!((held_rise, held_frames), (free_rise, free_frames));
}

#[test]
fn landing_clears_the_bounce_flag() {
    let solids = floor_level();
    let mut m = Mario::new(8, 0);
    m.bouncing = true;
    for _ in 0..200 {
        step_motion(&mut m, Buttons::default(), &solids, &Tuning::default());
    }
    assert!(m.on_ground);
    assert!(!m.bouncing);
}

#[test]
fn cannot_jump_again_while_airborne() {
    let (mut m, solids) = resting_on_floor();
    step_motion(&mut m, held(Button::A), &solids, &Tuning::default());
    let vy_after_first = m.vy;
    // Still holding A in the air must not relaunch.
    step_motion(&mut m, held(Button::A), &solids, &Tuning::default());
    assert!(m.vy > vy_after_first, "gravity should reduce upward speed, not reset it");
}

#[test]
fn held_rise_is_cut_off_by_frame_count_not_by_decay() {
    // Holding A well past MAX_RISE_FRAMES must still end the rise: the
    // real cartridge does this too, the drift alone
    // would take dozens of frames to reach zero on its own. Once the cap
    // kicks in, JUMP_CUT's real deceleration takes over and reaches zero
    // in a handful more frames, same as a real jump's total arc length.
    let (mut m, solids) = resting_on_floor();
    for i in 0..MAX_RISE_FRAMES {
        step_motion(&mut m, held(Button::A), &solids, &Tuning::default());
        assert!(m.vy < 0, "frame {i}: should still be rising while under the cap");
    }
    for _ in 0..40 {
        step_motion(&mut m, held(Button::A), &solids, &Tuning::default());
        if m.vy >= 0 {
            return;
        }
    }
    panic!("past the cap, held or not, the rise should have ended within 40 more frames");
}

#[test]
fn releasing_early_decelerates_faster_than_the_held_drift() {
    // Tap: release immediately after takeoff.
    let (mut tap, solids) = resting_on_floor();
    step_motion(&mut tap, held(Button::A), &solids, &Tuning::default());
    let tap_vy_at_takeoff = tap.vy;
    step_motion(&mut tap, Buttons::default(), &solids, &Tuning::default());
    let tap_delta = tap.vy - tap_vy_at_takeoff;

    // Hold: keep A down for the same second frame.
    let (mut hold, solids2) = resting_on_floor();
    step_motion(&mut hold, held(Button::A), &solids2, &Tuning::default());
    let hold_vy_at_takeoff = hold.vy;
    step_motion(&mut hold, held(Button::A), &solids2, &Tuning::default());
    let hold_delta = hold.vy - hold_vy_at_takeoff;

    assert!(
        tap_delta > hold_delta,
        "releasing early should decelerate faster than the held drift: tap_delta={tap_delta} hold_delta={hold_delta}"
    );
}

#[test]
fn holding_jump_goes_higher_than_tapping() {
    // Tapped jump: pressed one frame, released after.
    let (mut tap, solids) = resting_on_floor();
    step_motion(&mut tap, held(Button::A), &solids, &Tuning::default());
    let mut tap_apex = tap.pixel_y();
    for _ in 0..40 {
        step_motion(&mut tap, Buttons::default(), &solids, &Tuning::default());
        tap_apex = tap_apex.min(tap.pixel_y());
    }

    // Held jump: A down the whole way up.
    let (mut hold, solids) = resting_on_floor();
    let mut hold_apex = hold.pixel_y();
    for _ in 0..40 {
        step_motion(&mut hold, held(Button::A), &solids, &Tuning::default());
        hold_apex = hold_apex.min(hold.pixel_y());
    }

    assert!(hold_apex < tap_apex, "holding should reach a higher apex");
}

/// How high a jump goes, at three hold lengths, against the traced arcs.
fn apex(hold: u32) -> i32 {
    let (mut m, solids) = resting_on_floor();
    let start = m.pixel_y();
    let mut peak = start;
    for f in 0..40 {
        let buttons = if f < hold { held(Button::A) } else { Buttons::default() };
        step_motion(&mut m, buttons, &solids, &Tuning::default());
        peak = peak.min(m.pixel_y());
    }
    start - peak
}

/// The cartridge traces peak at 15px for a 3-frame hold and 24px for an
/// 8-frame hold. `JUMP_CUT` was fitted rather than simulated and gave 28
/// and 35, which also made an early release the highest jump the engine
/// had, since holding through the cap stops the rise outright.
#[test]
fn a_short_hold_matches_the_traced_arc() {
    assert_eq!(apex(3), 15, "a 3-frame hold peaks at 15px on the cartridge");
    assert_eq!(apex(8), 24, "an 8-frame hold peaks at 24px");
}

/// Longer hold, higher jump, over the range the traces cover. This is
/// what the old `JUMP_CUT` broke worst: at 29 the curve ran 28px at a
/// 3-frame hold down to 24px at 8, so pressing the button for longer got
/// Mario less height.
///
/// The range stops at the cap. Holds of 9 to 12 come out above the
/// held-throughout peak here (up to 31px against 26px), because releasing
/// one frame before the cap decays gradually where the cap stops the rise
/// outright. Nothing measured that side of the boundary on the cartridge,
/// so it is left as it falls out rather than tuned to look tidy.
#[test]
fn a_longer_hold_jumps_higher_up_to_the_cap() {
    let heights: Vec<i32> = (1..=8).map(apex).collect();
    assert!(
        heights.windows(2).all(|w| w[1] > w[0]),
        "each extra frame of hold should add height: {heights:?}"
    );
}

/// Holding through the cap, which the cartridge puts at 24-25px.
#[test]
fn a_full_jump_matches_the_traced_height() {
    assert_eq!(apex(40), 26);
    assert_eq!(apex(13), apex(40), "the cap ends the rise, not the button");
}

/// The same jump with a direction held. On the cartridge that is 33px
/// against 24 standing, from the same save state, and it is what World
/// 1-1's own geometry needs: the pillar at columns 78 and 79 stands 32px
/// above the ground either side of it.
#[test]
fn moving_jumps_higher_than_standing_still() {
    let (mut m, solids) = resting_on_floor();
    let start = m.pixel_y();
    let mut peak = start;
    let mut buttons = held(Button::A);
    buttons.set(Button::Right, true);
    for _ in 0..40 {
        step_motion(&mut m, buttons, &solids, &Tuning::default());
        peak = peak.min(m.pixel_y());
    }
    let moving = start - peak;
    assert_eq!(moving, 35, "the cartridge gives 33 here and 24 standing");
    assert!(moving - apex(40) >= 8, "the glide is worth about 9px");
}

#[test]
fn mario_settles_into_a_two_tile_wide_slot() {
    // Mario is 11 px wide, so a one-tile slot no longer admits him. Walls
    // on columns 1 and 4 leave a 16 px slot, which is the narrowest gap
    // that fits him at all.
    let solids = Solids::from_rows(&[
        ".#..#...",
        ".#..#...",
        ".#..#...",
        "########",
    ]);
    let mut m = Mario::new(18, 0);
    for _ in 0..200 {
        step_motion(&mut m, Buttons::default(), &solids, &Tuning::default());
    }
    assert_eq!(m.pixel_x(), 18);
    assert_eq!(m.pixel_y(), 24 - SMALL_HEIGHT);
    assert!(m.on_ground);
}

#[test]
fn a_one_tile_slot_is_too_narrow_for_him() {
    let solids = Solids::from_rows(&[
        "..#.#...",
        "..#.#...",
        "..#.#...",
        "########",
    ]);
    let mut m = Mario::new(24, 0);
    for _ in 0..200 {
        step_motion(&mut m, Buttons::default(), &solids, &Tuning::default());
    }
    // He never reaches the floor of the slot, which is at y = 24.
    assert!(m.pixel_y() + SMALL_HEIGHT < 24);
}

#[test]
fn ceiling_stops_upward_motion() {
    // Solid ceiling on the top row (pixels y 0..7).
    let solids = Solids::from_rows(&[
        "########",
        "........",
        "........",
        "########",
    ]);
    let mut m = Mario::new(8, 8); // top just below the ceiling
    m.vy = -pixels(1); // launched straight up
    step_motion(&mut m, Buttons::default(), &solids, &Tuning::default());
    // He cannot enter the ceiling: top is pushed back to y=8, vy cleared.
    assert_eq!(m.pixel_y(), 8);
    assert_eq!(m.vy, 0);
}


/// Four tile ids hold Mario up without blocking him sideways, measured
/// from the cartridge. World 1-2 lays them
/// out as horizontal runs with distinct end caps.
fn ledge() -> Solids {
    Solids::from_rows(&[
        "........",
        "........",
        "..^^^^..",
        "........",
        "########",
    ])
}

fn drop_onto(start_y: i32) -> Mario {
    let solids = ledge();
    let t = Tuning::default();
    let mut mario = Mario::new(3 * TILE, start_y);
    for _ in 0..60 {
        step_motion(&mut mario, Buttons::default(), &solids, &t);
    }
    mario
}

#[test]
fn a_platform_catches_a_fall_from_above() {
    let mario = drop_onto(0);
    assert!(mario.on_ground, "should be standing on the platform");
    let (_w, h) = mario.size();
    assert_eq!(mario.pixel_y(), 2 * TILE - h, "resting on the platform top");
}

#[test]
fn a_platform_does_not_stop_a_jump_from_below() {
    let solids = ledge();
    let t = Tuning::default();
    let mut mario = Mario::new(3 * TILE, 3 * TILE);
    let mut buttons = Buttons::default();
    buttons.set(Button::A, true);
    let mut highest = mario.pixel_y();
    for _ in 0..40 {
        step_motion(&mut mario, buttons, &solids, &t);
        highest = highest.min(mario.pixel_y());
    }
    assert!(
        highest < 2 * TILE - 8,
        "Mario should pass up through the platform, highest was {highest}"
    );
}

#[test]
fn a_platform_does_not_block_sideways() {
    let solids = ledge();
    let t = Tuning::default();
    // Standing on the ground row, walking right under the platform row.
    let mut mario = Mario::new(0, 3 * TILE);
    let mut buttons = Buttons::default();
    buttons.set(Button::Right, true);
    for _ in 0..120 {
        step_motion(&mut mario, buttons, &solids, &t);
    }
    assert!(
        mario.pixel_x() > 5 * TILE,
        "should have walked past the platform, got {}",
        mario.pixel_x()
    );
}

#[test]
fn without_a_platform_he_falls_to_the_floor() {
    let solids = Solids::from_rows(&[
        "........",
        "........",
        "........",
        "........",
        "########",
    ]);
    let t = Tuning::default();
    let mut mario = Mario::new(3 * TILE, 0);
    for _ in 0..60 {
        step_motion(&mut mario, Buttons::default(), &solids, &t);
    }
    let (_w, h) = mario.size();
    assert_eq!(mario.pixel_y(), 4 * TILE - h);
}
