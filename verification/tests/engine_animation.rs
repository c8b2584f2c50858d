use sml::engine::animation::{AnimState, Animator, WALK_FRAMES, WALK_FRAME_TICKS};
use sml::engine::entity::{pixels, Facing, Mario};

fn walking() -> Mario {
    let mut m = Mario::new(0, 0);
    m.on_ground = true;
    m.vx = pixels(1);
    m
}

#[test]
fn state_reflects_movement() {
    let mut m = Mario::new(0, 0);
    m.on_ground = true;
    assert_eq!(Animator::state(&m), AnimState::Idle);
    m.vx = pixels(1);
    assert_eq!(Animator::state(&m), AnimState::Walk);
    m.on_ground = false;
    assert_eq!(Animator::state(&m), AnimState::Jump);
}

/// Pressing the opposite way while still moving is its own pose on the
/// cartridge, and it is not the walk: the trace draws block 5 there.
#[test]
fn pressing_against_the_movement_is_a_skid() {
    let mut m = walking();
    assert_eq!(Animator::state(&m), AnimState::Walk);
    m.facing = Facing::Left;
    assert_eq!(Animator::state(&m), AnimState::Skid);
    // And the other way round, which is the second of the two the trace
    // caught.
    m.vx = -m.vx;
    assert_eq!(Animator::state(&m), AnimState::Walk);
    m.facing = Facing::Right;
    assert_eq!(Animator::state(&m), AnimState::Skid);
}

#[test]
fn a_skid_needs_him_on_the_ground_and_moving() {
    let mut m = walking();
    m.facing = Facing::Left;
    m.on_ground = false;
    assert_eq!(Animator::state(&m), AnimState::Jump, "airborne wins");
    m.on_ground = true;
    m.vx = 0;
    assert_eq!(Animator::state(&m), AnimState::Idle, "standing still cannot skid");
}

#[test]
fn walk_cycle_advances_on_the_timer() {
    let m = walking();
    let mut anim = Animator::new();
    assert_eq!(anim.frame(), 0);
    for _ in 0..WALK_FRAME_TICKS {
        anim.update(&m);
    }
    assert_eq!(anim.frame(), 1);
    for _ in 0..WALK_FRAME_TICKS {
        anim.update(&m);
    }
    assert_eq!(anim.frame(), 2);
}

#[test]
fn walk_cycle_wraps() {
    let m = walking();
    let mut anim = Animator::new();
    for _ in 0..(WALK_FRAME_TICKS as usize * WALK_FRAMES as usize) {
        anim.update(&m);
    }
    assert_eq!(anim.frame(), 0);
}

#[test]
fn idle_resets_the_walk_frame() {
    let walk = walking();
    let mut anim = Animator::new();
    for _ in 0..WALK_FRAME_TICKS {
        anim.update(&walk);
    }
    assert_eq!(anim.frame(), 1);

    let mut idle = Mario::new(0, 0);
    idle.on_ground = true;
    anim.update(&idle);
    assert_eq!(anim.frame(), 0);
}

#[test]
fn walk_frame_follows_the_timer_for_every_count() {
    let walk = walking();
    let mut still = walking();
    still.vx = 0;
    for n in 0..40u32 {
        let mut a = Animator::new();
        let mut b = Animator::new();
        for _ in 0..n {
            a.update(&walk);
            b.update(&still);
        }
        let expected = (n / WALK_FRAME_TICKS as u32) % WALK_FRAMES as u32;
        assert_eq!(a.frame() as u32, expected, "after {n} walking frames");
        assert_eq!(b.frame(), 0, "after {n} still frames");
    }
}
