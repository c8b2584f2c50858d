use sml::engine::level::Solids;
use sml::engine::superball::{update_superball, Superball, SUPERBALL_LIFE};

fn floor() -> Solids {
    Solids::from_rows(&[
        &".".repeat(20),
        &".".repeat(20),
        &".".repeat(20),
        &"#".repeat(20),
    ])
}

#[test]
fn superball_bounces_off_the_floor() {
    let solids = floor();
    let mut s = Superball::new(40, 8, false);
    // Let it fall and hit the floor at least once.
    let mut bounced = false;
    for _ in 0..30 {
        update_superball(&mut s, &solids);
        if s.vy < 0 {
            bounced = true;
            break;
        }
    }
    assert!(bounced, "it should bounce up off the floor");
}

#[test]
fn superball_fizzles_after_its_life() {
    let solids = floor();
    let mut s = Superball::new(40, 8, false);
    let mut alive = true;
    for _ in 0..(SUPERBALL_LIFE + 2) {
        alive = update_superball(&mut s, &solids);
    }
    assert!(!alive, "it should fizzle eventually");
}

#[test]
fn a_fizzled_ball_anywhere_is_left_alone() {
    let solids = floor();
    let mut s = Superball::new(0, 0, false);
    s.life = 0;
    s.x = i32::MAX;
    s.vy = i32::MAX;
    assert!(!update_superball(&mut s, &solids));
    assert_eq!((s.x, s.vy), (i32::MAX, i32::MAX));
}
