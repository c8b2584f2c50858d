use sml::engine::entity::{Facing, Mario, Power, BIG_HEIGHT, SMALL_HEIGHT, SMALL_WIDTH, SUBPIXEL};
use sml::input::{Button, Buttons};

#[test]
fn new_sets_pixel_position_and_defaults() {
    let m = Mario::new(20, 100);
    assert_eq!(m.pixel_x(), 20);
    assert_eq!(m.pixel_y(), 100);
    assert_eq!(m.vx, 0);
    assert_eq!(m.facing, Facing::Right);
    assert_eq!(m.power, Power::Small);
    assert!(!m.on_ground);
}

#[test]
fn subpixel_movement_shows_up_in_whole_pixels_only_when_crossing() {
    let mut m = Mario::new(0, 0);
    m.x += SUBPIXEL / 2; // half a pixel
    assert_eq!(m.pixel_x(), 0);
    m.x += SUBPIXEL / 2; // now a whole pixel
    assert_eq!(m.pixel_x(), 1);
}

#[test]
fn pixel_position_rounds_toward_negative() {
    let mut m = Mario::new(0, 0);
    m.x = -1;
    assert_eq!(m.pixel_x(), -1);
}

#[test]
fn big_mario_is_taller() {
    let mut m = Mario::new(0, 0);
    assert_eq!(m.size(), (SMALL_WIDTH, SMALL_HEIGHT));
    m.power = Power::Big;
    assert_eq!(m.size(), (SMALL_WIDTH, BIG_HEIGHT));
    const { assert!(BIG_HEIGHT > SMALL_HEIGHT) };
}

#[test]
fn the_collision_box_is_narrower_than_the_sprite() {
    // The cartridge draws Mario 16 px across, from two sprites, and
    // collides 11.
    assert_eq!(Mario::new(0, 0).size(), (11, 12));
}

#[test]
fn facing_follows_input() {
    let mut m = Mario::new(0, 0);
    let mut b = Buttons::default();
    b.set(Button::Left, true);
    m.face_from_input(b);
    assert_eq!(m.facing, Facing::Left);

    let mut b = Buttons::default();
    b.set(Button::Right, true);
    m.face_from_input(b);
    assert_eq!(m.facing, Facing::Right);

    // Both held: facing unchanged from the last set value (Right).
    let mut b = Buttons::default();
    b.set(Button::Left, true);
    b.set(Button::Right, true);
    m.face_from_input(b);
    assert_eq!(m.facing, Facing::Right);
}
