use sml::engine::enemy::{
    despawn_offscreen, update_enemy, Enemy, EnemyKind, ENEMY_CONTACT, FALL_DELAY, FLIGHT_CYCLE, FLIGHT_FRAMES, FLIGHT_HOLD,
    HOP_CYCLE, HOP_FRAMES, HOP_HEIGHT, HOP_INTERVAL,
};
use sml::engine::level::Solids;

/// The two windows measured on the cartridge: Mario is hurt across 15 pixels of
/// horizontal offset and 16 of vertical. Those are what fix
/// `ENEMY_CONTACT` at 5, given his own box of 11 by 12, and the engine has
/// to reproduce them or the constant is decoration.
#[test]
fn contact_covers_the_window_the_cartridge_covers() {
    let enemy = Enemy::goomba(100, 100, true);
    let (el, et, er, eb) = enemy.contact_edges();
    let (mw, mh) = (11, 12);

    let across = (60..160)
        .filter(|&mx| mx <= er && mx + mw > el)
        .count();
    let down = (60..160)
        .filter(|&my| my <= eb && my + mh > et)
        .count();
    assert_eq!(across, 15, "horizontal contact window");
    assert_eq!(down, 16, "vertical contact window");
}

fn floor() -> Solids {
    // 20 wide, floor on the bottom row (row 3, pixels y 24..31).
    Solids::from_rows(&[
        &".".repeat(20),
        &".".repeat(20),
        &".".repeat(20),
        &"#".repeat(20),
    ])
}

#[test]
fn enemy_falls_and_lands_on_the_floor() {
    let solids = floor();
    let mut e = Enemy::goomba(40, 0, true);
    e.vx = 0; // isolate the fall; horizontal walk is tested separately
    for _ in 0..200 {
        update_enemy(&mut e, &solids);
    }
    assert_eq!(e.pixel_y(), 16); // rests on floor top y=24, 8 tall
    assert!(e.on_ground);
}

#[test]
fn enemy_walks_forward_on_open_ground() {
    let solids = floor();
    let mut e = Enemy::goomba(80, 16, true); // walking left on a wide floor
    let start = e.x;
    for _ in 0..10 {
        update_enemy(&mut e, &solids);
    }
    assert!(e.x < start, "should have walked left");
    assert!(e.on_ground);
}

#[test]
fn enemy_walks_a_pixel_every_three_frames() {
    // What the cartridge does: 143 steps of one pixel, 3 frames apart
    // every time. Over 300 frames that is 100 pixels, and ours lands on
    // the same pixel.
    let solids = floor();
    let mut e = Enemy::goomba(120, 16, true);
    let start = e.pixel_x();
    for _ in 0..300 {
        update_enemy(&mut e, &solids);
    }
    assert_eq!(start - e.pixel_x(), 100);
}

#[test]
fn enemy_reverses_at_a_wall() {
    // Wall column at x 56..63 (tile 7), floor below.
    let mut rows = [
        "....................".to_string(),
        "....................".to_string(),
        "....................".to_string(),
        "####################".to_string(),
    ];
    for row in rows.iter_mut().take(3) {
        row.replace_range(7..8, "#");
    }
    let refs: Vec<&str> = rows.iter().map(String::as_str).collect();
    let solids = Solids::from_rows(&refs);

    let mut e = Enemy::goomba(40, 16, false); // walking right toward the wall
    assert!(e.vx > 0);
    let mut reversed = false;
    for _ in 0..200 {
        update_enemy(&mut e, &solids);
        if e.vx < 0 {
            reversed = true;
        }
        assert!(e.pixel_x() <= 48, "should never pass the wall at x=56");
    }
    assert!(reversed, "should have turned around at the wall");
}

#[test]
fn a_walker_leaves_a_ledge_instead_of_turning() {
    // A short platform (tiles 5..9 on the floor row) with empty space
    // beyond. Rows are 20 wide, 4 tall; the platform is on the bottom row.
    let mut floor_row = ".".repeat(20);
    floor_row.replace_range(5..10, "#####");
    let solids = Solids::from_rows(&[
        &".".repeat(20),
        &".".repeat(20),
        &".".repeat(20),
        &floor_row,
    ]);

    // Walker standing on the platform (tile 6, pixel x 48, y 16), going right.
    let mut e = Enemy::goomba(48, 16, false);
    e.on_ground = true;
    let edge_x = 10 * 8; // right edge of the platform
    for _ in 0..300 {
        update_enemy(&mut e, &solids);
    }
    assert!(e.pixel_x() >= edge_x, "should have walked off the end");
    assert!(!e.on_ground, "and be falling");
}

#[test]
fn a_ledge_turner_stays_on_its_platform() {
    // A short platform (tiles 5..9 on the floor row) with empty space
    // beyond, so a walker that ignores the edge leaves it.
    let mut floor_row = ".".repeat(20);
    floor_row.replace_range(5..10, "#####");
    let solids = Solids::from_rows(&[
        &".".repeat(20),
        &".".repeat(20),
        &".".repeat(20),
        &floor_row,
    ]);
    let mut e = Enemy::ledge_turner(48, 16, false);
    e.on_ground = true;
    for _ in 0..300 {
        update_enemy(&mut e, &solids);
    }
    let (l, _t, r, b) = e.edges();
    assert!(e.on_ground, "it should never have left the platform");
    assert!(solids.rect_hits_solid(l, b + 1, r, b + 1));
}

#[test]
fn a_falling_walker_drops_straight_down_at_one_pixel_a_frame() {
    // Ground under the left half only, so the walker runs out of floor.
    let mut floor_row = "#".repeat(10);
    floor_row.push_str(&".".repeat(10));
    let solids = Solids::from_rows(&[
        &".".repeat(20),
        &".".repeat(20),
        &".".repeat(20),
        &floor_row,
    ]);
    let mut e = Enemy::goomba(48, 16, false);
    e.on_ground = true;
    while e.on_ground {
        update_enemy(&mut e, &solids);
    }
    let (x, y) = (e.pixel_x(), e.pixel_y());
    for step in 1..=8 {
        update_enemy(&mut e, &solids);
        assert_eq!(e.pixel_x(), x, "no horizontal movement while falling");
        assert_eq!(e.pixel_y(), y + step, "one pixel down per frame");
    }
}

#[test]
fn a_fly_hops_off_the_ground() {
    let solids = floor();
    let mut f = Enemy::bouncer(40, 16, false);
    f.vx = 0; // isolate the hop
    // Settle onto the floor.
    for _ in 0..10 {
        update_enemy(&mut f, &solids);
    }
    assert!(f.on_ground);
    let resting_y = f.pixel_y();
    // Within one hop interval it should leave the ground and rise.
    let mut rose = false;
    for _ in 0..(HOP_INTERVAL as usize + 5) {
        update_enemy(&mut f, &solids);
        if f.pixel_y() < resting_y {
            rose = true;
            break;
        }
    }
    assert!(rose, "a Bouncer should hop above its resting height");
}

/// The whole traced cycle, checked against the numbers the cartridge gave.
#[test]
fn a_hopper_reproduces_the_traced_arc() {
    let solids = floor();
    let mut h = Enemy::fly(80, 16, true);
    update_enemy(&mut h, &solids);
    assert!(h.on_ground);
    let (rest_x, rest_y) = (h.pixel_x(), h.pixel_y());

    let mut peak = rest_y;
    let mut airborne = 0;
    for _ in 0..HOP_CYCLE {
        update_enemy(&mut h, &solids);
        peak = peak.min(h.pixel_y());
        if h.pixel_y() < rest_y {
            airborne += 1;
        }
    }
    assert_eq!(rest_y - peak, HOP_HEIGHT, "15 px high");
    assert_eq!(rest_x - h.pixel_x(), 32, "32 px sideways per hop");
    assert_eq!(h.pixel_y(), rest_y, "and back on the ground");
    // 48 frames of the cycle move it; the first update leaves the ground
    // and the last one puts it back, so 45 are spent above the row.
    assert_eq!(airborne, 45);
}

#[test]
fn a_hopper_stands_perfectly_still_between_hops() {
    let solids = floor();
    let mut h = Enemy::fly(80, 16, true);
    for _ in 0..2 {
        update_enemy(&mut h, &solids);
    }
    let at = (h.pixel_x(), h.pixel_y());
    // It starts in the still half of the cycle, so nothing should move
    // until the hop comes round.
    for _ in 0..(HOP_CYCLE - HOP_FRAMES - 4) {
        update_enemy(&mut h, &solids);
        assert_eq!((h.pixel_x(), h.pixel_y()), at);
    }
}

#[test]
fn a_hopper_turns_at_a_wall() {
    let mut rows = [
        "....................".to_string(),
        "....................".to_string(),
        "....................".to_string(),
        "####################".to_string(),
    ];
    for row in rows.iter_mut().take(3) {
        row.replace_range(7..8, "#");
    }
    let refs: Vec<&str> = rows.iter().map(String::as_str).collect();
    let solids = Solids::from_rows(&refs);

    let mut h = Enemy::fly(40, 16, false); // hopping toward the wall
    let mut reversed = false;
    for _ in 0..(HOP_CYCLE * 3) {
        update_enemy(&mut h, &solids);
        if h.vx < 0 {
            reversed = true;
        }
        assert!(h.pixel_x() <= 48, "it must never pass the wall at x=56");
    }
    assert!(reversed);
}

#[test]
fn a_hopper_goes_off_a_ledge_rather_than_turning() {
    let mut floor_row = ".".repeat(20);
    floor_row.replace_range(5..10, "#####");
    let solids = Solids::from_rows(&[
        &".".repeat(20),
        &".".repeat(20),
        &".".repeat(20),
        &floor_row,
    ]);
    let mut h = Enemy::fly(48, 16, false);
    let start_y = h.pixel_y();
    for _ in 0..(HOP_CYCLE * 3) {
        update_enemy(&mut h, &solids);
    }
    assert!(h.pixel_x() >= 80, "it should have hopped past the ledge");
    assert!(h.pixel_y() > start_y, "and be on its way down");
}

#[test]
fn a_faller_holds_still_and_then_drops() {
    let solids = floor();
    let mut f = Enemy::faller(40, 0);
    let start = (f.pixel_x(), f.pixel_y());
    for _ in 0..FALL_DELAY {
        update_enemy(&mut f, &solids);
        assert_eq!((f.pixel_x(), f.pixel_y()), start, "it waits where it is");
    }
    for step in 1..=8 {
        update_enemy(&mut f, &solids);
        assert_eq!(f.pixel_x(), start.0, "and never moves sideways");
        assert_eq!(f.pixel_y(), start.1 + step, "one pixel down per frame");
    }
}

#[test]
fn a_faller_comes_to_rest_on_a_floor() {
    let solids = floor();
    let mut f = Enemy::faller(40, 0);
    for _ in 0..(FALL_DELAY as usize + 200) {
        update_enemy(&mut f, &solids);
    }
    assert_eq!(f.pixel_y(), 16, "floor top is y=24 and it is 8 tall");
    assert!(f.on_ground);
}

#[test]
fn bunbun_flies_in_bursts_the_length_the_trace_gives() {
    let solids = floor();
    let mut b = Enemy::bunbun(120, 40);
    let start = (b.pixel_x(), b.pixel_y());
    for step in 1..=FLIGHT_FRAMES {
        update_enemy(&mut b, &solids);
        assert_eq!(b.pixel_x(), start.0 - step as i32, "a pixel a frame, left");
        assert_eq!(b.pixel_y(), start.1, "and never a pixel of height");
    }
    let held = b.pixel_x();
    for _ in 0..FLIGHT_HOLD {
        update_enemy(&mut b, &solids);
        assert_eq!(b.pixel_x(), held, "then it holds still");
    }
    update_enemy(&mut b, &solids);
    assert_eq!(b.pixel_x(), held - 1, "and the next burst starts");
}

#[test]
fn bunbun_covers_forty_one_pixels_every_seventy_four_frames() {
    let solids = floor();
    let mut b = Enemy::bunbun(400, 40);
    let start = b.pixel_x();
    for _ in 0..(FLIGHT_CYCLE * 4) {
        update_enemy(&mut b, &solids);
    }
    assert_eq!(start - b.pixel_x(), 4 * FLIGHT_FRAMES as i32);
}

#[test]
fn bunbun_flies_through_the_floor_it_meets() {
    // The cartridge was never seen crossing terrain, so ours passes
    // through rather than inventing a collision.
    let solids = floor();
    let mut b = Enemy::bunbun(40, 24);
    for _ in 0..FLIGHT_FRAMES {
        update_enemy(&mut b, &solids);
    }
    assert_eq!(b.pixel_y(), 24, "the floor at y=24 does not hold it up");
    assert_eq!(b.pixel_x(), 40 - FLIGHT_FRAMES as i32, "or stop it");
}

#[test]
fn dead_enemies_do_not_move() {
    let solids = floor();
    let mut e = Enemy::goomba(40, 16, true);
    e.alive = false;
    let before = (e.x, e.y);
    update_enemy(&mut e, &solids);
    assert_eq!((e.x, e.y), before);
}

#[test]
fn despawn_removes_dead_and_offscreen() {
    let mut enemies = vec![
        Enemy::goomba(100, 16, true),  // on screen
        Enemy::goomba(-100, 16, true), // far left, off screen
        Enemy::goomba(120, 16, true),  // on screen but dead
    ];
    enemies[2].alive = false;
    despawn_offscreen(&mut enemies, 0);
    assert_eq!(enemies.len(), 1);
    assert_eq!(enemies[0].pixel_x(), 100);
}

#[test]
fn a_dead_enemy_anywhere_stays_put() {
    let solids = floor();
    let mut e = Enemy::goomba(0, 0, true);
    e.alive = false;
    e.x = i32::MAX;
    e.y = i32::MIN;
    e.vx = i32::MAX;
    update_enemy(&mut e, &solids);
    assert_eq!((e.x, e.y, e.vx), (i32::MAX, i32::MIN, i32::MAX));
}

#[test]
fn despawning_works_near_the_ends_of_i32() {
    let mut enemies = vec![Enemy::goomba(100, 16, true)];
    despawn_offscreen(&mut enemies, i32::MAX - 192);
    assert!(enemies.is_empty());
    let mut enemies = vec![Enemy::goomba(100, 16, true)];
    despawn_offscreen(&mut enemies, i32::MIN + 32);
    assert!(enemies.is_empty());
}
