use sml::engine::level::Solids;
use sml::engine::powerup::{update_mushroom, Mushroom};

fn floor() -> Solids {
    Solids::from_rows(&[
        &".".repeat(20),
        &".".repeat(20),
        &".".repeat(20),
        &"#".repeat(20),
    ])
}

#[test]
fn mushroom_falls_and_walks() {
    let solids = floor();
    let mut m = Mushroom::new(40, 0, false);
    for _ in 0..200 {
        update_mushroom(&mut m, &solids);
    }
    assert_eq!(m.pixel_y(), 16); // rests on the floor
    assert!(m.on_ground);
}

#[test]
fn mushroom_reverses_at_a_wall() {
    let mut rows = [
        "....................".to_string(),
        "....................".to_string(),
        "....................".to_string(),
        "####################".to_string(),
    ];
    for row in rows.iter_mut().take(3) {
        row.replace_range(7..8, "#");
    }
    let refs: Vec<&str> = rows.iter().map(String::as_str).collect();
    let solids = Solids::from_rows(&refs);

    let mut m = Mushroom::new(40, 16, false); // walking right into the wall
    let mut reversed = false;
    for _ in 0..200 {
        update_mushroom(&mut m, &solids);
        if m.vx < 0 {
            reversed = true;
        }
        assert!(m.pixel_x() <= 48);
    }
    assert!(reversed);
}
