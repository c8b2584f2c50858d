use sml::engine::enemy::EnemyKind;
use sml::engine::level::{Level, Solids, TILE};
use sml::engine::powerup::ItemKind;

#[test]
fn level_reads_spawn_and_solids() {
    let level = Level::from_rows(&[
        "........",
        "...M....",
        "........",
        "########",
    ]);
    // Spawn 'M' is at column 3, row 1 -> pixel (24, 8).
    assert_eq!(level.spawn, (24, 8));
    // The 'M' tile is not solid, the floor is.
    assert!(!level.solids.is_solid(3, 1));
    assert!(level.solids.is_solid(0, 3));
}

#[test]
fn from_str_parses_a_level() {
    let text = "..?..\n..M..\n#####\n";
    let level = Level::from_text(text).unwrap();
    assert_eq!(level.spawn, (2 * TILE, TILE)); // 'M' at col 2, row 1
    assert_eq!(level.blocks.len(), 1); // the '?'
    assert!(level.solids.is_solid(0, 2)); // floor row
}

#[test]
fn from_str_rejects_ragged_rows() {
    let err = Level::from_text("####\n###\n").unwrap_err();
    assert!(err.contains("wide"), "error explains the width mismatch: {err}");
}

#[test]
fn from_str_ignores_trailing_blank_lines() {
    let level = Level::from_text("M.\n##\n\n").unwrap();
    assert_eq!(level.solids.height, 2);
}


#[test]
fn level_without_spawn_defaults_to_origin() {
    let level = Level::from_rows(&["....", "####"]);
    assert_eq!(level.spawn, (0, 0));
}

#[test]
fn from_rows_marks_solids() {
    let s = Solids::from_rows(&["....", "####"]);
    assert!(!s.is_solid(0, 0));
    assert!(s.is_solid(0, 1));
    assert!(s.is_solid(3, 1));
}

#[test]
fn out_of_range_is_empty() {
    let s = Solids::from_rows(&["#"]);
    assert!(!s.is_solid(-1, 0));
    assert!(!s.is_solid(0, -1));
    assert!(!s.is_solid(1, 0));
    assert!(!s.is_solid(0, 1));
}

#[test]
fn without_non_canonical_drops_the_star_and_the_fly() {
    let level = Level::from_rows(&["M.S.F.", "..G.C.", "######"]);
    assert_eq!(level.items.len(), 1, "the star parses in the first place");
    assert_eq!(level.enemy_spawns.len(), 2);

    let faithful = level.without_non_canonical();
    assert!(faithful.items.is_empty(), "no star survives");
    assert_eq!(
        faithful.enemy_spawns.len(),
        1,
        "the Goomba stays, the Fly goes"
    );
    assert_eq!(faithful.enemy_spawns[0].2, EnemyKind::Goomba);
    assert_eq!(faithful.coins.len(), 1, "coins are canonical");
}

#[test]
fn without_non_canonical_keeps_the_flower() {
    // The superball flower is SML's own power-up, so it must survive.
    let level = Level::from_rows(&["M.W.", "####"]).without_non_canonical();
    assert_eq!(level.items.len(), 1);
    assert_eq!(level.items[0].2, ItemKind::Flower);
}

#[test]
fn rect_hits_solid_spans_tiles() {
    // Solid floor along row 2 (pixels y 16..23).
    let s = Solids::from_rows(&["....", "....", "####"]);
    assert!(!s.rect_hits_solid(0, 0, 7, 7)); // top-left tile, empty
    assert!(s.rect_hits_solid(0, 8, 7, 16)); // reaches into the floor row
}
