use sml::assets::level::{
    exit_door, extract_level_from, extract_screen_from, far_end, find_screen_lists, is_bonus_room, tiles_for_world,
    tile_census, to_level_text_with_objects, Column, EXIT_DOOR, FILLER, ROWS,
};
use sml::assets::object::{
    drop_block_spawns, extract_objects_from, kind_name, level_markers, lift_spawns, spawning, spawning_in, walker_spawns, Mode,
    ObjectRecord, DROP_BLOCK, HOPPER, LEDGE_TURNER, LIFT_HORIZONTAL, LIFT_VERTICAL, WALKER,
};
use sml::assets::sprite::{ink_box, mario_pixels, per_world, sprite_sheet, Size};
use sml::assets::title::extract_title_from;
use sml::assets::{extract_tiles_from, tilemap_from_bytes, tilemap_to_bytes, AssetError, TileSheet, DEFAULT_BGP};
use sml::engine::level::Level;
use sml::rom::VerifyError;
use sml::tiles::Tile;

/// A ROM of `len` zero bytes with `bytes` written at `at`.
fn rom_with(len: usize, at: usize, bytes: &[u8]) -> Vec<u8> {
    let mut rom = vec![0u8; len];
    rom[at..at + bytes.len()].copy_from_slice(bytes);
    rom
}

/// A screen of twenty solid columns at `0x4100`, and a list of `n` pointers to
/// it at `0x4010`.
fn rom_with_list(n: usize) -> Vec<u8> {
    let mut rom = vec![0u8; 0x4200];
    let mut list = Vec::new();
    for _ in 0..n {
        list.extend_from_slice(&[0x00, 0x41]);
    }
    list.push(0xFF);
    rom[0x4010..0x4010 + list.len()].copy_from_slice(&list);
    for c in 0..20 {
        rom[0x4100 + 4 * c..0x4100 + 4 * c + 4].copy_from_slice(&[0x00, 0xFD, 0x60, 0xFE]);
    }
    rom
}

#[test]
fn a_list_of_solid_screens_is_found() {
    let rom = rom_with_list(6);
    assert_eq!(find_screen_lists(&rom), vec![(0x4010, vec![0x4100u16; 6])]);
}

#[test]
fn a_list_found_again_two_bytes_in_is_collapsed() {
    // Seven pointers: the run from 0x4012 also has six and would qualify.
    let rom = rom_with_list(7);
    assert_eq!(find_screen_lists(&rom), vec![(0x4010, vec![0x4100u16; 7])]);
}

#[test]
fn too_short_a_list_is_not_a_level() {
    let rom = rom_with_list(5);
    assert!(find_screen_lists(&rom).is_empty());
}

#[test]
fn a_rom_smaller_than_a_bank_has_no_lists() {
    assert!(find_screen_lists(&[0u8; 100]).is_empty());
}

fn flat_floor(width: usize) -> Vec<Column> {
    let mut columns = vec![[FILLER; ROWS]; width];
    for column in columns.iter_mut() {
        column[14] = 96;
    }
    columns
}

#[test]
fn the_far_end_of_a_flat_floor_is_its_last_column() {
    assert_eq!(far_end(&flat_floor(10)), Some((9, 13)));
}

#[test]
fn a_sealed_pocket_is_not_the_far_end() {
    let mut columns = flat_floor(10);
    // Wall off the last two columns: a pocket Mario cannot reach.
    for row in 0..ROWS {
        columns[7][row] = 96;
    }
    assert_eq!(far_end(&columns), Some((6, 13)));
}

#[test]
fn the_lower_exit_door_is_the_exit() {
    let mut columns = flat_floor(10);
    columns[3][0] = EXIT_DOOR;
    columns[3][12] = EXIT_DOOR;
    assert_eq!(exit_door(&columns), Some((3, 12)));
    assert_eq!(exit_door(&flat_floor(4)), None);
}

#[test]
fn the_end_trigger_goes_on_the_door() {
    let mut columns = flat_floor(10);
    columns[4][12] = EXIT_DOOR;
    let text = to_level_text_with_objects(&columns, &[]);
    let lines: Vec<&str> = text.lines().collect();
    assert_eq!(lines[12].chars().nth(4), Some('E'));
    assert_eq!(lines[13].chars().nth(9), Some('.'));
}

#[test]
fn objects_land_only_on_empty_cells() {
    let mut columns = flat_floor(10);
    columns[2][13] = 0xF4;
    let objects = [(1, 13, b'G'), (2, 13, b'G'), (3, 14, b'V'), (40, 3, b'H'), (8, 2, b'H')];
    let text = to_level_text_with_objects(&columns, &objects);
    let lines: Vec<&str> = text.lines().collect();
    assert_eq!(lines[13], ".GC...M..E");
    assert_eq!(lines[14], "##########");
    assert_eq!(lines[2].chars().nth(8), Some('H'));
    assert_eq!(text.len(), 16 * 11);
}

#[test]
fn a_coin_room_has_a_floor_and_a_coin() {
    let mut columns = flat_floor(4);
    for column in columns.iter_mut() {
        column[15] = 96;
    }
    assert!(!is_bonus_room(&columns));
    columns[1][5] = 0xF4;
    assert!(is_bonus_room(&columns));
}

#[test]
fn extraction_refuses_an_unknown_rom() {
    let rom = vec![0u8; 0x10000];
    assert!(matches!(extract_level_from(&rom, 0xA198), Err(AssetError::Rom(VerifyError::Mismatch(_)))));
    assert!(matches!(extract_screen_from(&rom, 0xA198, 0), Err(AssetError::Rom(VerifyError::Mismatch(_)))));
    assert!(matches!(extract_title_from(&rom), Err(AssetError::Rom(VerifyError::Mismatch(_)))));
    assert!(matches!(extract_objects_from(&rom, 0xA002), Err(AssetError::Rom(VerifyError::Mismatch(_)))));
    assert!(matches!(extract_tiles_from(&rom, 0, 1), Err(AssetError::Rom(VerifyError::Mismatch(_)))));
}

#[test]
fn a_tile_map_file_reads_back() {
    let bytes = tilemap_to_bytes(2, 1, &[5, 6]);
    assert_eq!(bytes, vec![83, 77, 76, 77, 1, 2, 0, 1, 0, 5, 6]);
    let map = tilemap_from_bytes(&bytes).unwrap();
    assert_eq!((map.width, map.height, map.cells), (2, 1, vec![5, 6]));
}

#[test]
fn a_tile_map_file_with_missing_cells_is_rejected() {
    assert!(matches!(tilemap_from_bytes(&[83, 77, 76, 77, 1, 2, 0, 1, 0, 5]), Err(AssetError::BadFormat)));
    assert!(matches!(tilemap_from_bytes(b"SMLT\x01\x00\x00\x00\x00"), Err(AssetError::BadFormat)));
}

#[test]
fn a_preview_shades_through_the_palette() {
    let sheet = TileSheet::new(vec![Tile { pixels: [[3; 8]; 8] }], DEFAULT_BGP);
    let pgm = sheet.to_pgm(0);
    assert_eq!(&pgm[..11], b"P5\n8 8\n255\n");
    assert_eq!(pgm.len(), 11 + 64);
    assert!(pgm[11..].iter().all(|&p| p == 0));
}

#[test]
fn a_preview_row_runs_out_in_white() {
    let sheet = TileSheet::new(vec![Tile { pixels: [[1; 8]; 8] }], DEFAULT_BGP);
    let pgm = sheet.to_pgm(2);
    assert_eq!(&pgm[..12], b"P5\n16 8\n255\n");
    assert_eq!(pgm[12], 170);
    assert_eq!(pgm[12 + 8], 255);
}

#[test]
fn spawn_lists_pick_their_own_kinds() {
    let records = [
        ObjectRecord { x: 1, y: 0x0F, kind: WALKER },
        ObjectRecord { x: 2, y: 0x0F, kind: LEDGE_TURNER | 0x80 },
        ObjectRecord { x: 3, y: 0x05, kind: LIFT_VERTICAL },
        ObjectRecord { x: 4, y: 0x05, kind: LIFT_HORIZONTAL },
        ObjectRecord { x: 5, y: 0x01, kind: DROP_BLOCK },
        ObjectRecord { x: 6, y: 0x0C, kind: DROP_BLOCK },
    ];
    assert_eq!(walker_spawns(&records, Mode::Normal), vec![(2, 13, false)]);
    assert_eq!(walker_spawns(&records, Mode::Expert), vec![(2, 13, false), (4, 13, true)]);
    assert_eq!(lift_spawns(&records, Mode::Normal), vec![(6, 3, true), (8, 3, false)]);
    // A row above the playfield is left out.
    assert_eq!(drop_block_spawns(&records, Mode::Normal), vec![(12, 10)]);
    assert_eq!(spawning(&records).len(), 5);
    assert_eq!(spawning_in(&records, Mode::Expert).len(), 6);
    assert_eq!(Mode::default(), Mode::Normal);
    assert_eq!(kind_name(DROP_BLOCK), Some("drop block"));
    assert_eq!(kind_name(0xFF), None);
}

#[test]
fn a_short_rom_has_no_atlas() {
    let rom = rom_with(0x9000, 0, &[]);
    assert!(matches!(tiles_for_world(&rom, 1), Err(AssetError::OutOfRange { end: 0x9832, len: 0x9000 })));
    assert!(matches!(sprite_sheet(&rom, 2), Err(AssetError::OutOfRange { end: 0x9832, len: 0x9000 })));
}

#[test]
fn the_sprite_sheet_is_the_first_two_hundred_fifty_six_tiles() {
    // Tile 1 of the atlas has its top left pixel set in the low plane.
    let rom = rom_with(0x9832, 0x8032 + 16, &[0x80]);
    let sheet = sprite_sheet(&rom, 1).unwrap();
    assert_eq!(sheet.len(), 256);
    assert_eq!(sheet[1].pixels[0][0], 1);
    assert_eq!(sheet[0].pixels[0][0], 0);
    let pixels = mario_pixels(&sheet, Size::Small, 0);
    // Mario's small frame reads tiles 0, 1, 16 and 17: tile 1 is the top right.
    assert_eq!(pixels[0][8], 1);
    assert_eq!(ink_box(&pixels), Some((8, 0, 1, 1)));
}

#[test]
fn a_blank_frame_has_no_ink() {
    assert_eq!(ink_box(&[[0u8; 16]; 16]), None);
    let mut p = [[0u8; 16]; 16];
    p[3][2] = 1;
    p[12][9] = 2;
    assert_eq!(ink_box(&p), Some((2, 3, 8, 10)));
}

#[test]
fn the_enemy_tiles_are_the_per_world_band() {
    assert!(!per_world(0x9F));
    assert!(per_world(0xA0));
    assert!(per_world(0xDC));
    assert!(!per_world(0xDD));
}

#[test]
fn a_written_level_loads_as_it_was_written() {
    let text = to_level_text_with_objects(&flat_floor(10), &[(2, 13, b'G')]);
    let level = Level::from_text(&text).unwrap();
    assert_eq!((level.solids.width, level.solids.height), (10, 16));
    assert!(level.solids.is_solid(3, 14));
    assert!(!level.solids.is_solid(3, 13));
    assert_eq!(level.spawn, (48, 104));
    assert_eq!(level.end, Some((72, 104)));
    assert_eq!(level.enemy_spawns.len(), 1);
    assert_eq!((level.enemy_spawns[0].0, level.enemy_spawns[0].1), (16, 104));
}

#[test]
fn markers_tag_walkers_then_lifts_then_jumpers() {
    let records = [
        ObjectRecord { x: 7, y: 0x0F, kind: HOPPER },
        ObjectRecord { x: 3, y: 0x05, kind: LIFT_VERTICAL },
        ObjectRecord { x: 1, y: 0x0F, kind: WALKER },
        ObjectRecord { x: 4, y: 0x05, kind: LIFT_HORIZONTAL },
        ObjectRecord { x: 2, y: 0x0F, kind: LEDGE_TURNER | 0x80 },
        ObjectRecord { x: 5, y: 0x01, kind: DROP_BLOCK },
    ];
    assert_eq!(
        level_markers(&records, Mode::Normal),
        vec![(2, 13, b'G'), (6, 3, b'V'), (8, 3, b'H'), (14, 13, b'J')]
    );
    assert_eq!(
        level_markers(&records, Mode::Expert),
        vec![(2, 13, b'G'), (4, 13, b'T'), (6, 3, b'V'), (8, 3, b'H'), (14, 13, b'J')]
    );
    assert!(level_markers(&[], Mode::Normal).is_empty());
}

#[test]
fn a_census_counts_each_class_of_tile() {
    let mut a: Column = [FILLER; 16];
    a[15] = 0x80;
    a[14] = 0x68;
    a[3] = 0xF4;
    let mut b: Column = [FILLER; 16];
    b[15] = 0x80;
    b[13] = 0x7C;
    assert_eq!(tile_census(&[a, b]), (2, 2, 1));
    assert_eq!(tile_census(&[]), (0, 0, 0));
}
