use sml::assets::level::{
    decode_column, is_coin, is_platform, is_solid, pits, screen_list, to_level_text, COIN, FILLER, ROWS, SEMI_SOLID,
    SPAWN_COLUMN,
};
use sml::assets::object::{
    kind_name, object_list, ObjectRecord, EXPERT_ONLY, FALLER, HOPPER, LEDGE_TURNER, LIFT_HORIZONTAL, LIFT_VERTICAL,
    WALKER,
};
use sml::assets::sprite::{mario_frame, Size};
use sml::assets::title::{tile_blocks, tile_vram_addr, VRAM_TILE_BASE, VRAM_TILE_SIZE};
use sml::assets::{shade_of, AssetError, TileSheet, DEFAULT_BGP};
use sml::tiles::{decode_tiles, Tile};

/// The worked example from the format notes: world column 87.
#[test]
fn decodes_the_worked_example_column() {
    let bytes = [0x02, 0x53, 0x40, 0x37, 0xFD, 0xF4, 0xE2, 0x60, 0x61, 0xFE];
    let (column, next) = decode_column(&bytes, 0).unwrap();
    assert_eq!(next, bytes.len());
    assert_eq!(column[0], 83);
    assert_eq!(column[1], 64);
    assert_eq!(&column[3..10], &[244; 7]);
    assert_eq!(column[2], FILLER, "rows no run covers are filler");
    assert_eq!(column[10], FILLER);
    assert_eq!((column[14], column[15]), (96, 97));
}

#[test]
fn a_count_nibble_of_zero_means_a_full_column() {
    let bytes = [0x00, 0xFD, 0x63, 0xFE];
    let (column, _) = decode_column(&bytes, 0).unwrap();
    assert_eq!(column, [0x63; ROWS]);
}

#[test]
fn a_run_that_overflows_the_column_is_rejected() {
    let bytes = [0xE8, 1, 2, 3, 4, 5, 6, 7, 8, 0xFE];
    assert!(decode_column(&bytes, 0).is_none());
}

#[test]
fn an_unterminated_record_is_rejected() {
    let bytes = [0x02, 0x53, 0x40];
    assert!(decode_column(&bytes, 0).is_none());
}

#[test]
fn the_screen_list_stops_at_its_terminator() {
    let bytes = [0xBE, 0x62, 0x00, 0x62, 0xFF, 0x99, 0x99];
    assert_eq!(screen_list(&bytes, 0), vec![0x62BE, 0x6200]);
}

#[test]
fn solidity_matches_the_probed_rule() {
    assert!(!is_solid(0x00));
    assert!(!is_solid(0x5F));
    assert!(is_solid(0x60), "tile 96 is the ground");
    assert!(is_solid(0xE8), "tile 232 is the raised platform fill");
    assert!(is_solid(0xFF));
    assert!(!is_solid(COIN), "a coin does not block Mario");
    assert!(is_coin(0xF4));
    for tile in SEMI_SOLID {
        assert!(is_platform(tile), "these hold Mario up from above only");
        assert!(!is_solid(tile), "and do not block him sideways");
    }
}

#[test]
fn level_text_marks_spawn_and_end() {
    let mut columns = vec![[FILLER; ROWS]; 10];
    for column in columns.iter_mut() {
        column[14] = 96;
    }
    let text = to_level_text(&columns);
    let lines: Vec<&str> = text.lines().collect();
    assert_eq!(lines.len(), ROWS);
    assert_eq!(lines[14], "##########");
    assert_eq!(lines[13].chars().nth(SPAWN_COLUMN), Some('M'));
    assert_eq!(lines[13].chars().nth(9), Some('E'));
}

#[test]
fn pits_are_columns_with_nothing_solid() {
    let mut columns = vec![[FILLER; ROWS]; 4];
    columns[0][14] = 96;
    columns[3][14] = 96;
    assert_eq!(pits(&columns), vec![1, 2]);
}

fn sample_sheet() -> TileSheet {
    let mut a = [[0u8; 8]; 8];
    a[0][0] = 3;
    a[7][7] = 1;
    let mut b = [[2u8; 8]; 8];
    b[3][3] = 0;
    TileSheet::new(vec![Tile { pixels: a }, Tile { pixels: b }], DEFAULT_BGP)
}

#[test]
fn asset_bytes_round_trip() {
    let sheet = sample_sheet();
    let bytes = sheet.to_bytes();
    let back = TileSheet::from_bytes(&bytes).unwrap();
    assert_eq!(sheet, back);
}

#[test]
fn bad_magic_is_rejected() {
    assert!(matches!(TileSheet::from_bytes(b"nope and some more bytes here"), Err(AssetError::BadFormat)));
}

#[test]
fn default_palette_is_identity() {
    for i in 0..4 {
        assert_eq!(shade_of(i, DEFAULT_BGP), i);
    }
}

#[test]
fn pgm_has_expected_dimensions() {
    let sheet = sample_sheet();
    let pgm = sheet.to_pgm(1);
    let header = std::str::from_utf8(&pgm[..12]).unwrap();
    assert!(header.starts_with("P5\n8 16\n255\n"), "header was {header:?}");
}

#[test]
fn a_list_stops_at_its_terminator() {
    let rom = [0x0C, 0x0F, 0x00, 0x21, 0x0C, 0x84, 0xFF, 0x99, 0x99, 0x99];
    let records = object_list(&rom, 0);
    assert_eq!(records.len(), 2);
    assert_eq!(records[0].kind, 0x00);
    assert!(records[1].expert_only());
}

#[test]
fn a_record_places_itself_in_the_level() {
    let record = ObjectRecord { x: 0x0C, y: 0x0F, kind: 0x00 };
    assert_eq!(record.pixel_x(), 192);
    assert_eq!(record.column(), 24);
    assert_eq!(record.row(), 13);
    assert!(!record.expert_only());
}

#[test]
fn the_y_nibbles_are_read_separately() {
    let low = ObjectRecord { x: 0x76, y: 0x0D, kind: 0x36 };
    let high = ObjectRecord { x: 0x76, y: 0x8D, kind: 0x36 };
    assert_eq!(low.row(), high.row());
    assert_eq!(high.pixel_x() - low.pixel_x(), 8);
    assert_eq!(low.pixel_x(), 0x76 * 16);
}

#[test]
fn every_measured_kind_lands_on_a_name_that_matches_it() {
    assert_eq!(kind_name(WALKER), Some("Chibibo"));
    assert_eq!(kind_name(LEDGE_TURNER), Some("Nokobon"));
    assert_eq!(kind_name(HOPPER), Some("Fly"));
    assert_eq!(kind_name(FALLER), Some("Falling Slab"));
    assert_eq!(kind_name(LIFT_VERTICAL), Some("platform"));
    assert_eq!(kind_name(LIFT_HORIZONTAL), Some("platform"));
    assert_eq!(kind_name(0x02), Some("Pakkun Flower"));
}

#[test]
fn an_expert_only_record_keeps_its_name() {
    assert_eq!(kind_name(WALKER | EXPERT_ONLY), Some("Chibibo"));
}

#[test]
fn an_unnamed_kind_stays_unnamed() {
    assert_eq!(kind_name(0x07), None);
}

#[test]
fn a_row_byte_of_zero_reads_as_above_the_playfield() {
    let record = ObjectRecord { x: 0x69, y: 0x10, kind: 0x84 };
    assert_eq!(record.row(), -2);
    assert!(record.expert_only());
}

#[test]
fn a_frame_is_a_block_of_the_sheet_rather_than_consecutive_ids() {
    assert_eq!(mario_frame(Size::Small, 0), [0, 1, 16, 17]);
    assert_eq!(mario_frame(Size::Small, 1), [2, 3, 18, 19]);
    assert_eq!(mario_frame(Size::Big, 0), [32, 33, 48, 49]);
}

#[test]
fn tile_vram_addr_signed_mode() {
    assert_eq!(tile_vram_addr(0), 0x9000);
    assert_eq!(tile_vram_addr(127), 0x9000 + 127 * 16);
    assert_eq!(tile_vram_addr(128), 0x8800);
    assert_eq!(tile_vram_addr(255), 0x8800 + 127 * 16);
}

#[test]
fn tile_blocks_fit_in_vram() {
    for block in tile_blocks() {
        let vram_off = block.vram_dest - VRAM_TILE_BASE;
        assert!(
            vram_off + block.size <= VRAM_TILE_SIZE,
            "block at ROM 0x{:04X} (VRAM 0x{:04X}, size 0x{:04X}) overflows VRAM",
            block.rom_offset,
            block.vram_dest,
            block.size,
        );
    }
}

#[test]
fn tile_blocks_cover_expected_tile_count() {
    let total_tiles: usize = tile_blocks().iter().map(|b| b.size / 16).sum();
    assert_eq!(total_tiles, 148);
}

#[test]
fn tile_block_offsets_are_bank_2() {
    let offsets: Vec<usize> = tile_blocks().iter().map(|b| b.rom_offset).collect();
    assert_eq!(offsets, vec![0x9032, 0xB91A, 0xBE1A, 0x8862]);
}

#[test]
fn all_zero_bytes_decode_to_index_zero() {
    let tile = Tile::decode(&[0u8; 16]);
    assert_eq!(tile.pixels, [[0u8; 8]; 8]);
}

#[test]
fn plane_bits_combine_into_indices() {
    let mut bytes = [0u8; 16];
    bytes[0] = 0xFF;
    bytes[1] = 0x00;
    bytes[2] = 0x00;
    bytes[3] = 0xFF;
    bytes[4] = 0xFF;
    bytes[5] = 0xFF;
    let tile = Tile::decode(&bytes);
    assert_eq!(tile.pixels[0], [1; 8]);
    assert_eq!(tile.pixels[1], [2; 8]);
    assert_eq!(tile.pixels[2], [3; 8]);
    assert_eq!(tile.pixels[3], [0; 8]);
}

#[test]
fn pixel_order_is_most_significant_bit_first() {
    let mut bytes = [0u8; 16];
    bytes[0] = 0b1000_0000;
    let tile = Tile::decode(&bytes);
    assert_eq!(tile.pixels[0][0], 1);
    assert_eq!(tile.pixels[0][1], 0);
    assert_eq!(tile.pixels[0][7], 0);
}

#[test]
fn decode_tiles_counts_whole_tiles_only() {
    let bytes = vec![0u8; Tile::BYTES * 3 + 5];
    assert_eq!(decode_tiles(&bytes).len(), 3);
}
