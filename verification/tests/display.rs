use sml::camera::Camera;
use sml::font::{draw_number, ADVANCE, GLYPH_H, GLYPH_W};
use sml::frontend::{scaled_size, to_argb};
use sml::hud::status_bar;
use sml::png::{adler32, encode_gray};
use sml::render::{render_background, Framebuffer, Palette, Shade, TileMap};
use sml::rom::crc32;
use sml::tiles::Tile;
use sml::{SCREEN_HEIGHT, SCREEN_WIDTH};

const W: i32 = SCREEN_WIDTH as i32;
const H: i32 = SCREEN_HEIGHT as i32;

#[test]
fn centers_on_focus_in_open_space() {
    let mut cam = Camera::new();
    cam.follow(500, 400, 2000, 2000);
    assert_eq!(cam.x, 500 - W / 2);
    assert_eq!(cam.y, 400 - H / 2);
}

#[test]
fn clamps_at_the_left_and_top_edges() {
    let mut cam = Camera::new();
    cam.follow(10, 5, 2000, 2000);
    assert_eq!(cam.x, 0);
    assert_eq!(cam.y, 0);
}

#[test]
fn clamps_at_the_right_and_bottom_edges() {
    let mut cam = Camera::new();
    cam.follow(1990, 1990, 2000, 2000);
    assert_eq!(cam.x, 2000 - W);
    assert_eq!(cam.y, 2000 - H);
}

#[test]
fn small_level_does_not_scroll() {
    let mut cam = Camera::new();
    cam.follow(50, 50, 100, 100);
    assert_eq!(cam.x, 0);
    assert_eq!(cam.y, 0);
}

#[test]
fn drawing_a_number_marks_pixels() {
    let mut fb = Framebuffer::new();
    let end = draw_number(&mut fb, 2, 2, 8, Shade::Black);
    assert_eq!(fb.get(2, 2), Shade::Black);
    assert_eq!(end, 2 + ADVANCE);
}

#[test]
fn multi_digit_numbers_advance() {
    let mut fb = Framebuffer::new();
    let end = draw_number(&mut fb, 0, 0, 100, Shade::Black);
    assert_eq!(end, 3 * ADVANCE);
}

#[test]
fn zero_renders_and_is_not_blank() {
    let mut fb = Framebuffer::new();
    draw_number(&mut fb, 0, 0, 0, Shade::Black);
    let any_black = (0..GLYPH_W).any(|x| (0..GLYPH_H).any(|y| fb.get(x as u32, y as u32) == Shade::Black));
    assert!(any_black);
}

#[test]
fn reproduces_the_captured_status_bar() {
    let bar = status_bar(0, 0, 2, (1, 1), 393);
    let top: Vec<String> = bar[0].iter().map(|b| format!("{b:02X}")).collect();
    let bottom: Vec<String> = bar[1].iter().map(|b| format!("{b:02X}")).collect();
    assert_eq!(top.join(" "), "16 0A 1B 12 18 2B 18 02 6F 6F 20 18 1B 15 0D 6F 1D 12 16 0E");
    assert_eq!(bottom.join(" "), "6F 6F 6F 6F 6F 18 6F 2A 2B 18 18 6F 01 29 01 6F 6F 03 09 03");
}

#[test]
fn a_six_digit_score_fills_its_field() {
    let bar = status_bar(123456, 0, 0, (1, 1), 0);
    assert_eq!(&bar[1][0..6], &[1, 2, 3, 4, 5, 6]);
}

#[test]
fn screen_dimensions_are_game_boy_native() {
    assert_eq!(SCREEN_WIDTH, 160);
    assert_eq!(SCREEN_HEIGHT, 144);
}

fn solid_tile(index: u8) -> Tile {
    Tile { pixels: [[index; 8]; 8] }
}

#[test]
fn new_framebuffer_is_all_white() {
    let fb = Framebuffer::new();
    assert_eq!(fb.get(0, 0), Shade::White);
    assert_eq!(fb.get(SCREEN_WIDTH - 1, SCREEN_HEIGHT - 1), Shade::White);
}

#[test]
fn set_then_get_round_trips() {
    let mut fb = Framebuffer::new();
    fb.set(10, 20, Shade::Black);
    assert_eq!(fb.get(10, 20), Shade::Black);
    assert_eq!(fb.get(11, 20), Shade::White);
}

#[test]
fn default_palette_maps_index_to_same_shade() {
    let p = Palette::new(0xE4);
    assert_eq!(p.shade(0), Shade::White);
    assert_eq!(p.shade(1), Shade::Light);
    assert_eq!(p.shade(2), Shade::Dark);
    assert_eq!(p.shade(3), Shade::Black);
}

#[test]
fn inverted_palette_swaps_shades() {
    let p = Palette::new(0x1B);
    assert_eq!(p.shade(0), Shade::Black);
    assert_eq!(p.shade(3), Shade::White);
}

#[test]
fn draw_tile_clips_negative_offsets() {
    let mut fb = Framebuffer::new();
    let p = Palette::new(0xE4);
    fb.draw_tile(&solid_tile(3), -7, -7, &p);
    assert_eq!(fb.get(0, 0), Shade::Black);
    assert_eq!(fb.get(1, 1), Shade::White);
}

#[test]
fn render_background_tiles_across_screen() {
    let mut fb = Framebuffer::new();
    let p = Palette::new(0xE4);
    let map = TileMap::new(1, 1, vec![0]);
    let tiles = vec![solid_tile(1)];
    render_background(&mut fb, &map, &tiles, 0, 0, &p);
    assert_eq!(fb.get(0, 0), Shade::Light);
    assert_eq!(fb.get(100, 100), Shade::Light);
    assert_eq!(fb.get(SCREEN_WIDTH - 1, SCREEN_HEIGHT - 1), Shade::Light);
}

#[test]
fn render_background_respects_scroll_and_wrapping() {
    let mut fb = Framebuffer::new();
    let p = Palette::new(0xE4);
    let map = TileMap::new(2, 1, vec![0, 1]);
    let tiles = vec![solid_tile(0), solid_tile(3)];
    render_background(&mut fb, &map, &tiles, 0, 0, &p);
    assert_eq!(fb.get(0, 0), Shade::White);
    assert_eq!(fb.get(8, 0), Shade::Black);
    render_background(&mut fb, &map, &tiles, 8, 0, &p);
    assert_eq!(fb.get(0, 0), Shade::Black);
}

#[test]
fn missing_tile_index_draws_as_blank() {
    let mut fb = Framebuffer::new();
    fb.set(0, 0, Shade::Black);
    fb.set(12, 0, Shade::Black);
    let map = TileMap::new(2, 1, vec![0, 7]);
    let tiles = vec![solid_tile(3)];
    render_background(&mut fb, &map, &tiles, 0, 0, &Palette::new(0xE4));
    assert_eq!(fb.get(0, 0), Shade::Black);
    assert_eq!(fb.get(12, 0), Shade::White);
    render_background(&mut fb, &map, &tiles, 0, 0, &Palette::new(0x1B));
    assert_eq!(fb.get(12, 0), Shade::Black);
}

/// Decode a zlib stream made only of stored blocks.
fn zlib_store_decode(z: &[u8]) -> Vec<u8> {
    let mut out = Vec::new();
    let mut i = 2;
    loop {
        let bfinal = z[i] & 1;
        i += 1;
        let len = u16::from_le_bytes([z[i], z[i + 1]]) as usize;
        i += 4;
        out.extend_from_slice(&z[i..i + len]);
        i += len;
        if bfinal == 1 {
            break;
        }
    }
    out
}

#[test]
fn adler32_known_value() {
    assert_eq!(adler32(b"abc"), 0x024D_0127);
}

#[test]
fn png_has_signature_and_iend() {
    let png = encode_gray(2, 2, &[0, 85, 170, 255]);
    assert_eq!(&png[0..8], &[137, 80, 78, 71, 13, 10, 26, 10]);
    assert_eq!(&png[png.len() - 8..png.len() - 4], b"IEND");
}

#[test]
fn chunk_crcs_are_valid() {
    let png = encode_gray(3, 1, &[10, 20, 30]);
    let mut i = 8;
    loop {
        let len = u32::from_be_bytes(png[i..i + 4].try_into().unwrap()) as usize;
        let kind_and_data = &png[i + 4..i + 8 + len];
        let stored = u32::from_be_bytes(png[i + 8 + len..i + 12 + len].try_into().unwrap());
        assert_eq!(crc32(kind_and_data), stored, "bad CRC at offset {i}");
        let kind = &png[i + 4..i + 8];
        i += 12 + len;
        if kind == b"IEND" {
            break;
        }
    }
    assert_eq!(i, png.len());
}

#[test]
fn image_data_round_trips() {
    let gray = vec![0u8, 64, 128, 192, 255, 32];
    let png = encode_gray(3, 2, &gray);
    let mut i = 8;
    let mut idat = Vec::new();
    loop {
        let len = u32::from_be_bytes(png[i..i + 4].try_into().unwrap()) as usize;
        let kind = &png[i + 4..i + 8];
        if kind == b"IDAT" {
            idat.extend_from_slice(&png[i + 8..i + 8 + len]);
        }
        let done = kind == b"IEND";
        i += 12 + len;
        if done {
            break;
        }
    }
    let raw = zlib_store_decode(&idat);
    let expected = [0u8, 0, 64, 128, 0, 192, 255, 32];
    assert_eq!(raw, expected);
}

#[test]
fn buffer_has_scaled_dimensions() {
    let fb = Framebuffer::new();
    let buf = to_argb(&fb, 3);
    let (w, h) = scaled_size(3);
    assert_eq!(w, SCREEN_WIDTH as usize * 3);
    assert_eq!(h, SCREEN_HEIGHT as usize * 3);
    assert_eq!(buf.len(), w * h);
}

#[test]
fn white_is_opaque_white_black_is_opaque_black() {
    let mut fb = Framebuffer::new();
    fb.set(0, 0, Shade::Black);
    let buf = to_argb(&fb, 1);
    assert_eq!(buf[0], 0xFF00_0000);
    assert_eq!(buf[1], 0xFFFF_FFFF);
}

#[test]
fn scaling_replicates_each_pixel_into_a_block() {
    let mut fb = Framebuffer::new();
    fb.set(0, 0, Shade::Black);
    let scale = 2;
    let buf = to_argb(&fb, scale);
    let (w, _h) = scaled_size(scale);
    assert_eq!(buf[0], 0xFF00_0000);
    assert_eq!(buf[1], 0xFF00_0000);
    assert_eq!(buf[w], 0xFF00_0000);
    assert_eq!(buf[w + 1], 0xFF00_0000);
}

#[test]
fn drawing_far_off_screen_changes_nothing() {
    let mut fb = Framebuffer::new();
    let p = Palette::new(0xE4);
    fb.draw_tile(&solid_tile(3), i32::MAX - 7, i32::MAX - 7, &p);
    fb.draw_tile(&solid_tile(3), i32::MIN, i32::MIN, &p);
    assert_eq!(fb.get(0, 0), Shade::White);
    let end = draw_number(&mut fb, i32::MAX - 12, i32::MAX - 4, 100, Shade::Black);
    assert_eq!(end, i32::MAX);
    let end = draw_number(&mut fb, i32::MIN, i32::MIN, 7, Shade::Black);
    assert_eq!(end, i32::MIN + ADVANCE);
    assert_eq!(fb.get(0, 0), Shade::White);
}

#[test]
fn background_scrolls_from_the_edges_of_i32() {
    let mut fb = Framebuffer::new();
    let p = Palette::new(0xE4);
    let map = TileMap::new(2, 1, vec![0, 1]);
    let tiles = vec![solid_tile(0), solid_tile(3)];
    // i32::MIN is a multiple of the 16-pixel map width, so column 0 starts it.
    render_background(&mut fb, &map, &tiles, i32::MIN, i32::MIN, &p);
    assert_eq!(fb.get(0, 0), Shade::White);
    assert_eq!(fb.get(8, 0), Shade::Black);
    // i32::MAX - 161 leaves 14 after dividing by 16: the screen starts two
    // pixels before the map wraps back to its first tile.
    render_background(&mut fb, &map, &tiles, i32::MAX - 161, 0, &p);
    assert_eq!(fb.get(0, 0), Shade::Black);
    assert_eq!(fb.get(1, 0), Shade::Black);
    assert_eq!(fb.get(2, 0), Shade::White);
}
