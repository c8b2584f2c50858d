//! Super Mario Land reproduction: the verified game library.
//!
//! - [`engine`]: deterministic game state and simulation. No rendering, no I/O.
//! - [`render`]: turns a game state into a pixel framebuffer.
//! - [`input`]: Game Boy button state, fed into the core each frame.
//! - [`assets`]: decodes tiles, palettes, and level data from cartridge bytes.
pub mod assets;
pub mod camera;
pub mod engine;
pub mod font;
pub mod frontend;
pub mod game;
pub mod hud;
pub mod input;
pub mod math;
pub mod png;
pub mod render;
pub mod rom;
pub mod scene;
pub mod session;
pub mod sound;
pub mod text;
pub mod tiles;
pub mod tuning;

use vstd::prelude::*;

verus! {

/// The Game Boy display is 160 pixels wide.
pub const SCREEN_WIDTH: u32 = 160;
/// The Game Boy display is 144 pixels tall.
pub const SCREEN_HEIGHT: u32 = 144;

} // verus!
