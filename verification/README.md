# sml

Super Mario Land, as a verified game library and a thin command around it.

The library (`src/`) holds the game and the cartridge decoding, each function
with a contract that Verus proves:

- `engine`: Mario, enemies, blocks, items, superballs, lifts and the solid
  world, with sub-pixel physics.
- `game`: one frame of play as a pure function of the state and the buttons
  (`game::world`), the executable step that meets it, and the picture of a
  frame.
- `session`: the title screen, the levels in order, and the end screens.
- `assets`: the cartridge's column records, screen lists, object lists, title
  screen and sprite atlas; our tile sheet, tile map and level text formats,
  with laws that what is written reads back.
- `rom`: CRC-32, MD5 and SHA-1, and the check that a dump is Super Mario Land
  (World) v1.0. Every extraction refuses any other dump.
- `render`, `font`, `hud`, `png`, `frontend`: the framebuffer, the status bar,
  and PNG and window pixel output.

The command (`app/`) reads and writes files, opens the window and plays the
sound; it hands the library plain values. The ROM itself is not included.
