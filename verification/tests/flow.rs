use sml::engine::level::Level;
use sml::engine::physics::{GRAVITY, JUMP_VELOCITY};
use sml::input::mapping::{buttons_from_held, default_button, Key};
use sml::input::{Button, Buttons};
use sml::rom::{crc32, md5, sha1, to_hex, RomHashes};
use sml::session::{Phase, Session};
use sml::tuning::{Tuning, DEFAULT_TIMER_START};

#[test]
fn arrows_map_to_the_dpad() {
    assert_eq!(default_button(Key::Left), Some(Button::Left));
    assert_eq!(default_button(Key::Up), Some(Button::Up));
}

#[test]
fn action_keys_map_to_ab_and_start_select() {
    assert_eq!(default_button(Key::Z), Some(Button::B));
    assert_eq!(default_button(Key::X), Some(Button::A));
    assert_eq!(default_button(Key::Enter), Some(Button::Start));
    assert_eq!(default_button(Key::Backspace), Some(Button::Select));
}

#[test]
fn held_keys_combine_into_one_snapshot() {
    let buttons = buttons_from_held([Key::Right, Key::X]);
    assert!(buttons.is_held(Button::Right));
    assert!(buttons.is_held(Button::A));
    assert!(!buttons.is_held(Button::B));
    assert!(!buttons.is_held(Button::Left));
}

#[test]
fn empty_input_holds_nothing() {
    let buttons = buttons_from_held([]);
    assert_eq!(buttons, Buttons::default());
}

#[test]
fn default_holds_nothing() {
    let b = Buttons::default();
    assert!(!b.is_held(Button::A));
    assert!(!b.is_held(Button::Start));
}

#[test]
fn set_toggles_one_button_only() {
    let mut b = Buttons::default();
    b.set(Button::Left, true);
    assert!(b.is_held(Button::Left));
    assert!(!b.is_held(Button::Right));
}

#[test]
fn crc32_known_vectors() {
    assert_eq!(crc32(b""), 0x0000_0000);
    assert_eq!(crc32(b"abc"), 0x3524_41c2);
    assert_eq!(crc32(b"The quick brown fox jumps over the lazy dog"), 0x414f_a339);
}

#[test]
fn md5_known_vectors() {
    assert_eq!(to_hex(&md5(b"")), "d41d8cd98f00b204e9800998ecf8427e");
    assert_eq!(to_hex(&md5(b"abc")), "900150983cd24fb0d6963f7d28e17f72");
    assert_eq!(to_hex(&md5(b"The quick brown fox jumps over the lazy dog")), "9e107d9d372bb6826bd81d3542a419d6");
}

#[test]
fn sha1_known_vectors() {
    assert_eq!(to_hex(&sha1(b"")), "da39a3ee5e6b4b0d3255bfef95601890afd80709");
    assert_eq!(to_hex(&sha1(b"abc")), "a9993e364706816aba3e25717850c26c9cd0d89d");
    assert_eq!(
        to_hex(&sha1(b"The quick brown fox jumps over the lazy dog")),
        "2fd4e1c67a2d28fced849ee1bb76e7391b93eb12"
    );
}

#[test]
fn multi_block_input_hashes_correctly() {
    let data = vec![0x61u8; 1000];
    assert_eq!(to_hex(&sha1(&data)), "291e9a6c66994949b57ba5e650361e98fc36b1ba");
    assert_eq!(to_hex(&md5(&data)), "cabe45dcc9ae5b66ba86600cca6b8ba8");
}

#[test]
fn mismatch_is_reported() {
    let h = RomHashes::of(b"not the rom");
    assert!(!h.is_expected());
}

#[test]
fn default_matches_the_pinned_constants() {
    let t = Tuning::default();
    assert_eq!(t.jump_velocity, JUMP_VELOCITY);
    assert_eq!(t.gravity, GRAVITY);
    assert_eq!(t.timer_start, DEFAULT_TIMER_START);
}

#[test]
fn from_text_overrides_only_the_given_keys() {
    let t = Tuning::from_text("# a higher jump\njump_velocity = 900\ntimer_start = 300\n").unwrap();
    assert_eq!(t.jump_velocity, 900);
    assert_eq!(t.timer_start, 300);
    assert_eq!(t.gravity, GRAVITY);
}

#[test]
fn from_text_ignores_comments_and_blanks() {
    let t = Tuning::from_text("\n  # just a comment\n\ngravity=50  # inline comment\n").unwrap();
    assert_eq!(t.gravity, 50);
}

#[test]
fn from_text_reports_unknown_keys() {
    let err = Tuning::from_text("wobble = 3").unwrap_err();
    assert!(err.contains("unknown key"), "{err}");
}

fn held(button: Button) -> Buttons {
    let mut b = Buttons::default();
    b.set(button, true);
    b
}

fn short_level() -> Level {
    Level::from_rows(&["M.E", "###"])
}

fn press_start(session: &mut Session) {
    session.step(held(Button::Start));
    session.step(Buttons::default());
}

#[test]
fn a_session_starts_on_the_title_and_start_begins_play() {
    let mut session = Session::new(vec![short_level()]);
    assert_eq!(session.phase, Phase::Title);
    press_start(&mut session);
    assert_eq!(session.phase, Phase::Playing);
}

#[test]
fn completing_the_last_level_wins() {
    let mut session = Session::new(vec![short_level(), short_level()]);
    press_start(&mut session);
    assert_eq!(session.current_level(), 0);
    for _ in 0..400 {
        session.step(held(Button::Right));
        if session.phase == Phase::Win {
            break;
        }
    }
    assert_eq!(session.phase, Phase::Win);
    assert_eq!(session.current_level(), 2);
}

#[test]
fn advancing_carries_score_and_lives_forward() {
    let mut session = Session::new(vec![short_level(), short_level()]);
    press_start(&mut session);
    session.game.score = 500;
    session.game.lives = 5;
    for _ in 0..400 {
        session.step(held(Button::Right));
        if session.current_level() == 1 {
            break;
        }
    }
    assert_eq!(session.current_level(), 1);
    assert_eq!(session.game.score, 500);
    assert_eq!(session.game.lives, 5);
}

#[test]
fn running_out_of_lives_reaches_game_over_then_start_returns_to_title() {
    let level = Level::from_rows(&["M.G", "###"]);
    let mut session = Session::new(vec![level]);
    press_start(&mut session);
    for _ in 0..3000 {
        session.step(held(Button::Right));
        if session.phase == Phase::GameOver {
            break;
        }
    }
    assert_eq!(session.phase, Phase::GameOver);
    press_start(&mut session);
    assert_eq!(session.phase, Phase::Title);
    assert_eq!(session.game.lives, 3, "a fresh run has full lives");
}

#[test]
fn completing_a_middle_level_advances_and_keeps_playing() {
    let mut session = Session::new(vec![short_level(), short_level()]);
    press_start(&mut session);
    for _ in 0..400 {
        session.step(held(Button::Right));
        if session.current_level() == 1 {
            break;
        }
    }
    assert_eq!(session.current_level(), 1);
    assert_eq!(session.phase, Phase::Playing);
}

#[test]
fn winning_then_start_returns_to_title() {
    let mut session = Session::new(vec![short_level()]);
    press_start(&mut session);
    for _ in 0..400 {
        session.step(held(Button::Right));
        if session.phase == Phase::Win {
            break;
        }
    }
    assert_eq!(session.phase, Phase::Win);
    press_start(&mut session);
    assert_eq!(session.phase, Phase::Title);
}

#[test]
fn a_tuning_line_without_equals_is_reported_with_its_number() {
    let err = Tuning::from_text("gravity = 50\n\njump_velocity 900\n").unwrap_err();
    assert_eq!(err, "line 3: expected key = value");
}

#[test]
fn a_tuning_value_that_is_no_number_is_reported() {
    let err = Tuning::from_text("gravity = fast").unwrap_err();
    assert_eq!(err, "line 1: bad number 'fast'");
    let err = Tuning::from_text("timer_start = -1").unwrap_err();
    assert_eq!(err, "line 1: bad number '-1'");
    let t = Tuning::from_text("walk_accel = -7").unwrap();
    assert_eq!(t.walk_accel, -7);
}

#[test]
fn an_unknown_tuning_key_is_named() {
    let err = Tuning::from_text("# header\nwobble = 3").unwrap_err();
    assert_eq!(err, "line 2: unknown key 'wobble'");
}

#[test]
fn an_empty_level_is_rejected() {
    assert_eq!(Level::from_text("\n\n").unwrap_err(), "level is empty");
}

#[test]
fn a_ragged_level_names_its_first_short_row() {
    assert_eq!(Level::from_text("M..\n###\n##\n").unwrap_err(), "row 2 is 2 wide but the level is 3 wide");
}

fn some_graphics() -> sml::engine::level::Graphics {
    let a = sml::tiles::Tile { pixels: [[1; 8]; 8] };
    let b = sml::tiles::Tile { pixels: [[2; 8]; 8] };
    sml::engine::level::Graphics { cells: vec![0, 1, 1, 0, 0, 1], tiles: vec![a, b], palette: 0x1B, animated: Some((1, b, a)) }
}

#[test]
fn a_session_starts_on_its_first_level_graphics_and_all() {
    let mut level = short_level();
    level.graphics = Some(some_graphics());
    let session = Session::new(vec![level]);
    assert_eq!(session.game.level.graphics, Some(some_graphics()));
    assert_eq!(session.game.level, session.levels[0]);
}
