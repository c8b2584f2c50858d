use sml::engine::entity::{pixels, Facing, Power};
use sml::engine::level::Level;
use sml::engine::powerup::Item;
use sml::game::Game;
use sml::input::{Button, Buttons};
use sml::sound::SoundEvent;


fn held(button: Button) -> Buttons {
    let mut b = Buttons::default();
    b.set(button, true);
    b
}

#[test]
fn mario_starts_at_the_level_spawn() {
    let game = Game::new(Game::demo_level());
    assert_eq!(
        (game.mario.pixel_x(), game.mario.pixel_y()),
        game.level.spawn
    );
}

#[test]
fn standing_still_mario_settles_on_the_ground() {
    let mut game = Game::new(Game::demo_level());
    for _ in 0..60 {
        game.step(Buttons::default());
    }
    assert!(game.mario.on_ground);
    assert_eq!(game.mario.vx, 0);
    // The camera cannot scroll past the left edge.
    assert_eq!(game.camera.x, 0);
}

#[test]
fn walking_right_moves_mario_and_eventually_scrolls() {
    // A wide, enemy-free lane so this isolates scrolling from any collision.
    let top = format!("M{}", ".".repeat(39));
    let empty = ".".repeat(40);
    let floor = "#".repeat(40);
    let level = Level::from_rows(&[&top, &empty, &empty, &floor]);
    let mut game = Game::new(level);

    let start_x = game.mario.pixel_x();
    for _ in 0..120 {
        game.step(held(Button::Right));
    }
    assert!(game.mario.pixel_x() > start_x, "Mario should have moved right");
    assert!(game.mario.on_ground, "should stay on the floor");
    // Far enough right that the camera has left the left edge.
    assert!(game.camera.x > 0, "camera should have scrolled");
}

#[test]
fn demo_level_has_a_goomba_that_moves() {
    let mut game = Game::new(Game::demo_level());
    assert_eq!(game.enemies.len(), 1);
    let start = game.enemies[0].x;
    for _ in 0..30 {
        game.step(Buttons::default());
    }
    assert!(game.enemies[0].x != start, "the goomba should have walked");
}

#[test]
fn falling_onto_a_goomba_stomps_it_and_bounces_mario() {
    // Mario above a Goomba, both over a floor.
    let level = Level::from_rows(&[".M..", "....", "....", ".G..", "####"]);
    let mut game = Game::new(level);
    game.enemies[0].vx = 0; // keep the goomba under Mario for a clean drop

    let mut bounced = false;
    for _ in 0..120 {
        game.step(Buttons::default());
        if game.enemies.is_empty() {
            // The goomba was stomped (dead enemies are despawned).
            bounced = game.mario.vy < 0;
            break;
        }
    }
    assert!(game.enemies.is_empty(), "the goomba should have been stomped");
    assert!(bounced, "Mario should bounce up off the stomp");
}

#[test]
fn walking_into_a_goomba_from_the_side_kills_and_respawns_mario() {
    // Mario and a Goomba on the same flat floor, a gap apart.
    let level = Level::from_rows(&["M...G", "#####"]);
    let mut game = Game::new(level);

    for _ in 0..200 {
        game.step(held(Button::Right));
        if game.deaths > 0 {
            break;
        }
    }
    assert!(game.deaths > 0, "side contact with the goomba should kill Mario");
    // After respawn Mario is alive again, back near the spawn.
    assert!(game.mario.alive);
    assert!(game.mario.pixel_x() <= 8, "should be back at the spawn");
}

#[test]
fn mario_collects_a_coin_he_touches() {
    // A coin sitting right where Mario spawns.
    let level = Level::from_rows(&["MC..", "####"]);
    let mut game = Game::new(level);
    assert_eq!(game.coins.len(), 1);
    // Walk right into the coin.
    for _ in 0..30 {
        game.step(held(Button::Right));
        if game.coins.is_empty() {
            break;
        }
    }
    assert!(game.coins.is_empty(), "the coin should be collected");
    assert_eq!(game.coins_collected, 1);
}

#[test]
fn bumping_a_question_block_gives_a_coin_and_spends_it() {
    // Mario a couple tiles under a question block, over a floor.
    let level = Level::from_rows(&[".?..", "....", ".M..", "####"]);
    let mut game = Game::new(level);
    assert_eq!(game.blocks.len(), 1);
    assert!(!game.blocks[0].used);

    for _ in 0..30 {
        game.step(held(Button::A)); // jump up into the block
        if game.blocks[0].used {
            break;
        }
    }
    assert!(game.blocks[0].used, "the question block should be spent");
    assert_eq!(game.coins_collected, 1, "it should give one coin");
}

#[test]
fn picking_up_a_mushroom_makes_mario_big() {
    

    let level = Level::from_rows(&["M...", "####"]);
    let mut game = Game::new(level);
    assert_eq!(game.mario.power, Power::Small);
    game.items.push(Item::mushroom(0, 0, false)); // right on top of Mario

    for _ in 0..30 {
        game.step(Buttons::default());
        if game.mario.power == Power::Big {
            break;
        }
    }
    assert_eq!(game.mario.power, Power::Big);
    assert!(game.items.is_empty(), "the mushroom is consumed");
}

#[test]
fn power_state_machine_grows_then_shrinks() {
    

    let level = Level::from_rows(&["M..G", "####"]);
    let mut game = Game::new(level);

    // Small -> Big by picking up a mushroom dropped on Mario.
    game.items
        .push(Item::mushroom(game.level.spawn.0, game.level.spawn.1, false));
    for _ in 0..10 {
        game.step(Buttons::default());
        if game.mario.power == Power::Big {
            break;
        }
    }
    assert_eq!(game.mario.power, Power::Big);

    // Big -> Small by walking into the goomba, without dying.
    for _ in 0..200 {
        game.step(held(Button::Right));
        if game.mario.power == Power::Small {
            break;
        }
    }
    assert_eq!(game.mario.power, Power::Small);
    assert!(game.mario.alive);
    assert_eq!(game.deaths, 0, "shrinking is not dying");
}

#[test]
fn a_star_makes_mario_invincible_and_plows_through_enemies() {
    

    // Mario, a goomba to his right, on a flat floor.
    let level = Level::from_rows(&["M...G", "#####"]);
    let mut game = Game::new(level);
    // Drop a star on Mario so he grabs it right away.
    game.items
        .push(Item::star(game.level.spawn.0, game.level.spawn.1, false));
    for _ in 0..5 {
        game.step(Buttons::default());
        if game.mario.invincible > 0 {
            break;
        }
    }
    assert!(game.mario.invincible > 0, "the star grants invincibility");

    // Walk into the goomba: it dies, Mario lives and does not shrink.
    for _ in 0..200 {
        game.step(held(Button::Right));
        if game.enemies.is_empty() {
            break;
        }
    }
    assert!(game.enemies.is_empty(), "the star defeats the enemy on contact");
    assert!(game.mario.alive);
    assert_eq!(game.deaths, 0);
}

#[test]
fn fire_mario_throws_a_superball_that_defeats_an_enemy() {
    

    // Fire Mario facing a goomba a few tiles to his right.
    let level = Level::from_rows(&["M....G", "######"]);
    let mut game = Game::new(level);
    game.mario.power = Power::Fire;
    game.mario.y -= pixels(8);
    game.mario.facing = Facing::Right;

    // Throw (press B once).
    game.step(held(Button::B));
    assert!(!game.superballs.is_empty(), "pressing B throws a superball");

    // Let the ball travel into the goomba.
    for _ in 0..120 {
        game.step(Buttons::default());
        if game.enemies.is_empty() {
            break;
        }
    }
    assert!(game.enemies.is_empty(), "the superball should defeat the enemy");
}

#[test]
fn a_superball_collects_a_coin_in_its_path() {
    

    let mut game = Game::new(Level::from_rows(&["M.C.", "####"]));
    game.mario.power = Power::Fire;
    game.mario.y -= pixels(8);

    game.step(held(Button::B)); // throw
    for _ in 0..40 {
        game.step(Buttons::default());
        if game.coins_collected > 0 {
            break;
        }
    }
    assert_eq!(game.coins_collected, 1, "the superball should collect the coin");
    assert!(game.coins.is_empty());
}

#[test]
fn a_flower_makes_mario_fire_powered() {
    

    let level = Level::from_rows(&["M...", "####"]);
    let mut game = Game::new(level);
    game.items
        .push(Item::flower(game.level.spawn.0, game.level.spawn.1, false));
    for _ in 0..10 {
        game.step(Buttons::default());
        if game.mario.power == Power::Fire {
            break;
        }
    }
    assert_eq!(game.mario.power, Power::Fire);
}

#[test]
fn a_hit_shrinks_fire_mario_back_to_small() {
    

    let level = Level::from_rows(&["M..G", "####"]);
    let mut game = Game::new(level);
    game.mario.power = Power::Fire;
    game.mario.y -= pixels(8); // stand properly as the taller sprite

    for _ in 0..200 {
        game.step(held(Button::Right));
        if game.mario.power == Power::Small {
            break;
        }
    }
    assert_eq!(game.mario.power, Power::Small);
    assert!(game.mario.alive);
    assert_eq!(game.deaths, 0);
}

#[test]
fn big_mario_shrinks_instead_of_dying_on_a_hit() {
    

    let level = Level::from_rows(&["M..G", "####"]);
    let mut game = Game::new(level);
    // Grow Mario the way a pickup does: bigger, and lifted so his feet stay
    // on the floor rather than embedded in it.
    game.mario.power = Power::Big;
    game.mario.y -= pixels(8);

    let mut shrank = false;
    for _ in 0..200 {
        game.step(held(Button::Right));
        if game.mario.power == Power::Small && game.mario.invuln > 0 {
            shrank = true;
            break;
        }
    }
    assert!(shrank, "big Mario should shrink, not die");
    assert!(game.mario.alive);
    assert_eq!(game.deaths, 0);
}

#[test]
fn losing_all_lives_ends_the_game() {
    // Mario walks straight into a goomba, dies, respawns, repeats.
    let level = Level::from_rows(&["M.G", "###"]);
    let mut game = Game::new(level);
    let starting_lives = game.lives;

    for _ in 0..2000 {
        game.step(held(Button::Right));
        if game.game_over {
            break;
        }
    }
    assert!(game.game_over, "running out of lives ends the game");
    assert_eq!(game.lives, 0);
    assert_eq!(game.deaths, starting_lives, "one death per life");

    // The scene is frozen once it is over.
    let before = game.mario.pixel_x();
    game.step(held(Button::Right));
    assert_eq!(game.mario.pixel_x(), before);
}

#[test]
fn reaching_the_end_completes_the_level_and_freezes() {
    let level = Level::from_rows(&["M..E", "####"]);
    let mut game = Game::new(level);
    assert!(!game.completed);

    for _ in 0..200 {
        game.step(held(Button::Right));
        if game.completed {
            break;
        }
    }
    assert!(game.completed, "walking into the end should complete the level");

    // The scene is frozen: further steps do nothing.
    let before = (game.mario.pixel_x(), game.timer);
    game.step(held(Button::Right));
    assert_eq!((game.mario.pixel_x(), game.timer), before);
}

#[test]
fn running_out_of_time_kills_and_respawns() {
    // A calm level with nothing to bump into.
    let level = Level::from_rows(&["M...", "####"]);
    let mut game = Game::new(level);
    game.timer = 1; // about to run out

    let mut died_to_time = false;
    for _ in 0..60 {
        game.step(Buttons::default());
        if game.deaths > 0 {
            died_to_time = true;
            break;
        }
    }
    assert!(died_to_time, "the clock hitting zero should kill Mario");
    assert!(game.mario.alive, "and then respawn him");
    assert_eq!(game.timer, 400, "the timer resets on respawn");
}

#[test]
fn tuning_changes_how_high_mario_jumps() {
    let level = || Level::from_rows(&["....", "....", "....", "M...", "####"]);

    // Default jump.
    let mut normal = Game::new(level());
    let mut normal_apex = normal.mario.pixel_y();
    for _ in 0..40 {
        normal.step(held(Button::A));
        normal_apex = normal_apex.min(normal.mario.pixel_y());
    }

    // A stronger jump via tuning should reach higher (a smaller y).
    let mut floaty = Game::new(level());
    floaty.tuning.jump_velocity = 1100;
    let mut floaty_apex = floaty.mario.pixel_y();
    for _ in 0..40 {
        floaty.step(held(Button::A));
        floaty_apex = floaty_apex.min(floaty.mario.pixel_y());
    }

    assert!(floaty_apex < normal_apex, "a bigger jump_velocity jumps higher");
}

#[test]
fn jumping_emits_a_jump_sound() {
    let (mut game, _) = resting_game();
    // Step until grounded, draining sounds, then jump.
    for _ in 0..60 {
        game.step(Buttons::default());
        let _ = game.drain_sounds();
    }
    game.step(held(Button::A));
    assert!(game.drain_sounds().contains(&SoundEvent::Jump));
}

#[test]
fn collecting_a_coin_emits_a_coin_sound() {
    
    let level = Level::from_rows(&["MC..", "####"]);
    let mut game = Game::new(level);
    let mut heard = false;
    for _ in 0..30 {
        game.step(held(Button::Right));
        if game.drain_sounds().contains(&SoundEvent::Coin) {
            heard = true;
            break;
        }
    }
    assert!(heard, "collecting a coin should emit a Coin sound");
}

#[test]
fn dying_emits_a_death_sound() {
    
    let level = Level::from_rows(&["M.G", "###"]);
    let mut game = Game::new(level);
    let mut heard = false;
    for _ in 0..300 {
        game.step(held(Button::Right));
        if game.drain_sounds().contains(&SoundEvent::Death) {
            heard = true;
            break;
        }
    }
    assert!(heard, "a fatal hit should emit a Death sound");
}

/// A flat level with Mario, settled onto the floor.
fn resting_game() -> (Game, ()) {
    let mut game = Game::new(Level::from_rows(&["M...", "####"]));
    for _ in 0..30 {
        game.step(Buttons::default());
    }
    (game, ())
}

#[test]
fn big_mario_breaks_a_brick_small_mario_does_not() {
    

    let rows = &[".B..", "....", "....", ".M..", "####"];

    // Small Mario: the brick survives.
    let mut small = Game::new(Level::from_rows(rows));
    for _ in 0..40 {
        small.step(held(Button::A));
    }
    assert_eq!(small.blocks.len(), 1, "small Mario does not break the brick");

    // Big Mario: the brick breaks and its tile stops being solid.
    let mut big = Game::new(Level::from_rows(rows));
    big.mario.power = Power::Big;
    big.mario.y -= pixels(8);
    for _ in 0..40 {
        big.step(held(Button::A));
        if big.blocks.is_empty() {
            break;
        }
    }
    assert!(big.blocks.is_empty(), "big Mario breaks the brick");
    assert!(!big.level.solids.is_solid(1, 0), "the broken tile is no longer solid");
}

#[test]
fn timer_counts_down_over_time() {
    let mut game = Game::new(Game::demo_level());
    let start = game.timer;
    for _ in 0..24 {
        game.step(Buttons::default());
    }
    assert_eq!(game.timer, start - 1);
}

#[test]
fn collecting_a_coin_adds_score() {
    let level = Level::from_rows(&["MC..", "####"]);
    let mut game = Game::new(level);
    for _ in 0..30 {
        game.step(held(Button::Right));
        if game.coins.is_empty() {
            break;
        }
    }
    assert_eq!(game.score, 100);
}

#[test]
fn one_hundred_coins_grants_a_life() {
    let mut game = Game::new(Game::demo_level());
    let lives_before = game.lives;
    for _ in 0..100 {
        game.gain_coin();
    }
    assert_eq!(game.lives, lives_before + 1);
    assert_eq!(game.coins_collected, 0, "counter wraps after 100");
}

#[test]
fn render_produces_all_shades_present_in_the_scene() {
    let game = Game::new(Game::demo_level());
    let fb = game.render();
    let grays: std::collections::HashSet<u8> = fb.to_gray().into_iter().collect();
    // The demo scene has empty (white), solid (dark), and Mario (black).
    assert!(grays.contains(&255));
    assert!(grays.len() >= 2);
}


#[test]
fn playing_frames_matches_stepping_them_one_by_one() {
    let mut played = Game::new(Game::demo_level());
    let mut stepped = Game::new(Game::demo_level());
    assert_eq!(played.play_frames(held(Button::Right), 90), 90);
    for _ in 0..90 {
        stepped.step(held(Button::Right));
    }
    assert_eq!(
        (played.mario.x, played.mario.y, played.mario.vx, played.mario.vy),
        (stepped.mario.x, stepped.mario.y, stepped.mario.vx, stepped.mario.vy)
    );
    assert_eq!((played.camera.x, played.camera.y), (stepped.camera.x, stepped.camera.y));
    assert_eq!((played.score, played.timer, played.lives), (stepped.score, stepped.timer, stepped.lives));
    assert_eq!(played.play_frames(Buttons::default(), 0), 0);
}

#[test]
fn playing_frames_stops_outside_the_limits() {
    let mut game = Game::new(Game::demo_level());
    game.mario.x = i32::MAX;
    assert_eq!(game.play_frames(Buttons::default(), 5), 0);
    assert_eq!(game.mario.x, i32::MAX);
}
