//! Session flow: playing a sequence of levels end to end.
//!
//! A single [`crate::game::Game`] is one level. A [`Session`] strings levels
//! together: advance to the next when one is completed, carry the running totals
//! forward, win after the last, and end the run when the lives are gone.
use crate::engine::level::Level;
use crate::game::{playable, Game};
use crate::input::{Button, Buttons};
use crate::render::Framebuffer;
use crate::sound::SoundEvent;
use vstd::prelude::*;

verus! {

#[derive(Debug, Clone, Copy, PartialEq, Eq, Structural)]
pub enum Phase {
    Title,
    Playing,
    GameOver,
    Win,
}

/// A run through a list of levels. Every field is public so that contracts
/// can speak of the whole state.
pub struct Session {
    pub levels: Vec<Level>,
    pub current: usize,
    pub game: Game,
    pub phase: Phase,
    /// Tracks the Start button so a held press does not skip through screens.
    pub start_latched: bool,
}

/// Every level of the list can be played.
pub open spec fn all_playable(levels: Seq<Level>) -> bool {
    forall|i: int| 0 <= i < levels.len() ==> playable(#[trigger] levels[i])
}

/// Copying a level keeps it playable.
proof fn lemma_same_playable(a: Level, b: Level)
    requires
        playable(b),
        a.same_as(b),
    ensures
        playable(a),
{
}

impl Session {
    /// The level list is usable and the game belongs to it.
    pub open spec fn wf(&self) -> bool {
        &&& self.levels@.len() > 0
        &&& all_playable(self.levels@)
        &&& self.current <= self.levels@.len()
        &&& self.game.settled()
        &&& (self.phase == Phase::Playing ==> self.current < self.levels@.len())
    }

    /// A fresh game on level `i` of the list.
    fn fresh_game(&self, i: usize) -> (g: Game)
        requires
            i < self.levels@.len(),
            all_playable(self.levels@),
        ensures
            g.fresh_from(self.levels@[i as int]),
    {
        let level = self.levels[i].duplicate();
        proof {
            lemma_same_playable(level, self.levels@[i as int]);
        }
        Game::new(level)
    }

    /// Start a session at the title screen. There must be at least one level.
    pub fn new(levels: Vec<Level>) -> (r: Self)
        requires
            levels@.len() > 0,
            all_playable(levels@),
        ensures
            r.wf(),
            r.levels@ == levels@,
            r.current == 0,
            r.phase == Phase::Title,
            !r.start_latched,
            r.game.fresh_from(levels@[0]),
    {
        let first = levels[0].duplicate();
        proof {
            lemma_same_playable(first, levels@[0]);
        }
        let game = Game::new(first);
        Session { levels, current: 0, game, phase: Phase::Title, start_latched: false }
    }

    /// A session over the built-in demo level, for the window frontend.
    pub fn demo() -> (r: Self)
        ensures
            r.wf(),
            r.levels@.len() == 1,
            r.levels@[0].parsed_from(crate::game::demo_grid()),
            r.current == 0,
            r.phase == Phase::Title,
            !r.start_latched,
            r.game.fresh_from(r.levels@[0]),
    {
        let mut levels: Vec<Level> = Vec::new();
        levels.push(Game::demo_level());
        Self::new(levels)
    }

    /// Which level index is being played (0-based).
    pub fn current_level(&self) -> (r: usize)
        ensures
            r == self.current,
    {
        self.current
    }

    /// Advance one frame. Start moves off the title and the end screens; while
    /// playing, the level steps and reacts to completing or running out of
    /// lives.
    #[verifier::rlimit(40)]
    pub fn step(&mut self, buttons: Buttons)
        requires
            old(self).wf(),
            old(self).phase == Phase::Playing ==> old(self).game.fits(),
        ensures
            final(self).wf(),
            final(self).levels == old(self).levels,
            final(self).start_latched == buttons.held(Button::Start),
            ({
                let pressed = buttons.held(Button::Start) && !old(self).start_latched;
                match old(self).phase {
                    Phase::Title => if pressed {
                        &&& final(self).phase == Phase::Playing
                        &&& final(self).current == 0
                        &&& final(self).game.fresh_from(old(self).levels@[0])
                    } else {
                        &&& final(self).phase == Phase::Title
                        &&& final(self).current == old(self).current
                        &&& final(self).game == old(self).game
                    },
                    Phase::GameOver | Phase::Win => if pressed {
                        &&& final(self).phase == Phase::Title
                        &&& final(self).current == 0
                        &&& final(self).game.fresh_from(old(self).levels@[0])
                    } else {
                        &&& final(self).phase == old(self).phase
                        &&& final(self).current == old(self).current
                        &&& final(self).game == old(self).game
                    },
                    Phase::Playing => exists|g: Game| {
                        &&& #[trigger] old(self).game.steps_to(buttons, g)
                        &&& if g.completed {
                            if old(self).current + 1 >= old(self).levels@.len() {
                                &&& final(self).phase == Phase::Win
                                &&& final(self).current == old(self).current + 1
                                &&& final(self).game == g
                            } else {
                                &&& final(self).phase == Phase::Playing
                                &&& final(self).current == old(self).current + 1
                                &&& final(self).game@ == (crate::game::world::World {
                                    lives: g.lives,
                                    score: g.score,
                                    coins_collected: g.coins_collected,
                                    ..crate::game::world::started(
                                        old(self).levels@[old(self).current + 1].spawn,
                                        old(self).levels@[old(self).current + 1].enemy_spawns@,
                                        old(self).levels@[old(self).current + 1].blocks@,
                                        old(self).levels@[old(self).current + 1].items@,
                                        old(self).levels@[old(self).current + 1].coins@,
                                        400,
                                    )
                                })
                                &&& final(self).game.level.same_as(old(self).levels@[old(self).current + 1])
                                &&& final(self).game.tuning == crate::tuning::Tuning::pinned()
                                &&& final(self).game.drawn_as_built()
                            }
                        } else if g.game_over {
                            &&& final(self).phase == Phase::GameOver
                            &&& final(self).current == old(self).current
                            &&& final(self).game == g
                        } else {
                            &&& final(self).phase == Phase::Playing
                            &&& final(self).current == old(self).current
                            &&& final(self).game == g
                        }
                    },
                }
            }),
    {
        let start = buttons.is_held(Button::Start);
        let start_pressed = start && !self.start_latched;
        self.start_latched = start;
        match self.phase {
            Phase::Title => {
                if start_pressed {
                    self.begin();
                }
            },
            Phase::Playing => {
                self.game.step(buttons);
                let ghost g = self.game;
                if self.game.completed {
                    self.advance();
                } else if self.game.game_over {
                    self.phase = Phase::GameOver;
                }
                assert(old(self).game.steps_to(buttons, g));
            },
            Phase::GameOver | Phase::Win => {
                if start_pressed {
                    self.return_to_title();
                }
            },
        }
    }

    /// Begin a fresh run from the first level.
    fn begin(&mut self)
        requires
            old(self).levels@.len() > 0,
            all_playable(old(self).levels@),
        ensures
            final(self).levels == old(self).levels,
            final(self).start_latched == old(self).start_latched,
            final(self).current == 0,
            final(self).phase == Phase::Playing,
            final(self).game.fresh_from(old(self).levels@[0]),
    {
        self.current = 0;
        self.game = self.fresh_game(0);
        self.phase = Phase::Playing;
    }

    /// Return to the title screen with a fresh first level behind it.
    fn return_to_title(&mut self)
        requires
            old(self).levels@.len() > 0,
            all_playable(old(self).levels@),
        ensures
            final(self).levels == old(self).levels,
            final(self).start_latched == old(self).start_latched,
            final(self).current == 0,
            final(self).phase == Phase::Title,
            final(self).game.fresh_from(old(self).levels@[0]),
    {
        self.current = 0;
        self.game = self.fresh_game(0);
        self.phase = Phase::Title;
    }

    /// Move on from a completed level: win after the last one, otherwise
    /// start the next with the running totals carried over.
    fn advance(&mut self)
        requires
            old(self).levels@.len() > 0,
            all_playable(old(self).levels@),
            old(self).current < old(self).levels@.len(),
            old(self).game.settled(),
        ensures
            final(self).levels == old(self).levels,
            final(self).start_latched == old(self).start_latched,
            final(self).current == old(self).current + 1,
            final(self).game.settled(),
            old(self).current + 1 >= old(self).levels@.len() ==> {
                &&& final(self).phase == Phase::Win
                &&& final(self).game == old(self).game
            },
            old(self).current + 1 < old(self).levels@.len() ==> {
                &&& final(self).phase == Phase::Playing
                &&& final(self).game@ == (crate::game::world::World {
                    lives: old(self).game.lives,
                    score: old(self).game.score,
                    coins_collected: old(self).game.coins_collected,
                    ..crate::game::world::started(
                        old(self).levels@[old(self).current + 1].spawn,
                        old(self).levels@[old(self).current + 1].enemy_spawns@,
                        old(self).levels@[old(self).current + 1].blocks@,
                        old(self).levels@[old(self).current + 1].items@,
                        old(self).levels@[old(self).current + 1].coins@,
                        400,
                    )
                })
                &&& final(self).game.level.same_as(old(self).levels@[old(self).current + 1])
                &&& final(self).game.tuning == crate::tuning::Tuning::pinned()
                &&& final(self).game.drawn_as_built()
            },
    {
        let n = self.levels.len();
        self.current = self.current + 1;
        if self.current >= n {
            self.phase = Phase::Win;
            return;
        }
        let (lives, score, coins) = (self.game.lives, self.game.score, self.game.coins_collected);
        let mut next = self.fresh_game(self.current);
        next.lives = lives;
        next.score = score;
        next.coins_collected = coins;
        self.game = next;
        self.phase = Phase::Playing;
        proof {
            assert(self.game@ =~= (crate::game::world::World {
                lives: old(self).game.lives,
                score: old(self).game.score,
                coins_collected: old(self).game.coins_collected,
                ..crate::game::world::started(
                    old(self).levels@[old(self).current + 1].spawn,
                    old(self).levels@[old(self).current + 1].enemy_spawns@,
                    old(self).levels@[old(self).current + 1].blocks@,
                    old(self).levels@[old(self).current + 1].items@,
                    old(self).levels@[old(self).current + 1].coins@,
                    400,
                )
            }));
        }
    }

    /// The current frame.
    pub fn render(&self) -> (fb: Framebuffer)
        requires
            self.game.drawable(),
        ensures
            fb.wf(),
            forall|x: int, y: int| crate::render::on_screen(x, y) ==> #[trigger] fb.at(x, y) == self.game.picture(x, y),
    {
        self.game.render()
    }

    /// Sound events from the most recent step, for a frontend to play.
    pub fn drain_sounds(&mut self) -> (r: Vec<SoundEvent>)
        ensures
            r@ == old(self).game@.sounds,
            final(self).game@ == (crate::game::world::World { sounds: seq![], ..old(self).game@ }),
            final(self).game.kept(&old(self).game),
            final(self).levels == old(self).levels,
            final(self).current == old(self).current,
            final(self).phase == old(self).phase,
            final(self).start_latched == old(self).start_latched,
    {
        self.game.drain_sounds()
    }
}

} // verus!
