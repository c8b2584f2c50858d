//! Sound as events, not audio.
//!
//! The game does not make noise directly. It emits [`SoundEvent`]s as things
//! happen, and a frontend decides what those sound like (a beep, a sample, or
//! nothing). Keeping sound as data means the game stays headless and every
//! "this should make a sound" moment is testable without an audio device.
use vstd::prelude::*;

verus! {

#[derive(Debug, Clone, Copy, PartialEq, Eq, Structural)]
pub enum SoundEvent {
    Jump,
    Coin,
    BlockBump,
    Stomp,
    PowerUp,
    Shrink,
    OneUp,
    Death,
    LevelComplete,
    GameOver,
}

} // verus!
