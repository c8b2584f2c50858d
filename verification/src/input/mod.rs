//! Input: the Game Boy's eight buttons.
//!
//! A frontend maps physical keys onto these buttons and hands a [`Buttons`]
//! snapshot to the core each frame. The core only ever sees this snapshot, so
//! gameplay does not care where the input came from, and tests can drive the
//! game with scripted input.
pub mod mapping;

use vstd::prelude::*;

verus! {

/// The eight Game Boy buttons.
#[derive(Debug, Clone, Copy, PartialEq, Eq, Structural)]
pub enum Button {
    Up,
    Down,
    Left,
    Right,
    A,
    B,
    Start,
    Select,
}

/// Which buttons are held this frame.
#[derive(Debug, Clone, Copy, PartialEq, Eq, Structural)]
pub struct Buttons {
    up: bool,
    down: bool,
    left: bool,
    right: bool,
    a: bool,
    b: bool,
    start: bool,
    select: bool,
}

impl Buttons {
    /// Whether `button` is held in this snapshot.
    pub closed spec fn held(self, button: Button) -> bool {
        match button {
            Button::Up => self.up,
            Button::Down => self.down,
            Button::Left => self.left,
            Button::Right => self.right,
            Button::A => self.a,
            Button::B => self.b,
            Button::Start => self.start,
            Button::Select => self.select,
        }
    }

    /// The snapshot with nothing held.
    pub closed spec fn none() -> Buttons {
        Buttons {
            up: false,
            down: false,
            left: false,
            right: false,
            a: false,
            b: false,
            start: false,
            select: false,
        }
    }

    pub fn is_held(&self, button: Button) -> (r: bool)
        ensures
            r == self.held(button),
    {
        match button {
            Button::Up => self.up,
            Button::Down => self.down,
            Button::Left => self.left,
            Button::Right => self.right,
            Button::A => self.a,
            Button::B => self.b,
            Button::Start => self.start,
            Button::Select => self.select,
        }
    }

    /// Hold or release one button, leaving the other seven as they were.
    pub fn set(&mut self, button: Button, held: bool)
        ensures
            final(self).held(button) == held,
            forall|other: Button| other != button ==> final(self).held(other) == old(self).held(other),
    {
        match button {
            Button::Up => self.up = held,
            Button::Down => self.down = held,
            Button::Left => self.left = held,
            Button::Right => self.right = held,
            Button::A => self.a = held,
            Button::B => self.b = held,
            Button::Start => self.start = held,
            Button::Select => self.select = held,
        }
    }
}

impl Default for Buttons {
    fn default() -> (r: Self)
        ensures
            r == Buttons::none(),
            forall|button: Button| !r.held(button),
    {
        Buttons {
            up: false,
            down: false,
            left: false,
            right: false,
            a: false,
            b: false,
            start: false,
            select: false,
        }
    }
}

/// Two snapshots are the same exactly when they agree on every button.
pub proof fn lemma_buttons_extensional(a: Buttons, b: Buttons)
    requires
        forall|button: Button| a.held(button) == b.held(button),
    ensures
        a == b,
{
    assert(a.held(Button::Up) == b.held(Button::Up));
    assert(a.held(Button::Down) == b.held(Button::Down));
    assert(a.held(Button::Left) == b.held(Button::Left));
    assert(a.held(Button::Right) == b.held(Button::Right));
    assert(a.held(Button::A) == b.held(Button::A));
    assert(a.held(Button::B) == b.held(Button::B));
    assert(a.held(Button::Start) == b.held(Button::Start));
    assert(a.held(Button::Select) == b.held(Button::Select));
}

} // verus!
