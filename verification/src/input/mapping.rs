//! Mapping keyboard keys to Game Boy buttons.
//!
//! This stays independent of any windowing library. A frontend translates its
//! own key codes into our [`Key`] enum, and we decide which [`Button`] each key
//! drives.
use super::{Button, Buttons};
use vstd::prelude::*;

verus! {

/// The physical keys we bind. A frontend maps its library's key codes to these.
#[derive(Debug, Clone, Copy, PartialEq, Eq, Structural)]
pub enum Key {
    Up,
    Down,
    Left,
    Right,
    Z,
    X,
    Enter,
    Backspace,
}

/// The default binding as a mathematical map: arrows for the d-pad, Z for B,
/// X for A, Enter for Start, Backspace for Select.
pub open spec fn binding(key: Key) -> Button {
    match key {
        Key::Up => Button::Up,
        Key::Down => Button::Down,
        Key::Left => Button::Left,
        Key::Right => Button::Right,
        Key::Z => Button::B,
        Key::X => Button::A,
        Key::Enter => Button::Start,
        Key::Backspace => Button::Select,
    }
}

/// The default binding, matching common Game Boy emulator controls.
pub fn default_button(key: Key) -> (r: Option<Button>)
    ensures
        r == Some(binding(key)),
{
    Some(
        match key {
            Key::Up => Button::Up,
            Key::Down => Button::Down,
            Key::Left => Button::Left,
            Key::Right => Button::Right,
            Key::Z => Button::B,
            Key::X => Button::A,
            Key::Enter => Button::Start,
            Key::Backspace => Button::Select,
        },
    )
}

/// Build a button snapshot from the keys currently held, using the default
/// binding. A button is held exactly when some held key is bound to it.
pub fn buttons_from_held<const N: usize>(held: [Key; N]) -> (r: Buttons)
    ensures
        forall|button: Button|
            r.held(button) == exists|i: int| 0 <= i < N && binding(#[trigger] held[i]) == button,
{
    let mut buttons = Buttons::default();
    let mut i: usize = 0;
    while i < N
        invariant
            0 <= i <= N,
            forall|button: Button|
                buttons.held(button) == exists|j: int| 0 <= j < i && binding(#[trigger] held[j]) == button,
        decreases N - i,
    {
        let key = held[i];
        let ghost before = buttons;
        if let Some(button) = default_button(key) {
            buttons.set(button, true);
        }
        assert forall|button: Button|
            buttons.held(button) == exists|j: int| 0 <= j < i + 1 && binding(#[trigger] held[j]) == button by {
            if binding(held[i as int]) == button {
                assert(0 <= i < i + 1 && binding(held[i as int]) == button);
            } else {
                if exists|j: int| 0 <= j < i + 1 && binding(#[trigger] held[j]) == button {
                    let j = choose|j: int| 0 <= j < i + 1 && binding(#[trigger] held[j]) == button;
                    assert(j != i);
                }
            }
        }
        i = i + 1;
    }
    buttons
}

} // verus!
