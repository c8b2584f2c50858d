use sml::engine::GameState;
use sml::input::Buttons;

#[test]
fn mod_stepping_is_deterministic() {
    let mut a = GameState::new();
    let mut b = GameState::new();
    for _ in 0..10 {
        a.step(Buttons::default());
        b.step(Buttons::default());
    }
    assert_eq!(a.frame, b.frame);
    assert_eq!(a.frame, 10);
}
