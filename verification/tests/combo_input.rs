use breakout_core::combo::{InputState, Key, KeyCombo, Keypress, WaitForKey};
use breakout_core::state::{state_after_input, state_label, GameState};

fn idle() -> InputState {
    InputState { pressed: vec![], just_pressed: vec![], just_released: vec![] }
}

fn press(k: Key) -> InputState {
    InputState { pressed: vec![k], just_pressed: vec![k], just_released: vec![] }
}

fn release(k: Key) -> InputState {
    InputState { pressed: vec![], just_pressed: vec![], just_released: vec![k] }
}

fn double_tap_left() -> KeyCombo {
    KeyCombo::new(
        vec![Keypress::new(Key::Left), Keypress::new(Key::Left)],
        500,
        250,
        false,
    )
}

#[test]
fn double_tap_within_bounds_reports_done() {
    let mut combo = double_tap_left();
    assert!(!combo.done(&press(Key::Left), 16));
    assert!(!combo.done(&release(Key::Left), 100));
    assert!(!combo.done(&press(Key::Left), 100));
    assert!(combo.done(&release(Key::Left), 100));
    // A completed combo starts over.
    assert_eq!(combo.index, 0);
    assert!(matches!(combo.waiting_for, WaitForKey::Press));
}

#[test]
fn held_too_long_resets_to_start() {
    let mut combo = double_tap_left();
    assert!(!combo.done(&press(Key::Left), 16));
    // The key stays held past the release bound of 250 ms.
    assert!(!combo.done(&idle(), 150));
    assert!(!combo.done(&idle(), 150));
    assert_eq!(combo.index, 0);
    assert!(matches!(combo.waiting_for, WaitForKey::Press));
    assert_eq!(combo.wait_for_press_timer, 0);
    assert_eq!(combo.wait_for_release_timer, 0);
}

#[test]
fn waiting_too_long_for_second_press_resets() {
    let mut combo = double_tap_left();
    assert!(!combo.done(&press(Key::Left), 16));
    assert!(!combo.done(&release(Key::Left), 100));
    assert_eq!(combo.index, 1);
    // More than 500 ms pass before the second press.
    assert!(!combo.done(&idle(), 300));
    assert!(!combo.done(&idle(), 300));
    assert_eq!(combo.index, 0);
    // A press after the reset starts the sequence from the beginning, so
    // completing still takes a full second tap.
    assert!(!combo.done(&press(Key::Left), 16));
    assert!(!combo.done(&release(Key::Left), 16));
    assert!(!combo.done(&press(Key::Left), 16));
    assert!(combo.done(&release(Key::Left), 16));
}

#[test]
fn release_without_press_does_not_advance() {
    let mut combo = double_tap_left();
    assert!(!combo.done(&release(Key::Left), 16));
    assert_eq!(combo.index, 0);
    assert!(matches!(combo.waiting_for, WaitForKey::Press));
}

#[test]
fn wrong_key_does_not_advance() {
    let mut combo = double_tap_left();
    assert!(!combo.done(&press(Key::Right), 16));
    assert!(matches!(combo.waiting_for, WaitForKey::Press));
    assert_eq!(combo.index, 0);
}

#[test]
fn press_triggered_combo_fires_on_final_press() {
    let mut combo = KeyCombo::new(
        vec![Keypress::new(Key::Left), Keypress::new(Key::Left)],
        500,
        250,
        true,
    );
    assert!(!combo.done(&press(Key::Left), 16));
    // A press-triggered combo completes once its index reaches the last
    // entry, which happens on the release that moves it there: the final
    // key's own release is never awaited.
    assert!(combo.done(&release(Key::Left), 100));
}

#[test]
fn external_reset_abandons_progress() {
    let mut combo = double_tap_left();
    assert!(!combo.done(&press(Key::Left), 16));
    assert!(!combo.done(&release(Key::Left), 16));
    assert_eq!(combo.index, 1);
    combo.reset();
    assert_eq!(combo.index, 0);
    assert!(matches!(combo.waiting_for, WaitForKey::Press));
}

#[test]
fn modifier_must_be_held_for_press_to_count() {
    let mut kp = Keypress::new(Key::Left);
    kp.with_modifier(Key::LControl);
    let bare = press(Key::Left);
    assert!(!kp.just_pressed(&bare));
    let with_mod = InputState {
        pressed: vec![Key::Left, Key::LControl],
        just_pressed: vec![Key::Left],
        just_released: vec![],
    };
    assert!(kp.just_pressed(&with_mod));
}

#[test]
fn primary_key_walks_the_state_machine() {
    assert_eq!(state_after_input(GameState::Starting, true, false), GameState::Playing);
    assert_eq!(state_after_input(GameState::Playing, true, false), GameState::Paused);
    assert_eq!(state_after_input(GameState::Paused, true, false), GameState::Playing);
    assert_eq!(state_after_input(GameState::Win, true, false), GameState::Restarting);
    assert_eq!(state_after_input(GameState::Lose, true, false), GameState::Restarting);
    assert_eq!(state_after_input(GameState::Restarting, true, false), GameState::Restarting);
}

#[test]
fn restart_key_restarts_from_any_state() {
    assert_eq!(state_after_input(GameState::Playing, false, true), GameState::Restarting);
    assert_eq!(state_after_input(GameState::Paused, false, true), GameState::Restarting);
    assert_eq!(state_after_input(GameState::Starting, false, true), GameState::Restarting);
}

#[test]
fn no_edges_no_transition() {
    assert_eq!(state_after_input(GameState::Playing, false, false), GameState::Playing);
    assert_eq!(state_after_input(GameState::Paused, false, false), GameState::Paused);
}

#[test]
fn state_labels_match_screen_text() {
    assert_eq!(state_label(GameState::Starting), "Press Space to start");
    assert_eq!(state_label(GameState::Playing), "");
    assert_eq!(state_label(GameState::Paused), "PAUSED");
    assert_eq!(state_label(GameState::Win), "YOU WIN! :D");
    assert_eq!(state_label(GameState::Lose), "YOU LOSE :(");
    assert_eq!(state_label(GameState::Restarting), "");
}
