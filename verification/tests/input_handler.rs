use gpupe::utility::direction::{pan_direction, pan_directions, Direction, KEY_A, KEY_D, KEY_S, KEY_W};
use gpupe::utility::input_handler::InputHandler;

const KEY_Q: i32 = 113;

fn held(input: &InputHandler) -> Vec<i32> {
    input.active_keys().clone()
}

#[test]
fn default_holds_no_key() {
    let input = InputHandler::default();
    assert!(held(&input).is_empty());
    assert!(!input.is_active(KEY_W));
}

#[test]
fn key_down_appends() {
    let mut input = InputHandler::default();
    input.on_key_down(KEY_W);
    input.on_key_down(KEY_A);
    assert_eq!(held(&input), vec![KEY_W, KEY_A]);
    assert!(input.is_active(KEY_A));
    assert_eq!(input.position(KEY_A), Some(1));
}

#[test]
fn key_up_swap_removes_first_occurrence() {
    let mut input = InputHandler::default();
    for k in [KEY_W, KEY_A, KEY_W, KEY_S, KEY_D] {
        input.on_key_down(k);
    }
    input.on_key_up(KEY_W);
    // the first W (index 0) is replaced by the last key, D
    assert_eq!(held(&input), vec![KEY_D, KEY_A, KEY_W, KEY_S]);
    input.on_key_up(KEY_W);
    assert_eq!(held(&input), vec![KEY_D, KEY_A, KEY_S]);
    assert!(!input.is_active(KEY_W));
}

#[test]
fn key_up_of_last_key_pops_it() {
    let mut input = InputHandler::default();
    input.on_key_down(KEY_A);
    input.on_key_down(KEY_S);
    input.on_key_up(KEY_S);
    assert_eq!(held(&input), vec![KEY_A]);
}

#[test]
fn key_up_of_key_not_held_changes_nothing() {
    let mut input = InputHandler::default();
    input.on_key_down(KEY_A);
    input.on_key_up(KEY_Q);
    assert_eq!(held(&input), vec![KEY_A]);
    assert_eq!(input.position(KEY_Q), None);
    let mut empty = InputHandler::default();
    empty.on_key_up(KEY_Q);
    assert!(held(&empty).is_empty());
}

#[test]
fn key_up_undoes_key_down() {
    for k in [KEY_W, KEY_A, KEY_Q] {
        let mut input = InputHandler::default();
        for j in [KEY_A, KEY_W, KEY_S, KEY_W] {
            input.on_key_down(j);
        }
        let before = held(&input);
        input.on_key_down(k);
        input.on_key_up(k);
        assert_eq!(held(&input), before);
    }
}

#[test]
fn key_up_releases_one_occurrence() {
    let mut input = InputHandler::default();
    for j in [KEY_S, KEY_W, KEY_S, KEY_A] {
        input.on_key_down(j);
    }
    input.on_key_up(KEY_S);
    let keys = held(&input);
    assert_eq!(keys.len(), 3);
    assert_eq!(keys.iter().filter(|&&k| k == KEY_S).count(), 1);
    assert_eq!(keys.iter().filter(|&&k| k == KEY_W).count(), 1);
    assert_eq!(keys.iter().filter(|&&k| k == KEY_A).count(), 1);
}

#[test]
fn distinct_keys_released_are_no_longer_held() {
    let mut input = InputHandler::default();
    for j in [KEY_W, KEY_A, KEY_S, KEY_D] {
        input.on_key_down(j);
    }
    input.on_key_up(KEY_A);
    assert!(!input.is_active(KEY_A));
    assert_eq!(held(&input), vec![KEY_W, KEY_D, KEY_S]);
}

#[test]
fn pan_keys_map_to_directions() {
    assert_eq!(KEY_W, 119);
    assert_eq!(KEY_A, 97);
    assert_eq!(KEY_S, 115);
    assert_eq!(KEY_D, 100);
    assert_eq!(pan_direction(KEY_W), Some(Direction::Up));
    assert_eq!(pan_direction(KEY_A), Some(Direction::Left));
    assert_eq!(pan_direction(KEY_S), Some(Direction::Down));
    assert_eq!(pan_direction(KEY_D), Some(Direction::Right));
    assert_eq!(pan_direction(KEY_Q), None);
}

#[test]
fn held_keys_pan_in_order() {
    let mut input = InputHandler::default();
    for j in [KEY_D, KEY_Q, KEY_W, KEY_D] {
        input.on_key_down(j);
    }
    assert_eq!(
        pan_directions(&input),
        vec![Direction::Right, Direction::Up, Direction::Right]
    );
    assert!(pan_directions(&InputHandler::default()).is_empty());
}
