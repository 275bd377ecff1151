use untitled_th::input::get_direction;

#[test]
fn test_direction() {
    assert_eq!(get_direction(0, 0, 0, 5), (1, 0));
    assert_eq!(get_direction(3, 3, 10, 5), (1, 0));
    assert_eq!(get_direction(3, 3, 4, 4), (0, 0));
    assert_eq!(get_direction(7, 3, 4, 4), (0, -1));
    assert_eq!(get_direction(1, 3, 4, 4), (0, 1));
    assert_eq!(get_direction(1, 3, 4, 4), (0, 1));
    assert_eq!(get_direction(1, 3, 4, 5), (-1, 1));
    assert_eq!(get_direction(4, 3, 4, 5), (-1, -1));
    assert_eq!(get_direction(4, 3, 6, 5), (1, -1));
    //zero region
    assert_eq!(get_direction(0, 0, 0, 0), (0, 0));
    assert_eq!(get_direction(1, 0, 0, 0), (0, 1));
    assert_eq!(get_direction(0, 1, 0, 0), (0, -1));
    assert_eq!(get_direction(0, 0, 1, 0), (-1, 0));
    assert_eq!(get_direction(0, 0, 0, 1), (1, 0));
    //end zero region
}

use std::collections::HashSet;
use untitled_th::input::{can_sample, inc_or_zero, tick_mut, BakedInputs, GameInputData, RawInputData};
use untitled_th::keys;
use winit::event::VirtualKeyCode;

fn set(keys: &[u32]) -> HashSet<u32> {
    keys.iter().copied().collect()
}

fn raw(keys: &[u32]) -> RawInputData {
    RawInputData { x: 0, y: 0, pressing: set(keys) }
}

#[test]
fn the_key_codes_are_those_of_the_window_system() {
    assert_eq!(keys::Z, VirtualKeyCode::Z as u32);
    assert_eq!(keys::X, VirtualKeyCode::X as u32);
    assert_eq!(keys::C, VirtualKeyCode::C as u32);
    assert_eq!(keys::LSHIFT, VirtualKeyCode::LShift as u32);
    assert_eq!(keys::UP, VirtualKeyCode::Up as u32);
    assert_eq!(keys::DOWN, VirtualKeyCode::Down as u32);
    assert_eq!(keys::LEFT, VirtualKeyCode::Left as u32);
    assert_eq!(keys::RIGHT, VirtualKeyCode::Right as u32);
    assert_eq!(keys::RETURN, VirtualKeyCode::Return as u32);
    assert_eq!(keys::NUMPAD_ENTER, VirtualKeyCode::NumpadEnter as u32);
    assert_eq!(keys::ESCAPE, VirtualKeyCode::Escape as u32);
    assert_eq!(keys::F3, VirtualKeyCode::F3 as u32);
    assert_eq!(keys::F11, VirtualKeyCode::F11 as u32);
}

#[test]
fn a_counter_goes_up_while_held_and_back_to_zero() {
    let mut g = GameInputData::default();
    assert_eq!(g, GameInputData { direction: (0, 0), ..g });
    let held = raw(&[keys::Z, keys::LEFT]);
    tick_mut(&mut g, &held);
    assert_eq!((g.shoot, g.left, g.slow, g.right), (1, 1, 0, 0));
    assert_eq!(g.direction, (-1, 0));
    tick_mut(&mut g, &held);
    tick_mut(&mut g, &held);
    assert_eq!((g.shoot, g.left), (3, 3));
    tick_mut(&mut g, &raw(&[keys::LEFT, keys::RIGHT]));
    assert_eq!((g.shoot, g.left, g.right), (0, 4, 1));
    assert_eq!(g.direction, (1, 0));
    g.shoot = 1000;
    tick_mut(&mut g, &raw(&[]));
    assert_eq!(g, GameInputData::default());
}

#[test]
fn every_action_has_its_key() {
    let all = raw(&[
        keys::Z,
        keys::LSHIFT,
        keys::X,
        keys::C,
        keys::UP,
        keys::DOWN,
        keys::LEFT,
        keys::RIGHT,
        keys::RETURN,
        keys::ESCAPE,
    ]);
    let g = GameInputData::from(&all);
    assert_eq!(
        g,
        GameInputData {
            shoot: 1,
            slow: 1,
            bomb: 1,
            sp: 1,
            up: 1,
            down: 1,
            left: 1,
            right: 1,
            direction: (0, 0),
            enter: 1,
            esc: 1,
        }
    );
    let g = GameInputData::from(&raw(&[keys::NUMPAD_ENTER, keys::UP, keys::F3]));
    assert_eq!(g, GameInputData { enter: 1, up: 1, direction: (0, 1), ..GameInputData::default() });
    let mut g = GameInputData::from(&raw(&[keys::RETURN, keys::NUMPAD_ENTER]));
    assert_eq!(g.enter, 1);
    tick_mut(&mut g, &raw(&[keys::NUMPAD_ENTER]));
    assert_eq!(g.enter, 2);
}

#[test]
fn clear_forgets_everything() {
    let mut g = GameInputData::from(&raw(&[keys::Z, keys::DOWN]));
    assert_ne!(g, GameInputData::default());
    g.clear();
    assert_eq!(g, GameInputData::default());
}

#[test]
fn a_copy_of_the_raw_input_holds_the_same_keys() {
    let a = RawInputData { x: 7, y: 9, pressing: set(&[1, 2, 300]) };
    let b = a.clone();
    assert_eq!((b.x, b.y), (7, 9));
    assert_eq!(b.pressing, set(&[1, 2, 300]));
    let empty = RawInputData::empty();
    assert!(empty.pressing.is_empty());
    assert_eq!((empty.x, empty.y), (0, 0));
}

#[test]
fn a_key_pressed_and_released_between_two_frames_is_still_seen() {
    let mut inputs = BakedInputs::default();
    inputs.process(&set(&[keys::Z]), &set(&[keys::Z]));
    assert_eq!(inputs.cur_temp_input.pressing, set(&[keys::Z]));
    assert_eq!(inputs.cur_temp_game_input.pressing, set(&[keys::Z]));
    inputs.swap_frame();
    assert_eq!(inputs.cur_frame_game_input.shoot, 1);
    assert!(inputs.is_pressed(&[keys::Z]));
    inputs.process(&set(&[]), &set(&[keys::Z]));
    assert!(inputs.cur_temp_input.pressing.is_empty());
    assert_eq!(inputs.cur_temp_game_input.pressing, set(&[keys::Z]));
    inputs.swap_frame();
    assert_eq!(inputs.cur_frame_game_input.shoot, 0);
    assert!(!inputs.is_pressed(&[keys::Z]));
    inputs.tick();
    assert_eq!(inputs.cur_game_input.shoot, 1);
    assert_eq!(inputs.last_temp_game_input.pressing, set(&[keys::Z]));
    inputs.process(&set(&[]), &set(&[keys::Z]));
    assert!(inputs.cur_temp_game_input.pressing.is_empty());
    inputs.tick();
    assert_eq!(inputs.cur_game_input.shoot, 0);
}

#[test]
fn the_two_timelines_count_on_their_own() {
    let mut inputs = BakedInputs::default();
    inputs.process(&set(&[keys::X, keys::UP]), &set(&[]));
    for _ in 0..3 {
        inputs.swap_frame();
    }
    inputs.tick();
    assert_eq!(inputs.cur_frame_game_input.bomb, 3);
    assert_eq!(inputs.cur_frame_game_input.direction, (0, 1));
    assert_eq!(inputs.cur_game_input.bomb, 1);
    assert_eq!(inputs.last_frame_input.pressing, set(&[keys::X, keys::UP]));
    assert_eq!(inputs.cur_frame_input.pressing, set(&[keys::X, keys::UP]));
}

#[test]
fn a_chord_is_pressed_when_all_of_it_is_down_and_some_of_it_is_new() {
    let mut inputs = BakedInputs::default();
    assert!(!inputs.is_pressed(&[]));
    assert!(!inputs.is_pressed(&[keys::Z]));
    inputs.process(&set(&[keys::Z]), &set(&[]));
    inputs.swap_frame();
    assert!(inputs.is_pressed(&[keys::Z]));
    assert!(!inputs.is_pressed(&[keys::Z, keys::X]));
    assert!(!inputs.is_pressed(&[]));
    inputs.process(&set(&[keys::X]), &set(&[]));
    inputs.swap_frame();
    assert!(!inputs.is_pressed(&[keys::Z]));
    assert!(inputs.is_pressed(&[keys::X]));
    assert!(inputs.is_pressed(&[keys::Z, keys::X]));
    inputs.swap_frame();
    assert!(!inputs.is_pressed(&[keys::Z, keys::X]));
}

#[test]
fn one_counter_counts_whatever_it_was() {
    let mut count = 41u32;
    inc_or_zero(&mut count, true);
    assert_eq!(count, 42);
    inc_or_zero(&mut count, false);
    assert_eq!(count, 0);
    let mut count = u32::MAX;
    inc_or_zero(&mut count, false);
    assert_eq!(count, 0);
    let mut count = u32::MAX - 1;
    inc_or_zero(&mut count, true);
    assert_eq!(count, u32::MAX);
}

#[test]
fn a_counter_at_its_limit_is_no_hindrance_once_its_key_is_released() {
    let mut g = GameInputData::default();
    g.bomb = u32::MAX;
    g.left = 7;
    g.shoot = 3;
    assert!(!can_sample(&g, &raw(&[keys::X])));
    let held = raw(&[keys::Z, keys::LEFT]);
    assert!(can_sample(&g, &held));
    tick_mut(&mut g, &held);
    assert_eq!(g.bomb, 0);
    assert_eq!(g.left, 8);
    assert_eq!(g.shoot, 4);
    assert_eq!(g.direction, (-1, 0));
}
