use rustris::controls::{controls_in_order, Control, GameControls, Key};
use rustris::menus::{Menu, MenuState, PausedState};
use rustris::rustris_view::RustrisView;

#[test]
fn controls_come_in_declaration_order() {
    assert_eq!(
        controls_in_order(),
        vec![
            Control::Left,
            Control::Right,
            Control::RotateCW,
            Control::RotateCCW,
            Control::SoftDrop,
            Control::HardDrop,
            Control::Hold,
        ]
    );
}

#[test]
fn default_keys_of_each_control() {
    assert_eq!(Control::Left.default_keys(), [Some(Key::Left), Some(Key::A)]);
    assert_eq!(Control::Right.default_keys(), [Some(Key::Right), Some(Key::D)]);
    assert_eq!(Control::RotateCW.default_keys(), [Some(Key::Up), Some(Key::W)]);
    assert_eq!(Control::RotateCCW.default_keys(), [Some(Key::LControl), Some(Key::Z)]);
    assert_eq!(Control::SoftDrop.default_keys(), [Some(Key::Down), Some(Key::S)]);
    assert_eq!(Control::HardDrop.default_keys(), [Some(Key::Space), None]);
    assert_eq!(Control::Hold.default_keys(), [Some(Key::LShift), Some(Key::C)]);
}

#[test]
fn default_game_controls_map_every_control_and_key() {
    let controls = GameControls::default();
    assert_eq!(controls.input_map.len(), 7);
    for (control, keys) in &controls.input_map {
        assert_eq!(*keys, control.default_keys());
    }
    assert_eq!(controls.key_map.len(), 13);
    // each key is bound once, to a control that lists it
    for (i, (key, control)) in controls.key_map.iter().enumerate() {
        assert!(control.default_keys().contains(&Some(*key)));
        for (other, _) in &controls.key_map[i + 1..] {
            assert_ne!(key, other);
        }
    }
    assert_eq!(controls.key_map[0], (Key::Left, Control::Left));
    assert_eq!(controls.key_map[10], (Key::Space, Control::HardDrop));
    assert_eq!(controls.key_map[12], (Key::C, Control::Hold));
}

#[test]
fn main_menu_entries_and_selection() {
    let mut menu = MenuState::new();
    assert_eq!(menu.items(), &vec!["Start Game".to_string(), "Options".to_string(), "Quit Game".to_string()]);
    assert_eq!(menu.selected(), 0);
    menu.previous();
    assert_eq!(menu.selected(), 2);
    menu.next();
    assert_eq!(menu.selected(), 0);
    menu.set_selection(1);
    assert_eq!(menu.selected(), 1);
    menu.reset_selection();
    assert_eq!(menu.selected(), 0);
}

#[test]
fn pause_menu_entries_and_selection() {
    let mut menu = PausedState::new();
    assert_eq!(
        menu.items(),
        &vec![
            "Resume Game".to_string(),
            "Options".to_string(),
            "Exit to Menu".to_string(),
            "Quit Game".to_string(),
        ]
    );
    for expected in [1, 2, 3, 0] {
        menu.next();
        assert_eq!(menu.selected(), expected);
    }
    menu.previous();
    assert_eq!(menu.selected(), 3);
}

#[test]
fn a_view_holds_nothing() {
    let _view = RustrisView::new();
}

#[test]
fn repeat_delays_of_held_controls() {
    assert_eq!(Control::Left.action_delay(), Some(300_000));
    assert_eq!(Control::Right.action_repeat_delay(), Some(25_000));
    assert_eq!(Control::SoftDrop.action_delay(), Some(200_000));
    assert_eq!(Control::SoftDrop.action_repeat_delay(), Some(30_000));
    for c in [Control::RotateCW, Control::RotateCCW, Control::HardDrop, Control::Hold] {
        assert_eq!(c.action_delay(), None);
        assert_eq!(c.action_repeat_delay(), None);
    }
}
