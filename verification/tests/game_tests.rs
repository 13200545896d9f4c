use rustris::controls::{Control, Key};
use rustris::game::{score_cleared_lines, GameState, RustrisState, UpdateAction};
use rustris::menus::Menu;
use rustris::playfield::{SlotState, TranslationDirection};
use rustris::rustomino::{Rustomino, RustominoState, RustominoType};

/// The seed of the bag's generator.
const SEED: u64 = 0x5eed_1234;

/// One frame at sixty frames a second.
const FRAME: u64 = 16_667;
/// A gravity delay that is never reached.
const NO_GRAVITY: u64 = u64::MAX;

fn locked_count(game: &RustrisState) -> usize {
    let mut n = 0;
    for y in 0..22 {
        for x in 0..10 {
            if let SlotState::Locked(_) = game.playfield.slot(x, y) {
                n += 1;
            }
        }
    }
    n
}

fn started() -> RustrisState {
    let mut game = RustrisState::new(SEED);
    game.key_down(Some(Key::Return), false);
    assert_eq!(game.state, GameState::Playing);
    assert_eq!(game.update(FRAME, NO_GRAVITY), UpdateAction::Nothing);
    game
}

/// Replaces the active piece with an O piece in columns 8 and 9 above four
/// locked O pieces that fill columns 0 to 7 of the two bottom rows.
fn two_rows_but_two_columns(game: &mut RustrisState) {
    let _ = game.playfield.take_active();
    for left in [4, 2, 0] {
        assert!(game.playfield.set_active(Rustomino::new(RustominoType::O)));
        for _ in 0..left {
            assert!(game.playfield.translate_active(TranslationDirection::Left));
        }
        game.playfield.hard_drop_active();
        game.playfield.lock_active();
    }
    assert!(game.playfield.set_active(Rustomino::new(RustominoType::O)));
    for _ in 0..2 {
        assert!(game.playfield.translate_active(TranslationDirection::Right));
    }
    game.playfield.hard_drop_active();
    game.playfield.lock_active();
    assert!(game.playfield.set_active(Rustomino::new(RustominoType::O)));
    for _ in 0..4 {
        assert!(game.playfield.translate_active(TranslationDirection::Right));
    }
}

#[test]
fn score_of_cleared_lines() {
    assert_eq!(score_cleared_lines(1, 1), 100);
    assert_eq!(score_cleared_lines(2, 1), 300);
    assert_eq!(score_cleared_lines(3, 1), 500);
    assert_eq!(score_cleared_lines(4, 1), 800);
    assert_eq!(score_cleared_lines(1, 20), 2000);
    assert_eq!(score_cleared_lines(4, 20), 16000);
    assert_eq!(score_cleared_lines(3, 4), 2000);
    assert_eq!(score_cleared_lines(2, 0), 0);
}

#[test]
fn a_new_game_waits_at_the_menu() {
    let game = RustrisState::new(SEED);
    assert_eq!(game.state, GameState::Menu);
    assert_eq!(game.previous_state, GameState::Menu);
    assert_eq!(game.level, 20);
    assert_eq!(game.score, 0);
    assert_eq!(game.total_lines_cleared(), 0);
    assert!(!game.hold_used());
    assert_eq!(game.lockdown_resets(), 0);
    assert!(game.next_rustomino.is_none());
    assert!(game.held_rustomino.is_none());
    assert!(game.playfield.active_rustomino().is_none());
    assert_eq!(game.menu_state().selected(), 0);
    assert_eq!(game.paused_state().selected(), 0);
    assert!(game.has_room());
    assert_eq!(locked_count(&game), 0);
}

#[test]
fn menu_selection_wraps_around() {
    let mut game = RustrisState::new(SEED);
    game.key_down(Some(Key::Down), false);
    assert_eq!(game.menu_state().selected(), 1);
    game.key_down(Some(Key::Down), true);
    assert_eq!(game.menu_state().selected(), 1);
    game.key_down(Some(Key::Down), false);
    game.key_down(Some(Key::Down), false);
    assert_eq!(game.menu_state().selected(), 0);
    game.key_down(Some(Key::Up), false);
    assert_eq!(game.menu_state().selected(), 2);
    game.key_down(Some(Key::Up), false);
    assert_eq!(game.menu_state().selected(), 1);
    // the options entry does nothing but go back to the top
    game.key_down(Some(Key::Return), false);
    assert_eq!(game.state, GameState::Menu);
    assert_eq!(game.menu_state().selected(), 0);
}

#[test]
fn escape_at_the_menu_quits() {
    let mut game = RustrisState::new(SEED);
    game.key_down(Some(Key::Escape), true);
    assert_eq!(game.state, GameState::Menu);
    game.key_down(Some(Key::Escape), false);
    assert_eq!(game.state, GameState::Quit);
    assert_eq!(game.update(FRAME, NO_GRAVITY), UpdateAction::Quit);
}

#[test]
fn quit_entry_of_the_menu() {
    let mut game = RustrisState::new(SEED);
    game.key_down(Some(Key::Up), false);
    game.key_down(Some(Key::Return), false);
    assert_eq!(game.state, GameState::Quit);
    assert_eq!(game.menu_state().selected(), 0);
}

#[test]
fn the_first_frame_of_play_deals_two_pieces() {
    let game = started();
    let active = game.playfield.active_rustomino().unwrap();
    let next = game.next_rustomino.unwrap();
    assert_ne!(active.rtype, next.rtype);
    assert_eq!(active.translation, Rustomino::new(active.rtype).translation);
    assert_eq!(active.state, RustominoState::Falling { time: FRAME });
    assert!(game.playfield.ghost_rustomino().is_some());
    assert_eq!(game.previous_state, GameState::Playing);
}

#[test]
fn falling_time_accumulates() {
    let mut game = RustrisState::new(SEED);
    game.key_down(Some(Key::Return), false);
    game.update(10, 1000);
    game.update(10, 1000);
    assert_eq!(game.playfield.get_active_state(), Some(RustominoState::Falling { time: 20 }));
}

#[test]
fn gravity_moves_the_piece_down_once_its_delay_is_reached() {
    let mut game = RustrisState::new(SEED);
    game.key_down(Some(Key::Return), false);
    game.update(FRAME, FRAME);
    let active = game.playfield.active_rustomino().unwrap();
    let spawn = Rustomino::new(active.rtype).translation;
    assert_eq!(active.translation.y, spawn.y - 1);
    assert_eq!(active.state, RustominoState::Falling { time: 0 });
}

#[test]
fn a_piece_that_cannot_fall_locks_after_the_lockdown_delay() {
    let mut game = RustrisState::new(SEED);
    game.key_down(Some(Key::Return), false);
    let mut frames = 0;
    loop {
        game.update(FRAME, 1);
        frames += 1;
        assert!(frames < 40);
        if let Some(RustominoState::Lockdown { time: 0 }) = game.playfield.get_active_state() {
            break;
        }
    }
    game.update(FRAME, 1);
    assert_eq!(game.playfield.get_active_state(), Some(RustominoState::Lockdown { time: FRAME }));
    game.update(500_000, 1);
    assert!(game.playfield.active_rustomino().is_none());
    assert_eq!(locked_count(&game), 4);
    game.update(FRAME, NO_GRAVITY);
    assert!(game.playfield.active_rustomino().is_some());
}

#[test]
fn hard_drop_locks_at_once() {
    let mut game = started();
    game.control_handler(&Control::HardDrop);
    assert!(game.playfield.active_rustomino().is_none());
    assert_eq!(locked_count(&game), 4);
    for x in 0..10 {
        for y in 2..22 {
            assert_eq!(game.playfield.slot(x, y), SlotState::Empty);
        }
    }
    assert_eq!(game.score, 0);
    game.update(FRAME, NO_GRAVITY);
    assert!(game.playfield.active_rustomino().is_some());
}

#[test]
fn moves_and_turns_through_the_controls() {
    let mut game = started();
    let before = game.playfield.active_rustomino().unwrap();
    game.control_handler(&Control::Left);
    let after = game.playfield.active_rustomino().unwrap();
    assert_eq!(after.translation.x, before.translation.x - 1);
    game.control_handler(&Control::Right);
    game.control_handler(&Control::Right);
    let after = game.playfield.active_rustomino().unwrap();
    assert_eq!(after.translation.x, before.translation.x + 1);
    game.control_handler(&Control::SoftDrop);
    let after = game.playfield.active_rustomino().unwrap();
    assert_eq!(after.translation.y, before.translation.y - 1);
    let mut turned = after;
    let kicks_cw = turned.wall_kick_tests(&rustris::rustomino::Rotation::Cw);
    assert_eq!(kicks_cw[0].x, 0);
    turned.rotate(&rustris::rustomino::Rotation::Cw, &kicks_cw[0]);
    game.control_handler(&Control::RotateCW);
    assert_eq!(game.playfield.active_rustomino().unwrap().blocks, turned.blocks);
    game.control_handler(&Control::RotateCCW);
    assert_eq!(game.playfield.active_rustomino().unwrap().blocks, after.blocks);
}

#[test]
fn soft_drop_at_the_floor_starts_the_lockdown() {
    let mut game = started();
    for _ in 0..25 {
        game.control_handler(&Control::SoftDrop);
    }
    assert_eq!(game.playfield.get_active_state(), Some(RustominoState::Lockdown { time: 0 }));
    assert!(game.playfield.active_rustomino().is_some());
    assert_eq!(locked_count(&game), 0);
}

#[test]
fn a_move_in_lockdown_counts_a_reset() {
    let mut game = started();
    for _ in 0..25 {
        game.control_handler(&Control::SoftDrop);
    }
    game.update(FRAME, NO_GRAVITY);
    assert_eq!(game.playfield.get_active_state(), Some(RustominoState::Lockdown { time: FRAME }));
    game.control_handler(&Control::Left);
    assert_eq!(game.lockdown_resets(), 1);
    assert_eq!(game.playfield.get_active_state(), Some(RustominoState::Lockdown { time: 0 }));
}

#[test]
fn hold_swaps_the_active_piece_once_per_lock() {
    let mut game = started();
    let first = game.playfield.active_rustomino().unwrap().rtype;
    let next = game.next_rustomino.unwrap().rtype;
    game.control_handler(&Control::Left);
    game.control_handler(&Control::Hold);
    assert!(game.hold_used());
    let held = game.held_rustomino.unwrap();
    assert_eq!(held.rtype, first);
    assert_eq!(held.translation, Rustomino::new(first).translation);
    let active = game.playfield.active_rustomino().unwrap();
    assert_eq!(active.rtype, next);
    assert_eq!(active.translation, Rustomino::new(next).translation);
    // a second hold before locking does nothing
    game.control_handler(&Control::Hold);
    assert_eq!(game.held_rustomino.unwrap().rtype, first);
    assert_eq!(game.playfield.active_rustomino().unwrap().rtype, next);
    // after a lock the hold brings the held piece back
    game.control_handler(&Control::HardDrop);
    assert!(!game.hold_used());
    game.update(FRAME, NO_GRAVITY);
    let third = game.playfield.active_rustomino().unwrap().rtype;
    game.control_handler(&Control::Hold);
    assert_eq!(game.playfield.active_rustomino().unwrap().rtype, first);
    assert_eq!(game.held_rustomino.unwrap().rtype, third);
}

#[test]
fn escape_pauses_and_resumes() {
    let mut game = started();
    let before = game.playfield.active_rustomino().unwrap().translation;
    game.key_down(Some(Key::Escape), true);
    assert_eq!(game.state, GameState::Paused);
    game.update(FRAME, 1);
    assert_eq!(game.playfield.active_rustomino().unwrap().translation, before);
    game.key_down(Some(Key::Escape), true);
    assert_eq!(game.state, GameState::Paused);
    game.key_down(Some(Key::Escape), false);
    assert_eq!(game.state, GameState::Playing);
    assert_eq!(game.playfield.active_rustomino().unwrap().translation, before);
}

#[test]
fn other_keys_do_nothing_in_play() {
    let mut game = started();
    let before = game.playfield.active_rustomino().unwrap().translation;
    game.key_down(Some(Key::Left), false);
    game.key_down(None, false);
    assert_eq!(game.state, GameState::Playing);
    assert_eq!(game.playfield.active_rustomino().unwrap().translation, before);
}

#[test]
fn losing_the_focus_pauses() {
    let mut game = started();
    game.focus(true);
    assert_eq!(game.state, GameState::Playing);
    game.focus(false);
    assert_eq!(game.state, GameState::Paused);
    game.focus(true);
    assert_eq!(game.state, GameState::Paused);
    let mut menu = RustrisState::new(SEED);
    menu.focus(false);
    assert_eq!(menu.state, GameState::Menu);
}

#[test]
fn pause_menu_entries() {
    let mut game = started();
    game.key_down(Some(Key::Escape), false);
    game.key_down(Some(Key::Up), false);
    assert_eq!(game.paused_state().selected(), 3);
    game.key_down(Some(Key::Down), false);
    assert_eq!(game.paused_state().selected(), 0);
    game.key_down(Some(Key::Return), false);
    assert_eq!(game.state, GameState::Playing);
}

#[test]
fn exit_to_menu_starts_a_new_game() {
    let mut game = started();
    game.control_handler(&Control::HardDrop);
    game.key_down(Some(Key::Escape), false);
    game.key_down(Some(Key::Down), false);
    game.key_down(Some(Key::Down), false);
    game.key_down(Some(Key::Return), false);
    assert_eq!(game.state, GameState::Menu);
    assert_eq!(game.paused_state().selected(), 0);
    assert_eq!(locked_count(&game), 0);
    assert!(game.next_rustomino.is_none());
    assert!(game.playfield.active_rustomino().is_none());
    assert_eq!(game.level, 20);
}

#[test]
fn quit_from_the_pause_menu() {
    let mut game = started();
    game.key_down(Some(Key::Escape), false);
    for _ in 0..3 {
        game.key_down(Some(Key::Down), false);
    }
    game.key_down(Some(Key::NumpadEnter), false);
    assert_eq!(game.state, GameState::Quit);
    assert_eq!(game.update(FRAME, NO_GRAVITY), UpdateAction::Quit);
}

#[test]
fn a_single_line_scores_by_level() {
    let mut game = started();
    let _ = game.playfield.take_active();
    for right in [0, 4] {
        assert!(game.playfield.set_active(Rustomino::new(RustominoType::I)));
        for _ in 0..3 {
            assert!(game.playfield.translate_active(TranslationDirection::Left));
        }
        for _ in 0..right {
            assert!(game.playfield.translate_active(TranslationDirection::Right));
        }
        game.playfield.hard_drop_active();
        game.playfield.lock_active();
    }
    assert!(game.playfield.set_active(Rustomino::new(RustominoType::O)));
    for _ in 0..4 {
        assert!(game.playfield.translate_active(TranslationDirection::Right));
    }
    game.control_handler(&Control::HardDrop);
    assert_eq!(game.score, 2000);
    assert_eq!(game.total_lines_cleared(), 1);
    assert_eq!(game.level, 20);
    assert_eq!(locked_count(&game), 2);
}

#[test]
fn two_lines_at_once() {
    let mut game = started();
    two_rows_but_two_columns(&mut game);
    game.control_handler(&Control::HardDrop);
    assert_eq!(game.score, 6000);
    assert_eq!(game.total_lines_cleared(), 2);
    assert_eq!(locked_count(&game), 0);
}

#[test]
fn ten_lines_raise_the_level() {
    let mut game = started();
    game.level = 1;
    for round in 0..5 {
        two_rows_but_two_columns(&mut game);
        game.control_handler(&Control::HardDrop);
        assert_eq!(game.total_lines_cleared(), 2 * (round + 1));
    }
    assert_eq!(game.score, 1500);
    assert_eq!(game.level, 2);
}

#[test]
fn the_tenth_line_raises_the_starting_level() {
    let mut game = started();
    for round in 0..4 {
        two_rows_but_two_columns(&mut game);
        game.control_handler(&Control::HardDrop);
        assert_eq!(game.total_lines_cleared(), 2 * (round + 1));
        assert_eq!(game.level, 20);
    }
    two_rows_but_two_columns(&mut game);
    game.control_handler(&Control::HardDrop);
    assert_eq!(game.total_lines_cleared(), 10);
    assert_eq!(game.level, 21);
    assert_eq!(game.score, 5 * 20 * 300);
}

#[test]
fn the_game_ends_when_the_stack_reaches_the_top() {
    let mut game = started();
    let mut rounds = 0;
    while game.state != GameState::GameOver {
        game.control_handler(&Control::HardDrop);
        if game.state == GameState::GameOver {
            break;
        }
        game.update(FRAME, NO_GRAVITY);
        rounds += 1;
        assert!(rounds < 60);
    }
    // the first frame of the game over asks for the sound, the next ones do not
    assert_eq!(game.update(FRAME, NO_GRAVITY), UpdateAction::PlayGameOverSound);
    for _ in 0..3 {
        assert_eq!(game.update(FRAME, NO_GRAVITY), UpdateAction::Nothing);
        assert_eq!(game.state, GameState::GameOver);
    }
    // any key starts over
    game.key_down(None, true);
    assert_eq!(game.state, GameState::Menu);
    assert_eq!(game.score, 0);
    assert_eq!(locked_count(&game), 0);
}

#[test]
fn has_room_refuses_a_score_near_the_limit() {
    let mut game = RustrisState::new(SEED);
    assert!(game.has_room());
    game.score = usize::MAX - 100;
    assert!(!game.has_room());
    game.score = 0;
    game.level = usize::MAX / 800;
    assert!(game.has_room());
    game.level = usize::MAX / 800 + 1;
    assert!(!game.has_room());
}

#[test]
fn fifteen_lockdown_resets_lock_the_piece() {
    let mut game = started();
    for _ in 0..25 {
        game.control_handler(&Control::SoftDrop);
    }
    assert_eq!(game.playfield.get_active_state(), Some(RustominoState::Lockdown { time: 0 }));
    for i in 0..15 {
        if i % 2 == 0 {
            game.control_handler(&Control::Left);
        } else {
            game.control_handler(&Control::Right);
        }
    }
    assert_eq!(game.lockdown_resets(), 15);
    assert!(game.playfield.active_rustomino().is_some());
    game.update(FRAME, NO_GRAVITY);
    assert!(game.playfield.active_rustomino().is_none());
    assert_eq!(locked_count(&game), 4);
    assert_eq!(game.lockdown_resets(), 0);
}

#[test]
fn score_never_drops_during_play() {
    let mut game = started();
    let controls = [
        Control::Left,
        Control::RotateCW,
        Control::HardDrop,
        Control::Hold,
        Control::Right,
        Control::Right,
        Control::RotateCCW,
        Control::HardDrop,
    ];
    let mut score = game.score;
    let mut lines = game.total_lines_cleared();
    let mut level = game.level;
    for round in 0..40 {
        if game.state != GameState::Playing {
            break;
        }
        let control = controls[round % controls.len()];
        if game.playfield.active_rustomino().is_some() {
            game.control_handler(&control);
        }
        game.update(FRAME, FRAME);
        assert!(game.score >= score);
        assert!(game.total_lines_cleared() >= lines);
        assert!(game.level >= level);
        score = game.score;
        lines = game.total_lines_cleared();
        level = game.level;
    }
}
