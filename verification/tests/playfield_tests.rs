use rustris::playfield::{Playfield, SlotState, TranslationDirection, PLAYFIELD_SIZE, PLAYFIELD_SLOTS};
use rustris::rustomino::{ivec2, IVec2, Rotation, Rustomino, RustominoState, RustominoType};
use rustris::util::variants_equal;

fn slot_at(p: &Playfield, c: IVec2) -> SlotState {
    p.slot(c.x as usize, c.y as usize)
}

/// Moves the active piece `n` times in `direction`, each move expected to fit.
fn shift(p: &mut Playfield, direction: TranslationDirection, n: usize) {
    for _ in 0..n {
        assert!(p.translate_active(direction));
    }
}

fn drop_and_lock(p: &mut Playfield) {
    p.hard_drop_active();
    p.lock_active();
}

fn count(p: &Playfield, pred: impl Fn(SlotState) -> bool) -> usize {
    let mut n = 0;
    for y in 0..22 {
        for x in 0..10 {
            if pred(p.slot(x, y)) {
                n += 1;
            }
        }
    }
    n
}

#[test]
fn playfield_dimensions() {
    assert_eq!(PLAYFIELD_SLOTS, [10, 22]);
    assert_eq!(PLAYFIELD_SIZE, [10, 20]);
}

#[test]
fn a_new_playfield_is_empty() {
    let p = Playfield::new();
    assert_eq!(count(&p, |s| s == SlotState::Empty), 220);
    assert!(p.active_rustomino().is_none());
    assert!(p.ghost_rustomino().is_none());
    assert!(p.ready_for_next());
    assert_eq!(p.get_active_state(), None);
}

#[test]
fn set_active_occupies_the_slots_and_shows_the_ghost() {
    let mut p = Playfield::new();
    assert!(p.set_active(Rustomino::new(RustominoType::T)));
    assert!(!p.ready_for_next());
    for c in [ivec2(4, 20), ivec2(3, 20), ivec2(4, 21), ivec2(5, 20)] {
        assert_eq!(slot_at(&p, c), SlotState::Occupied(RustominoType::T));
    }
    for c in [ivec2(4, 0), ivec2(3, 0), ivec2(4, 1), ivec2(5, 0)] {
        assert_eq!(slot_at(&p, c), SlotState::GhostBlock(RustominoType::T));
    }
    let ghost = p.ghost_rustomino().unwrap();
    assert_eq!(
        ghost.playfield_slots(),
        [ivec2(4, 0), ivec2(3, 0), ivec2(4, 1), ivec2(5, 0)]
    );
    assert_eq!(count(&p, |s| s != SlotState::Empty), 8);
    assert_eq!(p.get_active_state(), Some(RustominoState::Falling { time: 0 }));
}

#[test]
fn the_ghost_shows_where_a_hard_drop_lands() {
    let mut p = Playfield::new();
    assert!(p.set_active(Rustomino::new(RustominoType::L)));
    shift(&mut p, TranslationDirection::Right, 2);
    assert!(p.rotate_active(Rotation::Cw));
    let ghost_cells = p.ghost_rustomino().unwrap().playfield_slots();
    p.hard_drop_active();
    assert_eq!(p.active_rustomino().unwrap().playfield_slots(), ghost_cells);
}

#[test]
fn moves_stop_at_the_walls() {
    let mut p = Playfield::new();
    assert!(p.set_active(Rustomino::new(RustominoType::O)));
    // the O piece covers columns 4 and 5
    shift(&mut p, TranslationDirection::Left, 4);
    assert!(!p.translate_active(TranslationDirection::Left));
    assert_eq!(
        p.active_rustomino().unwrap().playfield_slots(),
        [ivec2(0, 21), ivec2(1, 21), ivec2(1, 20), ivec2(0, 20)]
    );
    shift(&mut p, TranslationDirection::Right, 8);
    assert!(!p.translate_active(TranslationDirection::Right));
    // after moving the old slots are empty again
    assert_eq!(p.slot(0, 21), SlotState::Empty);
    assert_eq!(p.slot(9, 21), SlotState::Occupied(RustominoType::O));
}

#[test]
fn translation_vectors() {
    assert_eq!(TranslationDirection::Left.get_translation(), ivec2(-1, 0));
    assert_eq!(TranslationDirection::Right.get_translation(), ivec2(1, 0));
    assert_eq!(TranslationDirection::Down.get_translation(), ivec2(0, -1));
}

#[test]
fn gravity_moves_the_active_piece_one_row() {
    let mut p = Playfield::new();
    assert!(p.set_active(Rustomino::new(RustominoType::T)));
    assert!(p.active_can_fall());
    p.apply_gravity();
    assert_eq!(
        p.active_rustomino().unwrap().playfield_slots(),
        [ivec2(4, 19), ivec2(3, 19), ivec2(4, 20), ivec2(5, 19)]
    );
    assert_eq!(p.slot(4, 21), SlotState::Empty);
    assert_eq!(p.slot(4, 20), SlotState::Occupied(RustominoType::T));
}

#[test]
fn a_piece_on_the_floor_cannot_fall() {
    let mut p = Playfield::new();
    assert!(p.set_active(Rustomino::new(RustominoType::I)));
    p.hard_drop_active();
    assert_eq!(
        p.active_rustomino().unwrap().playfield_slots(),
        [ivec2(3, 0), ivec2(4, 0), ivec2(5, 0), ivec2(6, 0)]
    );
    assert!(!p.active_can_fall());
}

#[test]
fn locking_fills_the_slots_and_frees_the_playfield() {
    let mut p = Playfield::new();
    assert!(p.set_active(Rustomino::new(RustominoType::I)));
    drop_and_lock(&mut p);
    for x in 3..7 {
        assert_eq!(p.slot(x, 0), SlotState::Locked(RustominoType::I));
    }
    assert!(p.ready_for_next());
    assert!(p.ghost_rustomino().is_none());
    assert_eq!(count(&p, |s| s != SlotState::Empty), 4);
}

#[test]
fn pieces_stack_on_locked_slots() {
    let mut p = Playfield::new();
    assert!(p.set_active(Rustomino::new(RustominoType::O)));
    drop_and_lock(&mut p);
    assert!(p.set_active(Rustomino::new(RustominoType::O)));
    drop_and_lock(&mut p);
    for y in 0..4 {
        assert_eq!(p.slot(4, y), SlotState::Locked(RustominoType::O));
        assert_eq!(p.slot(5, y), SlotState::Locked(RustominoType::O));
    }
    assert_eq!(p.slot(4, 4), SlotState::Empty);
}

#[test]
fn set_active_reports_a_collision() {
    let mut p = Playfield::new();
    // stack O pieces in columns 4 and 5 up to the top row
    for _ in 0..11 {
        assert!(p.set_active(Rustomino::new(RustominoType::O)));
        drop_and_lock(&mut p);
    }
    assert_eq!(p.slot(4, 19), SlotState::Locked(RustominoType::O));
    assert_eq!(p.slot(5, 21), SlotState::Locked(RustominoType::O));
    assert!(!p.set_active(Rustomino::new(RustominoType::O)));
}

#[test]
fn take_active_returns_a_fresh_piece_and_clears_its_slots() {
    let mut p = Playfield::new();
    assert!(p.set_active(Rustomino::new(RustominoType::Z)));
    shift(&mut p, TranslationDirection::Left, 2);
    let taken = p.take_active().unwrap();
    assert_eq!(taken.rtype, RustominoType::Z);
    assert_eq!(taken.translation, Rustomino::new(RustominoType::Z).translation);
    assert_eq!(count(&p, |s| s != SlotState::Empty), 0);
    assert!(p.ready_for_next());
    assert!(p.take_active().is_none());
}

#[test]
fn rotation_uses_a_wall_kick_at_the_wall() {
    let mut p = Playfield::new();
    assert!(p.set_active(Rustomino::new(RustominoType::I)));
    assert!(p.rotate_active(Rotation::Cw));
    // vertical I in column 5; move it against the left wall
    shift(&mut p, TranslationDirection::Left, 5);
    assert!(!p.translate_active(TranslationDirection::Left));
    // turning back needs the first kick that fits: two columns to the right
    assert!(p.rotate_active(Rotation::Ccw));
    let cells = p.active_rustomino().unwrap().playfield_slots();
    for c in cells {
        assert!(c.x >= 0 && c.x < 10);
    }
    assert_eq!(cells[0].y, cells[3].y);
}

#[test]
fn set_active_state_changes_only_the_state() {
    let mut p = Playfield::new();
    assert!(p.set_active(Rustomino::new(RustominoType::J)));
    let before = p.active_rustomino().unwrap().playfield_slots();
    p.set_active_state(RustominoState::Lockdown { time: 7 });
    assert_eq!(p.get_active_state(), Some(RustominoState::Lockdown { time: 7 }));
    assert_eq!(p.active_rustomino().unwrap().playfield_slots(), before);
}

#[test]
fn a_complete_row_is_cleared_and_the_rows_above_fall() {
    let mut p = Playfield::new();
    // I in columns 0..4, row 0
    assert!(p.set_active(Rustomino::new(RustominoType::I)));
    shift(&mut p, TranslationDirection::Left, 3);
    drop_and_lock(&mut p);
    // I in columns 4..8, row 0
    assert!(p.set_active(Rustomino::new(RustominoType::I)));
    shift(&mut p, TranslationDirection::Right, 1);
    drop_and_lock(&mut p);
    // O in columns 8 and 9, rows 0 and 1
    assert!(p.set_active(Rustomino::new(RustominoType::O)));
    shift(&mut p, TranslationDirection::Right, 4);
    drop_and_lock(&mut p);
    let cleared = p.clear_completed_lines();
    assert_eq!(cleared, vec![0]);
    // the upper half of the O fell into row 0
    assert_eq!(p.slot(8, 0), SlotState::Locked(RustominoType::O));
    assert_eq!(p.slot(9, 0), SlotState::Locked(RustominoType::O));
    assert_eq!(count(&p, |s| s != SlotState::Empty), 2);
    // nothing more to clear
    assert_eq!(p.clear_completed_lines(), Vec::<usize>::new());
}

#[test]
fn two_complete_rows_are_cleared_together() {
    let mut p = Playfield::new();
    // five O pieces fill rows 0 and 1
    for moves in [(TranslationDirection::Left, 4), (TranslationDirection::Left, 2), (TranslationDirection::Left, 0), (TranslationDirection::Right, 2), (TranslationDirection::Right, 4)] {
        assert!(p.set_active(Rustomino::new(RustominoType::O)));
        shift(&mut p, moves.0, moves.1);
        drop_and_lock(&mut p);
    }
    assert_eq!(count(&p, |s| s != SlotState::Empty), 20);
    assert_eq!(p.clear_completed_lines(), vec![0, 1]);
    assert_eq!(count(&p, |s| s != SlotState::Empty), 0);
}

#[test]
fn slot_states_compare_by_variant() {
    assert!(variants_equal(&SlotState::Locked(RustominoType::I), &SlotState::Locked(RustominoType::Z)));
    assert!(!variants_equal(&SlotState::Empty, &SlotState::Occupied(RustominoType::T)));
    assert!(!variants_equal(&SlotState::GhostBlock(RustominoType::T), &SlotState::Occupied(RustominoType::T)));
}

#[test]
fn turns_and_moves_keep_the_locked_blocks() {
    let mut p = Playfield::new();
    for left in [4, 2, 0] {
        assert!(p.set_active(Rustomino::new(RustominoType::O)));
        shift(&mut p, TranslationDirection::Left, left);
        drop_and_lock(&mut p);
    }
    let mut locked = Vec::new();
    for y in 0..22 {
        for x in 0..10 {
            locked.push(p.slot(x, y));
        }
    }
    assert!(p.set_active(Rustomino::new(RustominoType::T)));
    for _ in 0..17 {
        assert!(p.translate_active(TranslationDirection::Down));
    }
    for rotation in [Rotation::Cw, Rotation::Cw, Rotation::Ccw, Rotation::Ccw, Rotation::Ccw] {
        p.rotate_active(rotation);
        let _ = p.translate_active(TranslationDirection::Left);
        for y in 0..22 {
            for x in 0..10 {
                let before = locked[y * 10 + x];
                let now = p.slot(x, y);
                if let SlotState::Locked(_) = before {
                    assert_eq!(now, before);
                }
                if let SlotState::Locked(_) = now {
                    assert_eq!(now, before);
                }
            }
        }
    }
}

#[test]
fn the_slots_agree_with_the_pieces() {
    let mut p = Playfield::new();
    assert!(p.set_active(Rustomino::new(RustominoType::L)));
    let moves = [
        TranslationDirection::Left,
        TranslationDirection::Down,
        TranslationDirection::Right,
        TranslationDirection::Right,
        TranslationDirection::Down,
    ];
    for (k, direction) in moves.iter().enumerate() {
        let _ = p.translate_active(*direction);
        if k % 2 == 0 {
            let _ = p.rotate_active(Rotation::Cw);
        }
        let cells = p.active_rustomino().unwrap().playfield_slots();
        assert_eq!(count(&p, |s| matches!(s, SlotState::Occupied(_))), 4);
        for c in cells {
            assert_eq!(slot_at(&p, c), SlotState::Occupied(RustominoType::L));
        }
        for c in p.ghost_rustomino().unwrap().playfield_slots() {
            assert!(!matches!(slot_at(&p, c), SlotState::Locked(_)));
        }
    }
    drop_and_lock(&mut p);
    assert_eq!(count(&p, |s| matches!(s, SlotState::Occupied(_))), 0);
}
