use rustris::rustomino::{ivec2, translated, IVec2, Rotation, Rustomino, RustominoBag, RustominoState, RustominoType};
use rustris::util::variants_equal;

/// The seed of the bag's generator.
const SEED: u64 = 0x5eed_1234;

const ALL_TYPES: [RustominoType; 7] = [
    RustominoType::I,
    RustominoType::O,
    RustominoType::T,
    RustominoType::L,
    RustominoType::J,
    RustominoType::S,
    RustominoType::Z,
];

#[test]
fn ivec2_adds_and_negates() {
    let a = ivec2(3, -2);
    let b = ivec2(-5, 7);
    assert_eq!(a.plus(b), ivec2(-2, 5));
    assert_eq!(a.negated(), ivec2(-3, 2));
    assert_eq!(IVec2::zero(), ivec2(0, 0));
    assert_eq!(ivec2(i32::MAX, 0).plus(ivec2(1, 0)), ivec2(i32::MIN, 0));
}

#[test]
fn translated_moves_each_block() {
    let blocks = [ivec2(0, 0), ivec2(1, 0), ivec2(0, 1), ivec2(1, 1)];
    assert_eq!(
        translated(&blocks, &ivec2(4, -1)),
        [ivec2(4, -1), ivec2(5, -1), ivec2(4, 0), ivec2(5, 0)]
    );
}

#[test]
fn new_t_piece_spawns_above_the_playfield() {
    let t = Rustomino::new(RustominoType::T);
    assert_eq!(t.rtype, RustominoType::T);
    assert_eq!(t.state, RustominoState::Falling { time: 0 });
    assert_eq!(t.translation, ivec2(3, 19));
    assert_eq!(t.blocks, [ivec2(1, 1), ivec2(0, 1), ivec2(1, 2), ivec2(2, 1)]);
    assert_eq!(
        t.playfield_slots(),
        [ivec2(4, 20), ivec2(3, 20), ivec2(4, 21), ivec2(5, 20)]
    );
}

#[test]
fn new_i_piece_spawns_one_row_lower() {
    let i = Rustomino::new(RustominoType::I);
    assert_eq!(i.translation, ivec2(3, 18));
    assert_eq!(
        i.playfield_slots(),
        [ivec2(3, 20), ivec2(4, 20), ivec2(5, 20), ivec2(6, 20)]
    );
}

#[test]
fn every_piece_spawns_in_the_staging_rows() {
    for t in ALL_TYPES {
        for c in Rustomino::new(t).playfield_slots() {
            assert!(0 <= c.x && c.x < 10);
            assert!(20 <= c.y && c.y < 22);
        }
    }
}

#[test]
fn reset_returns_a_fresh_piece_of_the_same_type() {
    let mut l = Rustomino::new(RustominoType::L);
    l.translate(ivec2(2, -7));
    l.rotate(&Rotation::Cw, &ivec2(0, 0));
    l.set_state(RustominoState::Lockdown { time: 40 });
    let r = l.reset();
    let fresh = Rustomino::new(RustominoType::L);
    assert_eq!(r.rtype, RustominoType::L);
    assert_eq!(r.blocks, fresh.blocks);
    assert_eq!(r.translation, fresh.translation);
    assert_eq!(r.state, RustominoState::Falling { time: 0 });
}

#[test]
fn translate_moves_the_cells() {
    let mut o = Rustomino::new(RustominoType::O);
    let before = o.playfield_slots();
    assert_eq!(o.translated(&ivec2(1, -3)), translated(&before, &ivec2(1, -3)));
    o.translate(ivec2(1, -3));
    assert_eq!(o.playfield_slots(), translated(&before, &ivec2(1, -3)));
}

#[test]
fn t_turns_clockwise_by_its_table() {
    let mut t = Rustomino::new(RustominoType::T);
    assert_eq!(
        t.rotated(&Rotation::Cw),
        [ivec2(4, 20), ivec2(4, 21), ivec2(5, 20), ivec2(4, 19)]
    );
    t.rotate(&Rotation::Cw, &ivec2(0, 0));
    assert_eq!(t.blocks, [ivec2(1, 1), ivec2(1, 2), ivec2(2, 1), ivec2(1, 0)]);
}

#[test]
fn a_turn_is_undone_by_the_opposite_turn() {
    for t in ALL_TYPES {
        for (first, back) in [(Rotation::Cw, Rotation::Ccw), (Rotation::Ccw, Rotation::Cw)] {
            let mut r = Rustomino::new(t);
            let start = r.blocks;
            r.rotate(&first, &ivec2(0, 0));
            r.rotate(&back, &ivec2(0, 0));
            assert_eq!(r.blocks, start);
        }
    }
}

#[test]
fn four_turns_come_full_circle() {
    for t in ALL_TYPES {
        for rotation in [Rotation::Cw, Rotation::Ccw] {
            let mut r = Rustomino::new(t);
            let start = r.blocks;
            for _ in 0..4 {
                r.rotate(&rotation, &ivec2(0, 0));
            }
            assert_eq!(r.blocks, start);
            assert_eq!(
                r.wall_kick_tests(&rotation),
                Rustomino::new(t).wall_kick_tests(&rotation)
            );
        }
    }
}

#[test]
fn rotate_adds_the_kick() {
    let mut a = Rustomino::new(RustominoType::S);
    let mut b = Rustomino::new(RustominoType::S);
    a.rotate(&Rotation::Ccw, &ivec2(0, 0));
    b.rotate(&Rotation::Ccw, &ivec2(1, 2));
    for k in 0..4 {
        assert_eq!(b.blocks[k], a.blocks[k].plus(ivec2(1, 2)));
    }
}

#[test]
fn wall_kick_tests_of_a_fresh_piece() {
    let t = Rustomino::new(RustominoType::T);
    assert_eq!(
        t.wall_kick_tests(&Rotation::Cw),
        [ivec2(0, 0), ivec2(-1, 0), ivec2(-1, 1), ivec2(0, -2), ivec2(-1, -2)]
    );
    assert_eq!(
        t.wall_kick_tests(&Rotation::Ccw),
        [ivec2(0, 0), ivec2(1, 0), ivec2(1, 1), ivec2(0, -2), ivec2(1, -2)]
    );
    let i = Rustomino::new(RustominoType::I);
    assert_eq!(
        i.wall_kick_tests(&Rotation::Cw),
        [ivec2(0, 0), ivec2(-2, 0), ivec2(1, 0), ivec2(-2, -1), ivec2(1, 2)]
    );
    assert_eq!(
        i.wall_kick_tests(&Rotation::Ccw),
        [ivec2(0, 0), ivec2(-1, 0), ivec2(2, 0), ivec2(-1, 2), ivec2(2, -1)]
    );
}

#[test]
fn the_bag_deals_each_type_once_per_round() {
    let mut bag = RustominoBag::new(SEED);
    for _round in 0..3 {
        let mut seen: Vec<RustominoType> = Vec::new();
        for _ in 0..7 {
            let r = bag.get_rustomino();
            assert!(!seen.contains(&r.rtype));
            assert_eq!(r.translation, Rustomino::new(r.rtype).translation);
            seen.push(r.rtype);
        }
        for t in ALL_TYPES {
            assert!(seen.contains(&t));
        }
    }
}

#[test]
fn the_bag_is_shuffled() {
    // Unshuffled, every round would deal the types in reverse declaration order.
    let unshuffled = [
        RustominoType::Z,
        RustominoType::S,
        RustominoType::J,
        RustominoType::L,
        RustominoType::T,
        RustominoType::O,
        RustominoType::I,
    ];
    let mut bag = RustominoBag::new(SEED);
    let mut rounds_in_order = 0;
    for _round in 0..4 {
        let mut round = Vec::new();
        for _ in 0..7 {
            round.push(bag.get_rustomino().rtype);
        }
        if round == unshuffled {
            rounds_in_order += 1;
        }
    }
    assert!(rounds_in_order < 4);
}

#[test]
fn variants_equal_ignores_the_values() {
    assert!(variants_equal(
        &RustominoState::Falling { time: 1 },
        &RustominoState::Falling { time: 2 }
    ));
    assert!(!variants_equal(
        &RustominoState::Falling { time: 0 },
        &RustominoState::Lockdown { time: 0 }
    ));
}

#[test]
fn the_same_seed_deals_the_same_pieces() {
    let mut a = RustominoBag::new(7);
    let mut b = RustominoBag::new(7);
    for _ in 0..21 {
        assert_eq!(a.get_rustomino().rtype, b.get_rustomino().rtype);
    }
}

#[test]
fn a_cleared_bag_starts_a_new_round() {
    let mut bag = RustominoBag::new(SEED);
    for _ in 0..3 {
        bag.get_rustomino();
    }
    bag.clear();
    let mut seen: Vec<RustominoType> = Vec::new();
    for _ in 0..7 {
        let t = bag.get_rustomino().rtype;
        assert!(!seen.contains(&t));
        seen.push(t);
    }
}
