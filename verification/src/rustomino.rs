//! Rustominos (tetrominos): the seven piece types, their block layouts and
//! spawn positions, the rotation tables with their wall kick tests, and the
//! bag that deals the pieces.
use vstd::prelude::*;
use rand::seq::SliceRandom;
use rand::SeedableRng;
use rand_xoshiro::Xoshiro256PlusPlus;

verus! {

/// A pair of `i32` coordinates: `x` grows to the right and `y` upwards.
///
/// Coordinates add with two's-complement wrap-around, which is what `i32`
/// addition does in an optimised build.
#[derive(Debug, Clone, Copy, PartialEq, Eq, Structural)]
pub struct IVec2 {
    pub x: i32,
    pub y: i32,
}

pub open spec fn iv(x: i32, y: i32) -> IVec2 {
    IVec2 { x, y }
}

/// Builds a vector from its two coordinates.
#[verifier::when_used_as_spec(iv)]
pub fn ivec2(x: i32, y: i32) -> (r: IVec2)
    ensures
        r == iv(x, y),
{
    IVec2 { x, y }
}

impl IVec2 {
    pub open spec fn plus_spec(self, other: IVec2) -> IVec2 {
        IVec2 { x: self.x.wrapping_add(other.x), y: self.y.wrapping_add(other.y) }
    }

    /// Componentwise sum.
    #[verifier::when_used_as_spec(plus_spec)]
    pub fn plus(self, other: IVec2) -> (r: IVec2)
        ensures
            r == self.plus_spec(other),
    {
        IVec2 { x: self.x.wrapping_add(other.x), y: self.y.wrapping_add(other.y) }
    }

    pub open spec fn negated_spec(self) -> IVec2 {
        IVec2 { x: 0i32.wrapping_sub(self.x), y: 0i32.wrapping_sub(self.y) }
    }

    /// Componentwise negation.
    #[verifier::when_used_as_spec(negated_spec)]
    pub fn negated(self) -> (r: IVec2)
        ensures
            r == self.negated_spec(),
    {
        IVec2 { x: 0i32.wrapping_sub(self.x), y: 0i32.wrapping_sub(self.y) }
    }

    /// The vector `(0, 0)`.
    pub fn zero() -> (r: IVec2)
        ensures
            r == iv(0, 0),
    {
        IVec2 { x: 0, y: 0 }
    }
}

/// The four blocks each moved by `d`.
pub open spec fn shift(blocks: [IVec2; 4], d: IVec2) -> [IVec2; 4] {
    [blocks[0].plus(d), blocks[1].plus(d), blocks[2].plus(d), blocks[3].plus(d)]
}

/// The four offsets each negated.
pub open spec fn negated4(offsets: [IVec2; 4]) -> [IVec2; 4] {
    [offsets[0].negated(), offsets[1].negated(), offsets[2].negated(), offsets[3].negated()]
}

/// Moves each of the four blocks by `delta`.
pub fn translated(blocks: &[IVec2; 4], delta: &IVec2) -> (r: [IVec2; 4])
    ensures
        r == shift(*blocks, *delta),
{
    [blocks[0].plus(*delta), blocks[1].plus(*delta), blocks[2].plus(*delta), blocks[3].plus(*delta)]
}

fn neg_trans(block_trans: [IVec2; 4]) -> (r: [IVec2; 4])
    ensures
        r == negated4(block_trans),
{
    [block_trans[0].negated(), block_trans[1].negated(), block_trans[2].negated(), block_trans[3].negated()]
}

/// The seven piece types.
#[derive(Debug, Clone, Copy, PartialEq, Eq, Structural)]
pub enum RustominoType {
    I,
    O,
    T,
    L,
    J,
    S,
    Z,
}

/// Every piece type once, in declaration order.
pub open spec fn all_types() -> Seq<RustominoType> {
    seq![
        RustominoType::I,
        RustominoType::O,
        RustominoType::T,
        RustominoType::L,
        RustominoType::J,
        RustominoType::S,
        RustominoType::Z,
    ]
}

fn all_types_vec() -> (r: Vec<RustominoType>)
    ensures
        r@ == all_types(),
{
    vec![
        RustominoType::I,
        RustominoType::O,
        RustominoType::T,
        RustominoType::L,
        RustominoType::J,
        RustominoType::S,
        RustominoType::Z,
    ]
}

/// The blocks of a piece in its spawn orientation, relative to its translation.
pub open spec fn start_blocks(t: RustominoType) -> [IVec2; 4] {
    match t {
        RustominoType::I => [iv(0, 2), iv(1, 2), iv(2, 2), iv(3, 2)],
        RustominoType::O => [iv(1, 2), iv(2, 2), iv(2, 1), iv(1, 1)],
        RustominoType::T => [iv(1, 1), iv(0, 1), iv(1, 2), iv(2, 1)],
        RustominoType::L => [iv(1, 1), iv(0, 1), iv(2, 2), iv(2, 1)],
        RustominoType::J => [iv(1, 1), iv(0, 1), iv(0, 2), iv(2, 1)],
        RustominoType::S => [iv(1, 1), iv(0, 1), iv(1, 2), iv(2, 2)],
        RustominoType::Z => [iv(1, 1), iv(0, 2), iv(1, 2), iv(2, 1)],
    }
}

/// Where a piece of each type is placed when it enters the playfield.
pub open spec fn start_translation(t: RustominoType) -> IVec2 {
    match t {
        RustominoType::I => iv(3, 18),
        _ => iv(3, 19),
    }
}

/// The per-block offsets of the four clockwise turns of a piece, in the order
/// N to E, E to S, S to W and W to N.
pub open spec fn rotation_table(t: RustominoType) -> [[IVec2; 4]; 4] {
    match t {
        RustominoType::I => [
            [iv(2, 1), iv(1, 0), iv(0, -1i32), iv(-1i32, -2i32)],
            [iv(1, -2i32), iv(0, -1i32), iv(-1i32, 0), iv(-2i32, 1)],
            [iv(-2i32, -1i32), iv(-1i32, 0), iv(0, 1), iv(1, 2)],
            [iv(-1i32, 2), iv(0, 1), iv(1, 0), iv(2, -1i32)],
        ],
        RustominoType::O => [
            [iv(1, 0), iv(0, -1i32), iv(-1i32, 0), iv(0, 1)],
            [iv(0, -1i32), iv(-1i32, 0), iv(0, 1), iv(1, 0)],
            [iv(-1i32, 0), iv(0, 1), iv(1, 0), iv(0, -1i32)],
            [iv(0, 1), iv(1, 0), iv(0, -1i32), iv(-1i32, 0)],
        ],
        RustominoType::T => [
            [iv(0, 0), iv(1, 1), iv(1, -1i32), iv(-1i32, -1i32)],
            [iv(0, 0), iv(1, -1i32), iv(-1i32, -1i32), iv(-1i32, 1)],
            [iv(0, 0), iv(-1i32, -1i32), iv(-1i32, 1), iv(1, 1)],
            [iv(0, 0), iv(-1i32, 1), iv(1, 1), iv(1, -1i32)],
        ],
        RustominoType::L => [
            [iv(0, 0), iv(1, 1), iv(0, -2i32), iv(-1i32, -1i32)],
            [iv(0, 0), iv(1, -1i32), iv(-2i32, 0), iv(-1i32, 1)],
            [iv(0, 0), iv(-1i32, -1i32), iv(0, 2), iv(1, 1)],
            [iv(0, 0), iv(-1i32, 1), iv(2, 0), iv(1, -1i32)],
        ],
        RustominoType::J => [
            [iv(0, 0), iv(1, 1), iv(2, 0), iv(-1i32, -1i32)],
            [iv(0, 0), iv(1, -1i32), iv(0, -2i32), iv(-1i32, 1)],
            [iv(0, 0), iv(-1i32, -1i32), iv(-2i32, 0), iv(1, 1)],
            [iv(0, 0), iv(-1i32, 1), iv(0, 2), iv(1, -1i32)],
        ],
        RustominoType::S => [
            [iv(0, 0), iv(1, 1), iv(1, -1i32), iv(0, -2i32)],
            [iv(0, 0), iv(1, -1i32), iv(-1i32, -1i32), iv(-2i32, 0)],
            [iv(0, 0), iv(-1i32, -1i32), iv(-1i32, 1), iv(0, 2)],
            [iv(0, 0), iv(-1i32, 1), iv(1, 1), iv(2, 0)],
        ],
        RustominoType::Z => [
            [iv(0, 0), iv(2, 0), iv(1, -1i32), iv(-1i32, -1i32)],
            [iv(0, 0), iv(0, -2i32), iv(-1i32, -1i32), iv(-1i32, 1)],
            [iv(0, 0), iv(-2i32, 0), iv(-1i32, 1), iv(1, 1)],
            [iv(0, 0), iv(0, 2), iv(1, 1), iv(1, -1i32)],
        ],
    }
}

/// The wall kick tests of the J, L, S, T, Z and O pieces, one row per turn:
/// N to E, E to N, E to S, S to E, E to W, W to E, W to N, N to W.
pub open spec fn jlstz_wall_kicks() -> [[IVec2; 5]; 8] {
[
        [iv(0, 0), iv(-1i32, 0), iv(-1i32, 1), iv(0, -2i32), iv(-1i32, -2i32)],
        [iv(0, 0), iv(1, 0), iv(1, -1i32), iv(0, 2), iv(1, 2)],
        [iv(0, 0), iv(1, 0), iv(1, -1i32), iv(0, 2), iv(1, 2)],
        [iv(0, 0), iv(-1i32, 0), iv(-1i32, 1), iv(0, -2i32), iv(-1i32, -2i32)],
        [iv(0, 0), iv(1, 0), iv(1, 1), iv(0, -2i32), iv(1, -2i32)],
        [iv(0, 0), iv(-1i32, 0), iv(-1i32, -1i32), iv(0, 2), iv(-1i32, 2)],
        [iv(0, 0), iv(-1i32, 0), iv(-1i32, -1i32), iv(0, 2), iv(-1i32, 2)],
        [iv(0, 0), iv(1, 0), iv(1, 1), iv(0, -2i32), iv(1, -2i32)],
    ]
}

/// The wall kick tests of the I piece, in the rows of [`jlstz_wall_kicks`].
pub open spec fn i_wall_kicks() -> [[IVec2; 5]; 8] {
[
        [iv(0, 0), iv(-2i32, 0), iv(1, 0), iv(-2i32, -1i32), iv(1, 2)],
        [iv(0, 0), iv(2, 0), iv(-1i32, 0), iv(2, 1), iv(-1i32, -2i32)],
        [iv(0, 0), iv(-1i32, 0), iv(2, 0), iv(-1i32, 2), iv(2, -1i32)],
        [iv(0, 0), iv(1, 0), iv(-2i32, 0), iv(1, -2i32), iv(-2i32, 1)],
        [iv(0, 0), iv(2, 0), iv(-1i32, 0), iv(2, 1), iv(-1i32, -2i32)],
        [iv(0, 0), iv(-2i32, 0), iv(1, 0), iv(-2i32, -1i32), iv(1, 2)],
        [iv(0, 0), iv(1, 0), iv(-2i32, 0), iv(1, -2i32), iv(-2i32, 1)],
        [iv(0, 0), iv(-1i32, 0), iv(2, 0), iv(-1i32, 2), iv(2, -1i32)],
    ]
}

fn start_blocks_of(t: RustominoType) -> (r: [IVec2; 4])
    ensures
        r == start_blocks(t),
{
    match t {
        RustominoType::I => [ivec2(0, 2), ivec2(1, 2), ivec2(2, 2), ivec2(3, 2)],
        RustominoType::O => [ivec2(1, 2), ivec2(2, 2), ivec2(2, 1), ivec2(1, 1)],
        RustominoType::T => [ivec2(1, 1), ivec2(0, 1), ivec2(1, 2), ivec2(2, 1)],
        RustominoType::L => [ivec2(1, 1), ivec2(0, 1), ivec2(2, 2), ivec2(2, 1)],
        RustominoType::J => [ivec2(1, 1), ivec2(0, 1), ivec2(0, 2), ivec2(2, 1)],
        RustominoType::S => [ivec2(1, 1), ivec2(0, 1), ivec2(1, 2), ivec2(2, 2)],
        RustominoType::Z => [ivec2(1, 1), ivec2(0, 2), ivec2(1, 2), ivec2(2, 1)],
    }
}

fn start_translation_of(t: RustominoType) -> (r: IVec2)
    ensures
        r == start_translation(t),
{
    match t {
        RustominoType::I => ivec2(3, 18),
        _ => ivec2(3, 19),
    }
}

fn rotation_table_of(t: RustominoType) -> (r: [[IVec2; 4]; 4])
    ensures
        r == rotation_table(t),
{
    match t {
        RustominoType::I => [
            [ivec2(2, 1), ivec2(1, 0), ivec2(0, -1), ivec2(-1, -2)],
            [ivec2(1, -2), ivec2(0, -1), ivec2(-1, 0), ivec2(-2, 1)],
            [ivec2(-2, -1), ivec2(-1, 0), ivec2(0, 1), ivec2(1, 2)],
            [ivec2(-1, 2), ivec2(0, 1), ivec2(1, 0), ivec2(2, -1)],
        ],
        RustominoType::O => [
            [ivec2(1, 0), ivec2(0, -1), ivec2(-1, 0), ivec2(0, 1)],
            [ivec2(0, -1), ivec2(-1, 0), ivec2(0, 1), ivec2(1, 0)],
            [ivec2(-1, 0), ivec2(0, 1), ivec2(1, 0), ivec2(0, -1)],
            [ivec2(0, 1), ivec2(1, 0), ivec2(0, -1), ivec2(-1, 0)],
        ],
        RustominoType::T => [
            [ivec2(0, 0), ivec2(1, 1), ivec2(1, -1), ivec2(-1, -1)],
            [ivec2(0, 0), ivec2(1, -1), ivec2(-1, -1), ivec2(-1, 1)],
            [ivec2(0, 0), ivec2(-1, -1), ivec2(-1, 1), ivec2(1, 1)],
            [ivec2(0, 0), ivec2(-1, 1), ivec2(1, 1), ivec2(1, -1)],
        ],
        RustominoType::L => [
            [ivec2(0, 0), ivec2(1, 1), ivec2(0, -2), ivec2(-1, -1)],
            [ivec2(0, 0), ivec2(1, -1), ivec2(-2, 0), ivec2(-1, 1)],
            [ivec2(0, 0), ivec2(-1, -1), ivec2(0, 2), ivec2(1, 1)],
            [ivec2(0, 0), ivec2(-1, 1), ivec2(2, 0), ivec2(1, -1)],
        ],
        RustominoType::J => [
            [ivec2(0, 0), ivec2(1, 1), ivec2(2, 0), ivec2(-1, -1)],
            [ivec2(0, 0), ivec2(1, -1), ivec2(0, -2), ivec2(-1, 1)],
            [ivec2(0, 0), ivec2(-1, -1), ivec2(-2, 0), ivec2(1, 1)],
            [ivec2(0, 0), ivec2(-1, 1), ivec2(0, 2), ivec2(1, -1)],
        ],
        RustominoType::S => [
            [ivec2(0, 0), ivec2(1, 1), ivec2(1, -1), ivec2(0, -2)],
            [ivec2(0, 0), ivec2(1, -1), ivec2(-1, -1), ivec2(-2, 0)],
            [ivec2(0, 0), ivec2(-1, -1), ivec2(-1, 1), ivec2(0, 2)],
            [ivec2(0, 0), ivec2(-1, 1), ivec2(1, 1), ivec2(2, 0)],
        ],
        RustominoType::Z => [
            [ivec2(0, 0), ivec2(2, 0), ivec2(1, -1), ivec2(-1, -1)],
            [ivec2(0, 0), ivec2(0, -2), ivec2(-1, -1), ivec2(-1, 1)],
            [ivec2(0, 0), ivec2(-2, 0), ivec2(-1, 1), ivec2(1, 1)],
            [ivec2(0, 0), ivec2(0, 2), ivec2(1, 1), ivec2(1, -1)],
        ],
    }
}

fn jlstz_wall_kick_tests() -> (r: [[IVec2; 5]; 8])
    ensures
        r == jlstz_wall_kicks(),
{
[
        [ivec2(0, 0), ivec2(-1, 0), ivec2(-1, 1), ivec2(0, -2), ivec2(-1, -2)],
        [ivec2(0, 0), ivec2(1, 0), ivec2(1, -1), ivec2(0, 2), ivec2(1, 2)],
        [ivec2(0, 0), ivec2(1, 0), ivec2(1, -1), ivec2(0, 2), ivec2(1, 2)],
        [ivec2(0, 0), ivec2(-1, 0), ivec2(-1, 1), ivec2(0, -2), ivec2(-1, -2)],
        [ivec2(0, 0), ivec2(1, 0), ivec2(1, 1), ivec2(0, -2), ivec2(1, -2)],
        [ivec2(0, 0), ivec2(-1, 0), ivec2(-1, -1), ivec2(0, 2), ivec2(-1, 2)],
        [ivec2(0, 0), ivec2(-1, 0), ivec2(-1, -1), ivec2(0, 2), ivec2(-1, 2)],
        [ivec2(0, 0), ivec2(1, 0), ivec2(1, 1), ivec2(0, -2), ivec2(1, -2)],
    ]
}

fn i_wall_kick_tests() -> (r: [[IVec2; 5]; 8])
    ensures
        r == i_wall_kicks(),
{
[
        [ivec2(0, 0), ivec2(-2, 0), ivec2(1, 0), ivec2(-2, -1), ivec2(1, 2)],
        [ivec2(0, 0), ivec2(2, 0), ivec2(-1, 0), ivec2(2, 1), ivec2(-1, -2)],
        [ivec2(0, 0), ivec2(-1, 0), ivec2(2, 0), ivec2(-1, 2), ivec2(2, -1)],
        [ivec2(0, 0), ivec2(1, 0), ivec2(-2, 0), ivec2(1, -2), ivec2(-2, 1)],
        [ivec2(0, 0), ivec2(2, 0), ivec2(-1, 0), ivec2(2, 1), ivec2(-1, -2)],
        [ivec2(0, 0), ivec2(-2, 0), ivec2(1, 0), ivec2(-2, -1), ivec2(1, 2)],
        [ivec2(0, 0), ivec2(1, 0), ivec2(-2, 0), ivec2(1, -2), ivec2(-2, 1)],
        [ivec2(0, 0), ivec2(-1, 0), ivec2(2, 0), ivec2(-1, 2), ivec2(2, -1)],
    ]
}

/// The time a piece has spent in its current state, in microseconds.
#[derive(Debug, Clone, Copy, PartialEq, Eq, Structural)]
pub enum RustominoState {
    Falling { time: u64 },
    Lockdown { time: u64 },
}

impl crate::util::Variant for RustominoState {
    open spec fn variant(&self) -> nat {
        match self {
            RustominoState::Falling { .. } => 0,
            RustominoState::Lockdown { .. } => 1,
        }
    }

    fn variant_index(&self) -> (r: u8) {
        match self {
            RustominoState::Falling { .. } => 0,
            RustominoState::Lockdown { .. } => 1,
        }
    }
}

/// The four orientations of a piece.
#[derive(Debug, Clone, Copy, PartialEq, Eq, Structural)]
pub enum Direction {
    N,
    E,
    S,
    W,
}

/// A quarter turn, clockwise or counter-clockwise.
#[derive(Debug, Clone, Copy, PartialEq, Eq, Structural)]
pub enum Rotation {
    Cw,
    Ccw,
}

impl Direction {
    /// The orientation after a quarter turn.
    pub open spec fn turned(self, rotation: Rotation) -> Direction {
        match self {
            Direction::N => match rotation {
                Rotation::Cw => Direction::E,
                Rotation::Ccw => Direction::W,
            },
            Direction::E => match rotation {
                Rotation::Cw => Direction::S,
                Rotation::Ccw => Direction::N,
            },
            Direction::S => match rotation {
                Rotation::Cw => Direction::W,
                Rotation::Ccw => Direction::E,
            },
            Direction::W => match rotation {
                Rotation::Cw => Direction::N,
                Rotation::Ccw => Direction::S,
            },
        }
    }

    fn rotate(&self, rotation: &Rotation) -> (r: Direction)
        ensures
            r == self.turned(*rotation),
    {
        match self {
            Direction::N => match rotation {
                Rotation::Cw => Direction::E,
                Rotation::Ccw => Direction::W,
            },
            Direction::E => match rotation {
                Rotation::Cw => Direction::S,
                Rotation::Ccw => Direction::N,
            },
            Direction::S => match rotation {
                Rotation::Cw => Direction::W,
                Rotation::Ccw => Direction::E,
            },
            Direction::W => match rotation {
                Rotation::Cw => Direction::N,
                Rotation::Ccw => Direction::S,
            },
        }
    }
}

/// The row of the wall kick tables for a turn from `facing`.
pub open spec fn kick_row(facing: Direction, rotation: Rotation) -> int {
    match facing {
        Direction::N => match rotation {
            Rotation::Cw => 0,
            Rotation::Ccw => 7,
        },
        Direction::E => match rotation {
            Rotation::Cw => 2,
            Rotation::Ccw => 1,
        },
        Direction::S => match rotation {
            Rotation::Cw => 4,
            Rotation::Ccw => 3,
        },
        Direction::W => match rotation {
            Rotation::Cw => 6,
            Rotation::Ccw => 5,
        },
    }
}

/// The orientation of a piece together with its rotation table.
#[derive(Debug, Clone, Copy)]
pub struct RustominoRotation {
    direction: Direction,
    n2e_trans: [IVec2; 4],
    e2s_trans: [IVec2; 4],
    s2w_trans: [IVec2; 4],
    w2n_trans: [IVec2; 4],
}

impl RustominoRotation {
    /// The orientation.
    pub closed spec fn facing(self) -> Direction {
        self.direction
    }

    /// The clockwise turn offsets, N to E first.
    pub closed spec fn table(self) -> [[IVec2; 4]; 4] {
        [self.n2e_trans, self.e2s_trans, self.s2w_trans, self.w2n_trans]
    }

    /// Facing north with the given table.
    pub closed spec fn initial(values: [[IVec2; 4]; 4]) -> RustominoRotation {
        RustominoRotation {
            direction: Direction::N,
            n2e_trans: values[0],
            e2s_trans: values[1],
            s2w_trans: values[2],
            w2n_trans: values[3],
        }
    }

    /// The same table after a quarter turn.
    pub closed spec fn turned(self, rotation: Rotation) -> RustominoRotation {
        RustominoRotation { direction: self.direction.turned(rotation), ..self }
    }

    /// The block offsets of a quarter turn from the current orientation:
    /// a clockwise turn adds the offsets of that turn, a counter-clockwise
    /// turn subtracts those of the clockwise turn it undoes.
    pub open spec fn offsets(self, rotation: Rotation) -> [IVec2; 4] {
        let table = self.table();
        match self.facing() {
            Direction::N => match rotation {
                Rotation::Cw => table[0],
                Rotation::Ccw => negated4(table[3]),
            },
            Direction::E => match rotation {
                Rotation::Cw => table[1],
                Rotation::Ccw => negated4(table[0]),
            },
            Direction::S => match rotation {
                Rotation::Cw => table[2],
                Rotation::Ccw => negated4(table[1]),
            },
            Direction::W => match rotation {
                Rotation::Cw => table[3],
                Rotation::Ccw => negated4(table[2]),
            },
        }
    }

    /// The wall kick tests of a quarter turn from the current orientation.
    pub open spec fn kick_tests(self, rtype: RustominoType, rotation: Rotation) -> [IVec2; 5] {
        if rtype == RustominoType::I {
            i_wall_kicks()[kick_row(self.facing(), rotation)]
        } else {
            jlstz_wall_kicks()[kick_row(self.facing(), rotation)]
        }
    }

    fn new(values: [[IVec2; 4]; 4]) -> (r: Self)
        ensures
            r == RustominoRotation::initial(values),
    {
        Self {
            direction: Direction::N,
            n2e_trans: values[0],
            e2s_trans: values[1],
            s2w_trans: values[2],
            w2n_trans: values[3],
        }
    }

    fn get_rotation_trans(&self, rotation: &Rotation) -> (r: [IVec2; 4])
        ensures
            r == self.offsets(*rotation),
    {
        match self.direction {
            Direction::N => match rotation {
                Rotation::Cw => self.n2e_trans,
                Rotation::Ccw => neg_trans(self.w2n_trans),
            },
            Direction::E => match rotation {
                Rotation::Cw => self.e2s_trans,
                Rotation::Ccw => neg_trans(self.n2e_trans),
            },
            Direction::S => match rotation {
                Rotation::Cw => self.s2w_trans,
                Rotation::Ccw => neg_trans(self.e2s_trans),
            },
            Direction::W => match rotation {
                Rotation::Cw => self.w2n_trans,
                Rotation::Ccw => neg_trans(self.s2w_trans),
            },
        }
    }

    fn get_wall_kick_tests(&self, rtype: RustominoType, rotation: &Rotation) -> (r: [IVec2; 5])
        ensures
            r == self.kick_tests(rtype, *rotation),
    {
        let i_tests = i_wall_kick_tests();
        let jlstz_tests = jlstz_wall_kick_tests();
        match self.direction {
            Direction::N => match rotation {
                Rotation::Cw => match rtype {
                    RustominoType::I => i_tests[0],
                    _ => jlstz_tests[0],
                },
                Rotation::Ccw => match rtype {
                    RustominoType::I => i_tests[7],
                    _ => jlstz_tests[7],
                },
            },
            Direction::E => match rotation {
                Rotation::Cw => match rtype {
                    RustominoType::I => i_tests[2],
                    _ => jlstz_tests[2],
                },
                Rotation::Ccw => match rtype {
                    RustominoType::I => i_tests[1],
                    _ => jlstz_tests[1],
                },
            },
            Direction::S => match rotation {
                Rotation::Cw => match rtype {
                    RustominoType::I => i_tests[4],
                    _ => jlstz_tests[4],
                },
                Rotation::Ccw => match rtype {
                    RustominoType::I => i_tests[3],
                    _ => jlstz_tests[3],
                },
            },
            Direction::W => match rotation {
                Rotation::Cw => match rtype {
                    RustominoType::I => i_tests[6],
                    _ => jlstz_tests[6],
                },
                Rotation::Ccw => match rtype {
                    RustominoType::I => i_tests[5],
                    _ => jlstz_tests[5],
                },
            },
        }
    }

    fn rotate(&mut self, rotation: &Rotation)
        ensures
            *final(self) == old(self).turned(*rotation),
    {
        self.direction = self.direction.rotate(rotation)
    }
}

/// A piece: its type, its falling or lockdown state, its orientation, its four
/// blocks relative to `translation`, and `translation` itself.
#[derive(Debug, Clone, Copy)]
pub struct Rustomino {
    pub rtype: RustominoType,
    pub state: RustominoState,
    pub rotation: RustominoRotation,
    pub blocks: [IVec2; 4],
    pub translation: IVec2,
}

impl Rustomino {
    /// A piece of type `t` at its spawn position, facing north, falling for no time yet.
    pub open spec fn spec_new(t: RustominoType) -> Rustomino {
        Rustomino {
            rtype: t,
            state: RustominoState::Falling { time: 0 },
            rotation: RustominoRotation::initial(rotation_table(t)),
            blocks: start_blocks(t),
            translation: start_translation(t),
        }
    }

    /// The playfield cells the piece covers.
    pub open spec fn cells(self) -> [IVec2; 4] {
        shift(self.blocks, self.translation)
    }

    /// The piece with its translation moved by `d`.
    pub open spec fn moved(self, d: IVec2) -> Rustomino {
        Rustomino { translation: self.translation.plus(d), ..self }
    }

    /// The piece after a quarter turn whose blocks are further moved by `kick`.
    pub open spec fn turned(self, rotation: Rotation, kick: IVec2) -> Rustomino {
        let o = self.rotation.offsets(rotation);
        Rustomino {
            rotation: self.rotation.turned(rotation),
            blocks: [
                self.blocks[0].plus(o[0]).plus(kick),
                self.blocks[1].plus(o[1]).plus(kick),
                self.blocks[2].plus(o[2]).plus(kick),
                self.blocks[3].plus(o[3]).plus(kick),
            ],
            ..self
        }
    }

    /// The cells the piece would cover after a quarter turn with no kick.
    pub open spec fn turned_cells(self, rotation: Rotation) -> [IVec2; 4] {
        let o = self.rotation.offsets(rotation);
        [
            self.blocks[0].plus(self.translation).plus(o[0]),
            self.blocks[1].plus(self.translation).plus(o[1]),
            self.blocks[2].plus(self.translation).plus(o[2]),
            self.blocks[3].plus(self.translation).plus(o[3]),
        ]
    }

    /// The wall kick tests of a quarter turn from the piece's orientation.
    pub open spec fn kicks(self, rotation: Rotation) -> [IVec2; 5] {
        self.rotation.kick_tests(self.rtype, rotation)
    }

    /// A new piece of the given type at its spawn position.
    pub fn new(block_type: RustominoType) -> (r: Rustomino)
        ensures
            r == Rustomino::spec_new(block_type),
    {
        Rustomino {
            rtype: block_type,
            state: RustominoState::Falling { time: 0 },
            rotation: RustominoRotation::new(rotation_table_of(block_type)),
            blocks: start_blocks_of(block_type),
            translation: start_translation_of(block_type),
        }
    }

    /// A new piece of the same type at its spawn position.
    pub fn reset(self) -> (r: Rustomino)
        ensures
            r == Rustomino::spec_new(self.rtype),
    {
        Rustomino::new(self.rtype)
    }

    /// Moves the piece by `delta`.
    pub fn translate(&mut self, delta: IVec2)
        ensures
            *final(self) == old(self).moved(delta),
    {
        self.translation = self.translation.plus(delta);
    }

    /// The cells the piece would cover if it were moved by `delta`.
    pub fn translated(&self, delta: &IVec2) -> (r: [IVec2; 4])
        ensures
            r == shift(self.cells(), *delta),
    {
        translated(&translated(&self.blocks, &self.translation), delta)
    }

    /// The cells the piece covers.
    pub fn playfield_slots(&self) -> (r: [IVec2; 4])
        ensures
            r == self.cells(),
    {
        let zero = IVec2::zero();
        let r = self.translated(&zero);
        assert(r =~= self.cells());
        r
    }

    /// Turns the piece a quarter and moves its blocks by `translation`.
    pub fn rotate(&mut self, rotation: &Rotation, translation: &IVec2)
        ensures
            *final(self) == old(self).turned(*rotation, *translation),
    {
        let rotation_trans = self.rotation.get_rotation_trans(rotation);
        self.blocks = [
            self.blocks[0].plus(rotation_trans[0]).plus(*translation),
            self.blocks[1].plus(rotation_trans[1]).plus(*translation),
            self.blocks[2].plus(rotation_trans[2]).plus(*translation),
            self.blocks[3].plus(rotation_trans[3]).plus(*translation),
        ];
        self.rotation.rotate(rotation);
    }

    /// The cells the piece would cover after a quarter turn with no kick.
    pub fn rotated(&self, rotation: &Rotation) -> (r: [IVec2; 4])
        ensures
            r == self.turned_cells(*rotation),
    {
        let rotation = self.rotation.get_rotation_trans(rotation);
        [
            self.blocks[0].plus(self.translation).plus(rotation[0]),
            self.blocks[1].plus(self.translation).plus(rotation[1]),
            self.blocks[2].plus(self.translation).plus(rotation[2]),
            self.blocks[3].plus(self.translation).plus(rotation[3]),
        ]
    }

    /// The wall kick tests of a quarter turn from the piece's orientation.
    pub fn wall_kick_tests(&self, rotation: &Rotation) -> (r: [IVec2; 5])
        ensures
            r == self.kicks(*rotation),
    {
        self.rotation.get_wall_kick_tests(self.rtype, rotation)
    }

    /// Replaces the piece's state.
    pub fn set_state(&mut self, state: RustominoState)
        ensures
            *final(self) == (Rustomino { state, ..*old(self) }),
    {
        self.state = state;
    }
}

#[verifier::external_type_specification]
#[verifier::external_body]
pub struct ExXoshiro256PlusPlus(Xoshiro256PlusPlus);

/// `Xoshiro256PlusPlus::seed_from_u64` (rand_core's `SeedableRng`, as
/// rand_xoshiro implements it): a generator whose state is expanded from
/// `seed` with SplitMix64. It reads nothing from the system and never fails.
/// Nothing is stated of the state, which is opaque here.
#[verifier::external_body]
fn rng_from_seed(seed: u64) -> Xoshiro256PlusPlus {
    Xoshiro256PlusPlus::seed_from_u64(seed)
}

/// `SliceRandom::shuffle` (rand): a Fisher-Yates shuffle of the vector in place,
/// drawing from `rng`. The elements are only swapped, so the vector keeps its
/// multiset of elements; which order comes out depends on the generator's state
/// and is not stated, nor is the generator's new state.
#[verifier::external_body]
fn shuffle_types(bag: &mut Vec<RustominoType>, rng: &mut Xoshiro256PlusPlus)
    ensures
        final(bag)@.to_multiset() == old(bag)@.to_multiset(),
{
    bag.shuffle(rng);
}

/// The seven-piece bag: it holds the types still to be dealt in the current
/// round and refills with all seven, shuffled, when it runs empty.
pub struct RustominoBag {
    bag: Vec<RustominoType>,
    rng: Xoshiro256PlusPlus,
}

/// A fresh round: every piece type, in some order.
pub open spec fn is_refill(s: Seq<RustominoType>) -> bool {
    s.to_multiset() == all_types().to_multiset()
}

/// Dealing `t` from a bag holding `before` leaves `after` in it: the last type
/// when the bag holds any, else one of a refill.
pub open spec fn deal(before: Seq<RustominoType>, after: Seq<RustominoType>, t: RustominoType) -> bool {
    if before.len() > 0 {
        t == before.last() && after == before.drop_last()
    } else {
        is_refill(after.push(t))
    }
}

impl RustominoBag {
    /// The types still to be dealt, the next one last.
    pub closed spec fn contents(&self) -> Seq<RustominoType> {
        self.bag@
    }

    /// No type is held twice.
    pub closed spec fn wf(&self) -> bool {
        self.bag@.no_duplicates()
    }

    /// An empty bag whose shuffles draw from a generator seeded with `seed`.
    pub fn new(seed: u64) -> (r: Self)
        ensures
            r.wf(),
            r.contents() == Seq::<RustominoType>::empty(),
    {
        RustominoBag { bag: Vec::new(), rng: rng_from_seed(seed) }
    }

    /// Empties the bag for a new game; the generator goes on where it was.
    pub fn clear(&mut self)
        ensures
            final(self).wf(),
            final(self).contents() == Seq::<RustominoType>::empty(),
    {
        self.bag = Vec::new();
    }

    /// Deals the next piece, refilling the bag first when it is empty.
    pub fn get_rustomino(&mut self) -> (r: Rustomino)
        requires
            old(self).wf(),
        ensures
            final(self).wf(),
            r == Rustomino::spec_new(r.rtype),
            !final(self).contents().contains(r.rtype),
            old(self).contents().len() > 0 ==> r.rtype == old(self).contents().last()
                && final(self).contents() == old(self).contents().drop_last(),
            old(self).contents().len() == 0 ==> is_refill(final(self).contents().push(r.rtype)),
            deal(old(self).contents(), final(self).contents(), r.rtype),
    {
        // make sure the bag isn't empty
        self.fill_rustomino_bag();
        proof {
            if old(self).bag@.len() == 0 {
                lemma_refill_deals_each_type_once(self.bag@);
            }
        }
        let ghost before = self.bag@;
        let rtype = match self.bag.pop() {
            Some(t) => t,
            None => {
                assert(false);
                RustominoType::I
            },
        };
        proof {
            assert(before == self.bag@.push(rtype));
            assert(before.last() == rtype);
            if self.bag@.contains(rtype) {
                let k = choose|k: int| 0 <= k < self.bag@.len() && self.bag@[k] == rtype;
                assert(before[k] == before[before.len() - 1]);
            }
        }
        Rustomino::new(rtype)
    }

    // add one of each rustomino type to bag
    // then shuffle the bag
    fn fill_rustomino_bag(&mut self)
        requires
            old(self).wf(),
        ensures
            final(self).wf(),
            old(self).bag@.len() > 0 ==> final(self).bag@ == old(self).bag@,
            old(self).bag@.len() == 0 ==> is_refill(final(self).bag@),
    {
        if !self.bag.is_empty() {
            return;
        }
        let mut all = all_types_vec();
        self.bag.append(&mut all);
        assert(self.bag@ =~= all_types());
        shuffle_types(&mut self.bag, &mut self.rng);
        proof {
            lemma_refill_deals_each_type_once(self.bag@);
        }
    }
}

/// A refilled bag holds each of the seven piece types exactly once.
pub proof fn lemma_refill_deals_each_type_once(s: Seq<RustominoType>)
    requires
        is_refill(s),
    ensures
        s.len() == 7,
        s.no_duplicates(),
        forall|t: RustominoType| s.contains(t),
{
    broadcast use vstd::seq_lib::group_to_multiset_ensures;
    let a = all_types();
    assert(a.no_duplicates());
    a.lemma_multiset_has_no_duplicates();
    assert(s.len() == s.to_multiset().len());
    assert(a.len() == a.to_multiset().len());
    assert forall|x: RustominoType| s.to_multiset().contains(x) implies s.to_multiset().count(x) == 1 by {
        assert(a.to_multiset().contains(x));
    }
    s.lemma_multiset_has_no_duplicates_conv();
    assert forall|t: RustominoType| s.contains(t) by {
        let i: int = match t {
            RustominoType::I => 0,
            RustominoType::O => 1,
            RustominoType::T => 2,
            RustominoType::L => 3,
            RustominoType::J => 4,
            RustominoType::S => 5,
            RustominoType::Z => 6,
        };
        assert(a[i] == t);
        assert(a.contains(t));
        assert(a.to_multiset().count(t) > 0);
    }
}

/// The `j`-th round of seven deals.
pub open spec fn round(ts: Seq<RustominoType>, j: int) -> Seq<RustominoType> {
    ts.subrange(7 * j, 7 * j + 7)
}

/// Within a round that starts from an empty bag, the bag after `i` deals is
/// the refill's first `7 - i` types, and the `j`-th deal took its type
/// `6 - j`.
proof fn lemma_round_step(
    bags: Seq<Seq<RustominoType>>,
    ts: Seq<RustominoType>,
    o: int,
    r: Seq<RustominoType>,
    i: int,
)
    requires
        0 <= o,
        o + 8 <= bags.len(),
        o + 7 <= ts.len(),
        1 <= i <= 7,
        r.len() == 7,
        bags[o + 1] == r.take(6),
        ts[o] == r[6],
        forall|k: int| o <= k < o + 7 ==> deal(bags[k], bags[k + 1], #[trigger] ts[k]),
    ensures
        bags[o + i] == r.take(7 - i),
        forall|m: int| o <= m < o + i ==> #[trigger] ts[m] == r[6 - (m - o)],
    decreases i,
{
    if i > 1 {
        lemma_round_step(bags, ts, o, r, i - 1);
        let b = bags[o + i - 1];
        assert(deal(bags[o + i - 1], bags[o + i], ts[o + i - 1]));
        assert(b.len() == 8 - i);
        assert(b.last() == r[7 - i]);
        assert(b.drop_last() =~= r.take(7 - i));
    }
}

/// Seven deals from an empty bag hand out each of the seven types once and
/// leave the bag empty again.
proof fn lemma_one_round(bags: Seq<Seq<RustominoType>>, ts: Seq<RustominoType>, o: int)
    requires
        0 <= o,
        o + 8 <= bags.len(),
        o + 7 <= ts.len(),
        bags[o].len() == 0,
        forall|k: int| o <= k < o + 7 ==> deal(bags[k], bags[k + 1], #[trigger] ts[k]),
    ensures
        ts.subrange(o, o + 7).len() == 7,
        ts.subrange(o, o + 7).no_duplicates(),
        forall|t: RustominoType| #[trigger] ts.subrange(o, o + 7).contains(t),
        bags[o + 7].len() == 0,
{
    assert(deal(bags[o], bags[o + 1], ts[o]));
    let r = bags[o + 1].push(ts[o]);
    lemma_refill_deals_each_type_once(r);
    assert(bags[o + 1] =~= r.take(6));
    lemma_round_step(bags, ts, o, r, 7);
    let s = ts.subrange(o, o + 7);
    assert forall|a: int, b: int| 0 <= a < 7 && 0 <= b < 7 && a != b implies s[a] != s[b] by {
        assert(s[a] == ts[o + a]);
        assert(s[b] == ts[o + b]);
    }
    assert forall|t: RustominoType| s.contains(t) by {
        assert(r.contains(t));
        let m = choose|m: int| 0 <= m < 7 && r[m] == t;
        assert(s[6 - m] == ts[o + 6 - m]);
    }
}

/// The bag deals every piece type once per round: dealing from a new, empty
/// bag, each run of seven deals counted from the start is an ordering of the
/// seven types, and the bag is empty again after each run.
pub proof fn lemma_bag_rounds(bags: Seq<Seq<RustominoType>>, ts: Seq<RustominoType>, k: nat)
    requires
        bags.len() == 7 * k + 1,
        ts.len() == 7 * k,
        bags[0].len() == 0,
        forall|i: int| 0 <= i < ts.len() ==> deal(bags[i], bags[i + 1], #[trigger] ts[i]),
    ensures
        forall|j: int|
            0 <= j < k ==> {
                &&& (#[trigger] round(ts, j)).len() == 7
                &&& round(ts, j).no_duplicates()
                &&& forall|t: RustominoType| #[trigger] round(ts, j).contains(t)
            },
        bags[7 * k as int].len() == 0,
    decreases k,
{
    if k > 0 {
        let k1 = (k - 1) as nat;
        let o: int = 7 * (k1 as int);
        let bags1 = bags.take(o + 1);
        let ts1 = ts.take(o);
        assert forall|i: int| 0 <= i < ts1.len() implies deal(bags1[i], bags1[i + 1], #[trigger] ts1[i]) by {
            assert(deal(bags[i], bags[i + 1], ts[i]));
        }
        lemma_bag_rounds(bags1, ts1, k1);
        assert(bags[o] == bags1[o]);
        lemma_one_round(bags, ts, o);
        assert forall|j: int| 0 <= j < k implies {
            &&& (#[trigger] round(ts, j)).len() == 7
            &&& round(ts, j).no_duplicates()
            &&& forall|t: RustominoType| #[trigger] round(ts, j).contains(t)
        } by {
            if j < k1 {
                assert(round(ts, j) =~= round(ts1, j));
            } else {
                assert(j == k1);
                assert(round(ts, j) =~= ts.subrange(o, o + 7));
            }
        }
    }
}

/// Dealing from a new, empty bag, the bag holds `6 - (i - 1) % 7` types
/// after the `i`-th deal: a refill of seven, then one fewer with each deal.
pub proof fn lemma_bag_sizes(bags: Seq<Seq<RustominoType>>, ts: Seq<RustominoType>)
    requires
        bags.len() == ts.len() + 1,
        bags[0].len() == 0,
        forall|i: int| 0 <= i < ts.len() ==> deal(bags[i], bags[i + 1], #[trigger] ts[i]),
    ensures
        forall|i: int| 1 <= i <= ts.len() ==> (#[trigger] bags[i]).len() == 6 - (i - 1) % 7,
    decreases ts.len(),
{
    if ts.len() > 0 {
        let n = ts.len() - 1;
        let bags1 = bags.take(n + 1);
        let ts1 = ts.take(n);
        assert forall|i: int| 0 <= i < ts1.len() implies deal(bags1[i], bags1[i + 1], #[trigger] ts1[i]) by {
            assert(deal(bags[i], bags[i + 1], ts[i]));
        }
        lemma_bag_sizes(bags1, ts1);
        assert(deal(bags[n], bags[n + 1], ts[n]));
        if bags[n].len() == 0 {
            lemma_refill_deals_each_type_once(bags[n + 1].push(ts[n]));
            if n > 0 {
                assert(bags1[n] == bags[n]);
                assert(bags[n].len() == 6 - (n - 1) % 7);
            }
        } else {
            assert(n > 0);
            assert(bags1[n] == bags[n]);
        }
        assert forall|i: int| 1 <= i <= ts.len() implies (#[trigger] bags[i]).len() == 6 - (i - 1) % 7 by {
            if i <= n {
                assert(bags1[i] == bags[i]);
            }
        }
    }
}

/// The size less one of the box a piece turns in: four by four for the I and
/// O pieces, three by three for the others.
pub open spec fn box_span(t: RustominoType) -> int {
    match t {
        RustominoType::I | RustominoType::O => 3,
        _ => 2,
    }
}

/// Block `b` of a piece of type `t` turned a quarter clockwise about the
/// centre of the piece's box.
pub open spec fn quarter_cw(t: RustominoType, b: IVec2) -> IVec2 {
    iv(b.y, (box_span(t) - b.x) as i32)
}

/// Block `b` of a piece of type `t` turned a quarter counter-clockwise about
/// the centre of the piece's box.
pub open spec fn quarter_ccw(t: RustominoType, b: IVec2) -> IVec2 {
    iv((box_span(t) - b.y) as i32, b.x)
}

/// Each block of a piece of type `t` turned a quarter clockwise in its box.
pub open spec fn quarter_cw4(t: RustominoType, bs: [IVec2; 4]) -> [IVec2; 4] {
    [quarter_cw(t, bs[0]), quarter_cw(t, bs[1]), quarter_cw(t, bs[2]), quarter_cw(t, bs[3])]
}

/// Each block of a piece of type `t` turned a quarter counter-clockwise in its box.
pub open spec fn quarter_ccw4(t: RustominoType, bs: [IVec2; 4]) -> [IVec2; 4] {
    [quarter_ccw(t, bs[0]), quarter_ccw(t, bs[1]), quarter_ccw(t, bs[2]), quarter_ccw(t, bs[3])]
}

/// A quarter turn with no kick turns every block of the piece about the
/// centre of its box: clockwise, block `(x, y)` goes to `(y, s - x)`, and
/// counter-clockwise to `(s - y, x)`, where `s` is 3 for the I and O pieces
/// and 2 for the others. This holds in each of the four orientations of every
/// type, reached by clockwise turns from the spawn orientation.
pub proof fn lemma_turns_rotate_about_the_box(t: RustominoType)
    ensures
        ({
            let r0 = Rustomino::spec_new(t);
            let r1 = r0.turned(Rotation::Cw, iv(0, 0));
            let r2 = r1.turned(Rotation::Cw, iv(0, 0));
            let r3 = r2.turned(Rotation::Cw, iv(0, 0));
            &&& r1.blocks == quarter_cw4(t, r0.blocks)
            &&& r2.blocks == quarter_cw4(t, r1.blocks)
            &&& r3.blocks == quarter_cw4(t, r2.blocks)
            &&& r3.turned(Rotation::Cw, iv(0, 0)).blocks == quarter_cw4(t, r3.blocks)
            &&& r0.turned(Rotation::Ccw, iv(0, 0)).blocks == quarter_ccw4(t, r0.blocks)
            &&& r1.turned(Rotation::Ccw, iv(0, 0)).blocks == quarter_ccw4(t, r1.blocks)
            &&& r2.turned(Rotation::Ccw, iv(0, 0)).blocks == quarter_ccw4(t, r2.blocks)
            &&& r3.turned(Rotation::Ccw, iv(0, 0)).blocks == quarter_ccw4(t, r3.blocks)
        }),
{
    match t {
        RustominoType::I => lemma_turns_rotate_i(t),
        RustominoType::O => lemma_turns_rotate_o(t),
        RustominoType::T => lemma_turns_rotate_t(t),
        RustominoType::L => lemma_turns_rotate_l(t),
        RustominoType::J => lemma_turns_rotate_j(t),
        RustominoType::S => lemma_turns_rotate_s(t),
        RustominoType::Z => lemma_turns_rotate_z(t),
    }
}

/// `lemma_turns_rotate_about_the_box` for the I piece.
#[verifier::spinoff_prover]
#[verifier::rlimit(60)]
proof fn lemma_turns_rotate_i(t: RustominoType)
    requires
        t == RustominoType::I,
    ensures
        ({
            let r0 = Rustomino::spec_new(t);
            let r1 = r0.turned(Rotation::Cw, iv(0, 0));
            let r2 = r1.turned(Rotation::Cw, iv(0, 0));
            let r3 = r2.turned(Rotation::Cw, iv(0, 0));
            &&& r1.blocks == quarter_cw4(t, r0.blocks)
            &&& r2.blocks == quarter_cw4(t, r1.blocks)
            &&& r3.blocks == quarter_cw4(t, r2.blocks)
            &&& r3.turned(Rotation::Cw, iv(0, 0)).blocks == quarter_cw4(t, r3.blocks)
            &&& r0.turned(Rotation::Ccw, iv(0, 0)).blocks == quarter_ccw4(t, r0.blocks)
            &&& r1.turned(Rotation::Ccw, iv(0, 0)).blocks == quarter_ccw4(t, r1.blocks)
            &&& r2.turned(Rotation::Ccw, iv(0, 0)).blocks == quarter_ccw4(t, r2.blocks)
            &&& r3.turned(Rotation::Ccw, iv(0, 0)).blocks == quarter_ccw4(t, r3.blocks)
        }),
{
    let r0 = Rustomino::spec_new(t);
    let r1 = r0.turned(Rotation::Cw, iv(0, 0));
    let r2 = r1.turned(Rotation::Cw, iv(0, 0));
    let r3 = r2.turned(Rotation::Cw, iv(0, 0));
    lemma_direction_turns(Direction::N);
    assert(r1.blocks =~= quarter_cw4(t, r0.blocks));
    assert(r2.blocks =~= quarter_cw4(t, r1.blocks));
    assert(r3.blocks =~= quarter_cw4(t, r2.blocks));
    assert(r3.turned(Rotation::Cw, iv(0, 0)).blocks =~= quarter_cw4(t, r3.blocks));
    assert(r0.turned(Rotation::Ccw, iv(0, 0)).blocks =~= quarter_ccw4(t, r0.blocks));
    assert(r1.turned(Rotation::Ccw, iv(0, 0)).blocks =~= quarter_ccw4(t, r1.blocks));
    assert(r2.turned(Rotation::Ccw, iv(0, 0)).blocks =~= quarter_ccw4(t, r2.blocks));
    assert(r3.turned(Rotation::Ccw, iv(0, 0)).blocks =~= quarter_ccw4(t, r3.blocks));
}

/// `lemma_turns_rotate_about_the_box` for the O piece.
#[verifier::spinoff_prover]
#[verifier::rlimit(60)]
proof fn lemma_turns_rotate_o(t: RustominoType)
    requires
        t == RustominoType::O,
    ensures
        ({
            let r0 = Rustomino::spec_new(t);
            let r1 = r0.turned(Rotation::Cw, iv(0, 0));
            let r2 = r1.turned(Rotation::Cw, iv(0, 0));
            let r3 = r2.turned(Rotation::Cw, iv(0, 0));
            &&& r1.blocks == quarter_cw4(t, r0.blocks)
            &&& r2.blocks == quarter_cw4(t, r1.blocks)
            &&& r3.blocks == quarter_cw4(t, r2.blocks)
            &&& r3.turned(Rotation::Cw, iv(0, 0)).blocks == quarter_cw4(t, r3.blocks)
            &&& r0.turned(Rotation::Ccw, iv(0, 0)).blocks == quarter_ccw4(t, r0.blocks)
            &&& r1.turned(Rotation::Ccw, iv(0, 0)).blocks == quarter_ccw4(t, r1.blocks)
            &&& r2.turned(Rotation::Ccw, iv(0, 0)).blocks == quarter_ccw4(t, r2.blocks)
            &&& r3.turned(Rotation::Ccw, iv(0, 0)).blocks == quarter_ccw4(t, r3.blocks)
        }),
{
    let r0 = Rustomino::spec_new(t);
    let r1 = r0.turned(Rotation::Cw, iv(0, 0));
    let r2 = r1.turned(Rotation::Cw, iv(0, 0));
    let r3 = r2.turned(Rotation::Cw, iv(0, 0));
    lemma_direction_turns(Direction::N);
    assert(r1.blocks =~= quarter_cw4(t, r0.blocks));
    assert(r2.blocks =~= quarter_cw4(t, r1.blocks));
    assert(r3.blocks =~= quarter_cw4(t, r2.blocks));
    assert(r3.turned(Rotation::Cw, iv(0, 0)).blocks =~= quarter_cw4(t, r3.blocks));
    assert(r0.turned(Rotation::Ccw, iv(0, 0)).blocks =~= quarter_ccw4(t, r0.blocks));
    assert(r1.turned(Rotation::Ccw, iv(0, 0)).blocks =~= quarter_ccw4(t, r1.blocks));
    assert(r2.turned(Rotation::Ccw, iv(0, 0)).blocks =~= quarter_ccw4(t, r2.blocks));
    assert(r3.turned(Rotation::Ccw, iv(0, 0)).blocks =~= quarter_ccw4(t, r3.blocks));
}

/// `lemma_turns_rotate_about_the_box` for the T piece.
#[verifier::spinoff_prover]
#[verifier::rlimit(60)]
proof fn lemma_turns_rotate_t(t: RustominoType)
    requires
        t == RustominoType::T,
    ensures
        ({
            let r0 = Rustomino::spec_new(t);
            let r1 = r0.turned(Rotation::Cw, iv(0, 0));
            let r2 = r1.turned(Rotation::Cw, iv(0, 0));
            let r3 = r2.turned(Rotation::Cw, iv(0, 0));
            &&& r1.blocks == quarter_cw4(t, r0.blocks)
            &&& r2.blocks == quarter_cw4(t, r1.blocks)
            &&& r3.blocks == quarter_cw4(t, r2.blocks)
            &&& r3.turned(Rotation::Cw, iv(0, 0)).blocks == quarter_cw4(t, r3.blocks)
            &&& r0.turned(Rotation::Ccw, iv(0, 0)).blocks == quarter_ccw4(t, r0.blocks)
            &&& r1.turned(Rotation::Ccw, iv(0, 0)).blocks == quarter_ccw4(t, r1.blocks)
            &&& r2.turned(Rotation::Ccw, iv(0, 0)).blocks == quarter_ccw4(t, r2.blocks)
            &&& r3.turned(Rotation::Ccw, iv(0, 0)).blocks == quarter_ccw4(t, r3.blocks)
        }),
{
    let r0 = Rustomino::spec_new(t);
    let r1 = r0.turned(Rotation::Cw, iv(0, 0));
    let r2 = r1.turned(Rotation::Cw, iv(0, 0));
    let r3 = r2.turned(Rotation::Cw, iv(0, 0));
    lemma_direction_turns(Direction::N);
    assert(r1.blocks =~= quarter_cw4(t, r0.blocks));
    assert(r2.blocks =~= quarter_cw4(t, r1.blocks));
    assert(r3.blocks =~= quarter_cw4(t, r2.blocks));
    assert(r3.turned(Rotation::Cw, iv(0, 0)).blocks =~= quarter_cw4(t, r3.blocks));
    assert(r0.turned(Rotation::Ccw, iv(0, 0)).blocks =~= quarter_ccw4(t, r0.blocks));
    assert(r1.turned(Rotation::Ccw, iv(0, 0)).blocks =~= quarter_ccw4(t, r1.blocks));
    assert(r2.turned(Rotation::Ccw, iv(0, 0)).blocks =~= quarter_ccw4(t, r2.blocks));
    assert(r3.turned(Rotation::Ccw, iv(0, 0)).blocks =~= quarter_ccw4(t, r3.blocks));
}

/// `lemma_turns_rotate_about_the_box` for the L piece.
#[verifier::spinoff_prover]
#[verifier::rlimit(60)]
proof fn lemma_turns_rotate_l(t: RustominoType)
    requires
        t == RustominoType::L,
    ensures
        ({
            let r0 = Rustomino::spec_new(t);
            let r1 = r0.turned(Rotation::Cw, iv(0, 0));
            let r2 = r1.turned(Rotation::Cw, iv(0, 0));
            let r3 = r2.turned(Rotation::Cw, iv(0, 0));
            &&& r1.blocks == quarter_cw4(t, r0.blocks)
            &&& r2.blocks == quarter_cw4(t, r1.blocks)
            &&& r3.blocks == quarter_cw4(t, r2.blocks)
            &&& r3.turned(Rotation::Cw, iv(0, 0)).blocks == quarter_cw4(t, r3.blocks)
            &&& r0.turned(Rotation::Ccw, iv(0, 0)).blocks == quarter_ccw4(t, r0.blocks)
            &&& r1.turned(Rotation::Ccw, iv(0, 0)).blocks == quarter_ccw4(t, r1.blocks)
            &&& r2.turned(Rotation::Ccw, iv(0, 0)).blocks == quarter_ccw4(t, r2.blocks)
            &&& r3.turned(Rotation::Ccw, iv(0, 0)).blocks == quarter_ccw4(t, r3.blocks)
        }),
{
    let r0 = Rustomino::spec_new(t);
    let r1 = r0.turned(Rotation::Cw, iv(0, 0));
    let r2 = r1.turned(Rotation::Cw, iv(0, 0));
    let r3 = r2.turned(Rotation::Cw, iv(0, 0));
    lemma_direction_turns(Direction::N);
    assert(r1.blocks =~= quarter_cw4(t, r0.blocks));
    assert(r2.blocks =~= quarter_cw4(t, r1.blocks));
    assert(r3.blocks =~= quarter_cw4(t, r2.blocks));
    assert(r3.turned(Rotation::Cw, iv(0, 0)).blocks =~= quarter_cw4(t, r3.blocks));
    assert(r0.turned(Rotation::Ccw, iv(0, 0)).blocks =~= quarter_ccw4(t, r0.blocks));
    assert(r1.turned(Rotation::Ccw, iv(0, 0)).blocks =~= quarter_ccw4(t, r1.blocks));
    assert(r2.turned(Rotation::Ccw, iv(0, 0)).blocks =~= quarter_ccw4(t, r2.blocks));
    assert(r3.turned(Rotation::Ccw, iv(0, 0)).blocks =~= quarter_ccw4(t, r3.blocks));
}

/// `lemma_turns_rotate_about_the_box` for the J piece.
#[verifier::spinoff_prover]
#[verifier::rlimit(60)]
proof fn lemma_turns_rotate_j(t: RustominoType)
    requires
        t == RustominoType::J,
    ensures
        ({
            let r0 = Rustomino::spec_new(t);
            let r1 = r0.turned(Rotation::Cw, iv(0, 0));
            let r2 = r1.turned(Rotation::Cw, iv(0, 0));
            let r3 = r2.turned(Rotation::Cw, iv(0, 0));
            &&& r1.blocks == quarter_cw4(t, r0.blocks)
            &&& r2.blocks == quarter_cw4(t, r1.blocks)
            &&& r3.blocks == quarter_cw4(t, r2.blocks)
            &&& r3.turned(Rotation::Cw, iv(0, 0)).blocks == quarter_cw4(t, r3.blocks)
            &&& r0.turned(Rotation::Ccw, iv(0, 0)).blocks == quarter_ccw4(t, r0.blocks)
            &&& r1.turned(Rotation::Ccw, iv(0, 0)).blocks == quarter_ccw4(t, r1.blocks)
            &&& r2.turned(Rotation::Ccw, iv(0, 0)).blocks == quarter_ccw4(t, r2.blocks)
            &&& r3.turned(Rotation::Ccw, iv(0, 0)).blocks == quarter_ccw4(t, r3.blocks)
        }),
{
    let r0 = Rustomino::spec_new(t);
    let r1 = r0.turned(Rotation::Cw, iv(0, 0));
    let r2 = r1.turned(Rotation::Cw, iv(0, 0));
    let r3 = r2.turned(Rotation::Cw, iv(0, 0));
    lemma_direction_turns(Direction::N);
    assert(r1.blocks =~= quarter_cw4(t, r0.blocks));
    assert(r2.blocks =~= quarter_cw4(t, r1.blocks));
    assert(r3.blocks =~= quarter_cw4(t, r2.blocks));
    assert(r3.turned(Rotation::Cw, iv(0, 0)).blocks =~= quarter_cw4(t, r3.blocks));
    assert(r0.turned(Rotation::Ccw, iv(0, 0)).blocks =~= quarter_ccw4(t, r0.blocks));
    assert(r1.turned(Rotation::Ccw, iv(0, 0)).blocks =~= quarter_ccw4(t, r1.blocks));
    assert(r2.turned(Rotation::Ccw, iv(0, 0)).blocks =~= quarter_ccw4(t, r2.blocks));
    assert(r3.turned(Rotation::Ccw, iv(0, 0)).blocks =~= quarter_ccw4(t, r3.blocks));
}

/// `lemma_turns_rotate_about_the_box` for the S piece.
#[verifier::spinoff_prover]
#[verifier::rlimit(60)]
proof fn lemma_turns_rotate_s(t: RustominoType)
    requires
        t == RustominoType::S,
    ensures
        ({
            let r0 = Rustomino::spec_new(t);
            let r1 = r0.turned(Rotation::Cw, iv(0, 0));
            let r2 = r1.turned(Rotation::Cw, iv(0, 0));
            let r3 = r2.turned(Rotation::Cw, iv(0, 0));
            &&& r1.blocks == quarter_cw4(t, r0.blocks)
            &&& r2.blocks == quarter_cw4(t, r1.blocks)
            &&& r3.blocks == quarter_cw4(t, r2.blocks)
            &&& r3.turned(Rotation::Cw, iv(0, 0)).blocks == quarter_cw4(t, r3.blocks)
            &&& r0.turned(Rotation::Ccw, iv(0, 0)).blocks == quarter_ccw4(t, r0.blocks)
            &&& r1.turned(Rotation::Ccw, iv(0, 0)).blocks == quarter_ccw4(t, r1.blocks)
            &&& r2.turned(Rotation::Ccw, iv(0, 0)).blocks == quarter_ccw4(t, r2.blocks)
            &&& r3.turned(Rotation::Ccw, iv(0, 0)).blocks == quarter_ccw4(t, r3.blocks)
        }),
{
    let r0 = Rustomino::spec_new(t);
    let r1 = r0.turned(Rotation::Cw, iv(0, 0));
    let r2 = r1.turned(Rotation::Cw, iv(0, 0));
    let r3 = r2.turned(Rotation::Cw, iv(0, 0));
    lemma_direction_turns(Direction::N);
    assert(r1.blocks =~= quarter_cw4(t, r0.blocks));
    assert(r2.blocks =~= quarter_cw4(t, r1.blocks));
    assert(r3.blocks =~= quarter_cw4(t, r2.blocks));
    assert(r3.turned(Rotation::Cw, iv(0, 0)).blocks =~= quarter_cw4(t, r3.blocks));
    assert(r0.turned(Rotation::Ccw, iv(0, 0)).blocks =~= quarter_ccw4(t, r0.blocks));
    assert(r1.turned(Rotation::Ccw, iv(0, 0)).blocks =~= quarter_ccw4(t, r1.blocks));
    assert(r2.turned(Rotation::Ccw, iv(0, 0)).blocks =~= quarter_ccw4(t, r2.blocks));
    assert(r3.turned(Rotation::Ccw, iv(0, 0)).blocks =~= quarter_ccw4(t, r3.blocks));
}

/// `lemma_turns_rotate_about_the_box` for the Z piece.
#[verifier::spinoff_prover]
#[verifier::rlimit(60)]
proof fn lemma_turns_rotate_z(t: RustominoType)
    requires
        t == RustominoType::Z,
    ensures
        ({
            let r0 = Rustomino::spec_new(t);
            let r1 = r0.turned(Rotation::Cw, iv(0, 0));
            let r2 = r1.turned(Rotation::Cw, iv(0, 0));
            let r3 = r2.turned(Rotation::Cw, iv(0, 0));
            &&& r1.blocks == quarter_cw4(t, r0.blocks)
            &&& r2.blocks == quarter_cw4(t, r1.blocks)
            &&& r3.blocks == quarter_cw4(t, r2.blocks)
            &&& r3.turned(Rotation::Cw, iv(0, 0)).blocks == quarter_cw4(t, r3.blocks)
            &&& r0.turned(Rotation::Ccw, iv(0, 0)).blocks == quarter_ccw4(t, r0.blocks)
            &&& r1.turned(Rotation::Ccw, iv(0, 0)).blocks == quarter_ccw4(t, r1.blocks)
            &&& r2.turned(Rotation::Ccw, iv(0, 0)).blocks == quarter_ccw4(t, r2.blocks)
            &&& r3.turned(Rotation::Ccw, iv(0, 0)).blocks == quarter_ccw4(t, r3.blocks)
        }),
{
    let r0 = Rustomino::spec_new(t);
    let r1 = r0.turned(Rotation::Cw, iv(0, 0));
    let r2 = r1.turned(Rotation::Cw, iv(0, 0));
    let r3 = r2.turned(Rotation::Cw, iv(0, 0));
    lemma_direction_turns(Direction::N);
    assert(r1.blocks =~= quarter_cw4(t, r0.blocks));
    assert(r2.blocks =~= quarter_cw4(t, r1.blocks));
    assert(r3.blocks =~= quarter_cw4(t, r2.blocks));
    assert(r3.turned(Rotation::Cw, iv(0, 0)).blocks =~= quarter_cw4(t, r3.blocks));
    assert(r0.turned(Rotation::Ccw, iv(0, 0)).blocks =~= quarter_ccw4(t, r0.blocks));
    assert(r1.turned(Rotation::Ccw, iv(0, 0)).blocks =~= quarter_ccw4(t, r1.blocks));
    assert(r2.turned(Rotation::Ccw, iv(0, 0)).blocks =~= quarter_ccw4(t, r2.blocks));
    assert(r3.turned(Rotation::Ccw, iv(0, 0)).blocks =~= quarter_ccw4(t, r3.blocks));
}

/// Block `b` is one of the four.
pub open spec fn in_layout(b: IVec2, bs: [IVec2; 4]) -> bool {
    b == bs[0] || b == bs[1] || b == bs[2] || b == bs[3]
}

/// The two layouts hold the same blocks, in any order.
pub open spec fn same_layout(a: [IVec2; 4], b: [IVec2; 4]) -> bool {
    &&& in_layout(a[0], b) && in_layout(a[1], b) && in_layout(a[2], b) && in_layout(a[3], b)
    &&& in_layout(b[0], a) && in_layout(b[1], a) && in_layout(b[2], a) && in_layout(b[3], a)
}

/// Each block mirrored left to right in a three-wide box.
pub open spec fn mirrored(bs: [IVec2; 4]) -> [IVec2; 4] {
    [
        iv((2 - bs[0].x) as i32, bs[0].y),
        iv((2 - bs[1].x) as i32, bs[1].y),
        iv((2 - bs[2].x) as i32, bs[2].y),
        iv((2 - bs[3].x) as i32, bs[3].y),
    ]
}

/// The spawn layouts of the seven pieces, in their boxes: the I a flat bar,
/// the O a square, the T a bar with a block over its middle, the L a bar with
/// a block over its right end and the J one over its left end, the S a
/// bottom pair with a top pair shifted right and the Z one shifted left.
pub proof fn lemma_spawn_layouts()
    ensures
        same_layout(start_blocks(RustominoType::I), [iv(0, 2), iv(1, 2), iv(2, 2), iv(3, 2)]),
        same_layout(start_blocks(RustominoType::O), [iv(1, 1), iv(2, 1), iv(1, 2), iv(2, 2)]),
        same_layout(start_blocks(RustominoType::T), [iv(0, 1), iv(1, 1), iv(2, 1), iv(1, 2)]),
        same_layout(start_blocks(RustominoType::L), [iv(0, 1), iv(1, 1), iv(2, 1), iv(2, 2)]),
        same_layout(start_blocks(RustominoType::J), [iv(0, 1), iv(1, 1), iv(2, 1), iv(0, 2)]),
        same_layout(start_blocks(RustominoType::S), [iv(0, 1), iv(1, 1), iv(1, 2), iv(2, 2)]),
        same_layout(start_blocks(RustominoType::Z), [iv(1, 1), iv(2, 1), iv(0, 2), iv(1, 2)]),
        same_layout(start_blocks(RustominoType::J), mirrored(start_blocks(RustominoType::L))),
        same_layout(start_blocks(RustominoType::S), mirrored(start_blocks(RustominoType::Z))),
{
}

/// Each type spawns in a shape of its own: no two of the seven spawn
/// layouts hold the same blocks, however one of them is moved.
pub proof fn lemma_spawn_shapes_differ(t1: RustominoType, t2: RustominoType, v: IVec2)
    requires
        t1 != t2,
    ensures
        !same_layout(start_blocks(t1), shift(start_blocks(t2), v)),
{
    match t1 {
        RustominoType::I => lemma_shape_differs_i(t1, t2, v),
        RustominoType::O => lemma_shape_differs_o(t1, t2, v),
        RustominoType::T => lemma_shape_differs_t(t1, t2, v),
        RustominoType::L => lemma_shape_differs_l(t1, t2, v),
        RustominoType::J => lemma_shape_differs_j(t1, t2, v),
        RustominoType::S => lemma_shape_differs_s(t1, t2, v),
        RustominoType::Z => lemma_shape_differs_z(t1, t2, v),
    }
}

proof fn lemma_shape_differs_i(t1: RustominoType, t2: RustominoType, v: IVec2)
    requires
        t1 == RustominoType::I,
        t1 != t2,
    ensures
        !same_layout(start_blocks(t1), shift(start_blocks(t2), v)),
{
    match t2 {
        RustominoType::I => {},
        RustominoType::O => {},
        RustominoType::T => {},
        RustominoType::L => {},
        RustominoType::J => {},
        RustominoType::S => {},
        RustominoType::Z => {},
    }
}

proof fn lemma_shape_differs_o(t1: RustominoType, t2: RustominoType, v: IVec2)
    requires
        t1 == RustominoType::O,
        t1 != t2,
    ensures
        !same_layout(start_blocks(t1), shift(start_blocks(t2), v)),
{
    match t2 {
        RustominoType::I => {},
        RustominoType::O => {},
        RustominoType::T => {},
        RustominoType::L => {},
        RustominoType::J => {},
        RustominoType::S => {},
        RustominoType::Z => {},
    }
}

proof fn lemma_shape_differs_t(t1: RustominoType, t2: RustominoType, v: IVec2)
    requires
        t1 == RustominoType::T,
        t1 != t2,
    ensures
        !same_layout(start_blocks(t1), shift(start_blocks(t2), v)),
{
    match t2 {
        RustominoType::I => {},
        RustominoType::O => {},
        RustominoType::T => {},
        RustominoType::L => {},
        RustominoType::J => {},
        RustominoType::S => {},
        RustominoType::Z => {},
    }
}

proof fn lemma_shape_differs_l(t1: RustominoType, t2: RustominoType, v: IVec2)
    requires
        t1 == RustominoType::L,
        t1 != t2,
    ensures
        !same_layout(start_blocks(t1), shift(start_blocks(t2), v)),
{
    match t2 {
        RustominoType::I => {},
        RustominoType::O => {},
        RustominoType::T => {},
        RustominoType::L => {},
        RustominoType::J => {},
        RustominoType::S => {},
        RustominoType::Z => {},
    }
}

proof fn lemma_shape_differs_j(t1: RustominoType, t2: RustominoType, v: IVec2)
    requires
        t1 == RustominoType::J,
        t1 != t2,
    ensures
        !same_layout(start_blocks(t1), shift(start_blocks(t2), v)),
{
    match t2 {
        RustominoType::I => {},
        RustominoType::O => {},
        RustominoType::T => {},
        RustominoType::L => {},
        RustominoType::J => {},
        RustominoType::S => {},
        RustominoType::Z => {},
    }
}

proof fn lemma_shape_differs_s(t1: RustominoType, t2: RustominoType, v: IVec2)
    requires
        t1 == RustominoType::S,
        t1 != t2,
    ensures
        !same_layout(start_blocks(t1), shift(start_blocks(t2), v)),
{
    match t2 {
        RustominoType::I => {},
        RustominoType::O => {},
        RustominoType::T => {},
        RustominoType::L => {},
        RustominoType::J => {},
        RustominoType::S => {},
        RustominoType::Z => {},
    }
}

proof fn lemma_shape_differs_z(t1: RustominoType, t2: RustominoType, v: IVec2)
    requires
        t1 == RustominoType::Z,
        t1 != t2,
    ensures
        !same_layout(start_blocks(t1), shift(start_blocks(t2), v)),
{
    match t2 {
        RustominoType::I => {},
        RustominoType::O => {},
        RustominoType::T => {},
        RustominoType::L => {},
        RustominoType::J => {},
        RustominoType::S => {},
        RustominoType::Z => {},
    }
}

/// The other way round.
pub open spec fn opposite(rotation: Rotation) -> Rotation {
    match rotation {
        Rotation::Cw => Rotation::Ccw,
        Rotation::Ccw => Rotation::Cw,
    }
}

/// The five wall kick tests each negated.
pub open spec fn negated5(k: [IVec2; 5]) -> [IVec2; 5] {
    [k[0].negated(), k[1].negated(), k[2].negated(), k[3].negated(), k[4].negated()]
}

/// The wall kicks of a turn back undo those of the turn: whatever the piece,
/// its orientation and the kick it took, the tests for turning back are the
/// tests of the turn, negated, in the same order; and the first test of
/// every turn is no kick at all.
pub proof fn lemma_kicks_of_turning_back(r: Rustomino, rotation: Rotation, kick: IVec2)
    ensures
        r.turned(rotation, kick).kicks(opposite(rotation)) == negated5(r.kicks(rotation)),
        r.kicks(rotation)[0] == iv(0, 0),
{
    let back = r.turned(rotation, kick).kicks(opposite(rotation));
    assert(back =~= negated5(r.kicks(rotation)));
}

/// A piece enters the playfield in the two rows above the visible twenty,
/// its lowest blocks in row 20, within the box of columns 3 to `3 + s` (`s`
/// as in `box_span`), in the middle of the ten columns.
pub proof fn lemma_spawn_position(t: RustominoType)
    ensures
        forall|i: int|
            0 <= i < 4 ==> 20 <= (#[trigger] Rustomino::spec_new(t).cells()[i]).y < 22 && 3
                <= Rustomino::spec_new(t).cells()[i].x <= 3 + box_span(t),
        exists|i: int| 0 <= i < 4 && (#[trigger] Rustomino::spec_new(t).cells()[i]).y == 20,
{
    let c = Rustomino::spec_new(t).cells();
    match t {
        RustominoType::I => { assert(c[0].y == 20); },
        RustominoType::O => { assert(c[3].y == 20); },
        _ => { assert(c[0].y == 20); },
    }
}

/// What a piece's orientation tells: a fresh orientation faces north and
/// holds the rotation table it was made with, so a freshly dealt piece holds
/// the table of its type; a quarter turn changes the facing as
/// `Direction::turned` does and keeps the table.
pub proof fn lemma_rotation_facts(values: [[IVec2; 4]; 4], r: RustominoRotation, rotation: Rotation)
    ensures
        RustominoRotation::initial(values).facing() == Direction::N,
        RustominoRotation::initial(values).table() == values,
        r.turned(rotation).facing() == r.facing().turned(rotation),
        r.turned(rotation).table() == r.table(),
        forall|t: RustominoType|
            #![trigger Rustomino::spec_new(t)]
            Rustomino::spec_new(t).rotation.facing() == Direction::N
                && Rustomino::spec_new(t).rotation.table() == rotation_table(t),
{
    assert(RustominoRotation::initial(values).table() =~= values);
    assert forall|t: RustominoType|
        #![trigger Rustomino::spec_new(t)]
        Rustomino::spec_new(t).rotation.facing() == Direction::N
            && Rustomino::spec_new(t).rotation.table() == rotation_table(t) by {
        assert(Rustomino::spec_new(t).rotation.table() =~= rotation_table(t));
    }
}

/// A quarter turn one way undone by a quarter turn the other way leaves the
/// orientation as it was, and four clockwise quarter turns come full circle.
pub proof fn lemma_direction_turns(d: Direction)
    ensures
        d.turned(Rotation::Cw).turned(Rotation::Ccw) == d,
        d.turned(Rotation::Ccw).turned(Rotation::Cw) == d,
        d.turned(Rotation::Cw).turned(Rotation::Cw).turned(Rotation::Cw).turned(Rotation::Cw) == d,
{
}

/// Turning a piece a quarter one way and then back the other way, with no
/// wall kick, gives back the same piece: the counter-clockwise offsets undo
/// the clockwise ones.
pub proof fn lemma_turn_undone(r: Rustomino, rotation: Rotation)
    ensures
        r.turned(rotation, iv(0, 0)).turned(
            match rotation {
                Rotation::Cw => Rotation::Ccw,
                Rotation::Ccw => Rotation::Cw,
            },
            iv(0, 0),
        ) == r,
{
    let back = match rotation {
        Rotation::Cw => Rotation::Ccw,
        Rotation::Ccw => Rotation::Cw,
    };
    let r1 = r.turned(rotation, iv(0, 0));
    let r2 = r1.turned(back, iv(0, 0));
    assert(r2.rotation == r.rotation);
    assert(r2.blocks =~= r.blocks);
}

/// Four clockwise quarter turns with no wall kick bring a freshly dealt piece
/// of any type back to its spawn layout: the offsets of each rotation table
/// add up to nothing.
pub proof fn lemma_four_turns_come_full_circle(t: RustominoType)
    ensures
        Rustomino::spec_new(t).turned(Rotation::Cw, iv(0, 0)).turned(Rotation::Cw, iv(0, 0)).turned(
            Rotation::Cw,
            iv(0, 0),
        ).turned(Rotation::Cw, iv(0, 0)) == Rustomino::spec_new(t),
{
    let r0 = Rustomino::spec_new(t);
    let r1 = r0.turned(Rotation::Cw, iv(0, 0));
    let r2 = r1.turned(Rotation::Cw, iv(0, 0));
    let r3 = r2.turned(Rotation::Cw, iv(0, 0));
    let r4 = r3.turned(Rotation::Cw, iv(0, 0));
    lemma_direction_turns(Direction::N);
    assert(r4.rotation == r0.rotation);
    let table = rotation_table(t);
    assert(r1.blocks =~= shift4(r0.blocks, table[0]));
    assert(r2.blocks =~= shift4(r1.blocks, table[1]));
    assert(r3.blocks =~= shift4(r2.blocks, table[2]));
    assert(r4.blocks =~= shift4(r3.blocks, table[3]));
    assert(r4.blocks =~= r0.blocks) by {
        match t {
            RustominoType::I => {},
            RustominoType::O => {},
            RustominoType::T => {},
            RustominoType::L => {},
            RustominoType::J => {},
            RustominoType::S => {},
            RustominoType::Z => {},
        }
    }
}

/// Each of four blocks moved by its own offset, with no kick.
spec fn shift4(blocks: [IVec2; 4], o: [IVec2; 4]) -> [IVec2; 4] {
    [
        blocks[0].plus(o[0]).plus(iv(0, 0)),
        blocks[1].plus(o[1]).plus(iv(0, 0)),
        blocks[2].plus(o[2]).plus(iv(0, 0)),
        blocks[3].plus(o[3]).plus(iv(0, 0)),
    ]
}

/// Wrapping addition of `i32` is associative.
pub proof fn lemma_wrapping_add_assoc(a: i32, b: i32, c: i32)
    ensures
        a.wrapping_add(b).wrapping_add(c) == a.wrapping_add(b.wrapping_add(c)),
{
}

/// Wrapping addition of `i32` is commutative.
pub proof fn lemma_wrapping_add_comm(a: i32, b: i32)
    ensures
        a.wrapping_add(b) == b.wrapping_add(a),
{
}

/// Vector addition is associative.
pub proof fn lemma_plus_assoc(a: IVec2, b: IVec2, c: IVec2)
    ensures
        a.plus(b).plus(c) == a.plus(b.plus(c)),
{
    lemma_wrapping_add_assoc(a.x, b.x, c.x);
    lemma_wrapping_add_assoc(a.y, b.y, c.y);
}

/// Vector addition is commutative.
pub proof fn lemma_plus_comm(a: IVec2, b: IVec2)
    ensures
        a.plus(b) == b.plus(a),
{
    lemma_wrapping_add_comm(a.x, b.x);
    lemma_wrapping_add_comm(a.y, b.y);
}

/// Moving a piece moves the cells it covers by the same vector.
pub proof fn lemma_moved_cells(r: Rustomino, d: IVec2)
    ensures
        r.moved(d).cells() == shift(r.cells(), d),
{
    lemma_shift_twice(r.blocks, r.translation, d);
}

/// A turned piece with a kick covers the turned cells moved by the kick.
pub proof fn lemma_turned_cells(r: Rustomino, rotation: Rotation, kick: IVec2)
    ensures
        r.turned(rotation, kick).cells() == shift(r.turned_cells(rotation), kick),
{
    let o = r.rotation.offsets(rotation);
    let t = r.translation;
    assert forall|i: int| 0 <= i < 4 implies r.blocks[i].plus(o[i]).plus(kick).plus(t) == r.blocks[i].plus(
        t,
    ).plus(o[i]).plus(kick) by {
        let b = r.blocks[i];
        lemma_plus_assoc(b, o[i], kick);
        lemma_plus_assoc(b, o[i].plus(kick), t);
        lemma_plus_comm(o[i].plus(kick), t);
        lemma_plus_assoc(b, t, o[i].plus(kick));
        lemma_plus_assoc(b.plus(t), o[i], kick);
    }
    assert(r.turned(rotation, kick).cells() =~= shift(r.turned_cells(rotation), kick));
}

/// Shifting by two vectors in turn is shifting by their sum.
pub proof fn lemma_shift_twice(cs: [IVec2; 4], a: IVec2, b: IVec2)
    ensures
        shift(shift(cs, a), b) == shift(cs, a.plus(b)),
{
    lemma_plus_assoc(cs[0], a, b);
    lemma_plus_assoc(cs[1], a, b);
    lemma_plus_assoc(cs[2], a, b);
    lemma_plus_assoc(cs[3], a, b);
    assert(shift(shift(cs, a), b) =~= shift(cs, a.plus(b)));
}

/// Shifting by the zero vector changes nothing.
pub proof fn lemma_shift_zero(cs: [IVec2; 4])
    ensures
        shift(cs, iv(0, 0)) == cs,
{
    assert(shift(cs, iv(0, 0)) =~= cs);
}

} // verus!
