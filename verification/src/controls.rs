//! The player's controls and the keys bound to them by default.
use vstd::prelude::*;

verus! {

// input repeat delays, in microseconds
const TRANSLATE_ACTION_DELAY: u64 = 300000;

const TRANSLATE_ACTION_REPEAT_DELAY: u64 = 25000;

const SOFT_DROP_ACTION_DELAY: u64 = 200000;

const SOFT_DROP_ACTION_REPEAT_DELAY: u64 = 30000;

/// What the player can do with the active piece.
#[derive(Debug, Clone, Copy, PartialEq, Eq, Hash, Structural)]
pub enum Control {
    Left,
    Right,
    RotateCW,
    RotateCCW,
    SoftDrop,
    HardDrop,
    Hold,
}

/// The keyboard keys the game reads.
#[derive(Debug, Clone, Copy, PartialEq, Eq, Hash, Structural)]
pub enum Key {
    Left,
    Right,
    Up,
    Down,
    A,
    C,
    D,
    S,
    W,
    Z,
    LControl,
    LShift,
    Space,
    Return,
    NumpadEnter,
    Escape,
    Minus,
    NumpadSubtract,
    Equals,
    NumpadAdd,
}

/// Every control once, in declaration order.
pub open spec fn all_controls() -> Seq<Control> {
    seq![
        Control::Left,
        Control::Right,
        Control::RotateCW,
        Control::RotateCCW,
        Control::SoftDrop,
        Control::HardDrop,
        Control::Hold,
    ]
}

/// Every control once, in declaration order.
pub fn controls_in_order() -> (r: Vec<Control>)
    ensures
        r@ == all_controls(),
{
    vec![
        Control::Left,
        Control::Right,
        Control::RotateCW,
        Control::RotateCCW,
        Control::SoftDrop,
        Control::HardDrop,
        Control::Hold,
    ]
}

impl Control {
    /// How long a held key waits before its control repeats, in microseconds:
    /// moves and the soft drop repeat, the other controls do not.
    pub open spec fn first_repeat_delay(self) -> Option<u64> {
        match self {
            Control::Left | Control::Right => Some(300000),
            Control::SoftDrop => Some(200000),
            _ => None,
        }
    }

    /// The time between two repeats of a held control, in microseconds.
    pub open spec fn repeat_interval(self) -> Option<u64> {
        match self {
            Control::Left | Control::Right => Some(25000),
            Control::SoftDrop => Some(30000),
            _ => None,
        }
    }

    /// How long a held key waits before its control repeats, in microseconds.
    pub fn action_delay(&self) -> (r: Option<u64>)
        ensures
            r == self.first_repeat_delay(),
    {
        match self {
            Control::Left | Control::Right => Some(TRANSLATE_ACTION_DELAY),
            Control::SoftDrop => Some(SOFT_DROP_ACTION_DELAY),
            _ => None,
        }
    }

    /// The time between two repeats of a held control, in microseconds.
    pub fn action_repeat_delay(&self) -> (r: Option<u64>)
        ensures
            r == self.repeat_interval(),
    {
        match self {
            Control::Left | Control::Right => Some(TRANSLATE_ACTION_REPEAT_DELAY),
            Control::SoftDrop => Some(SOFT_DROP_ACTION_REPEAT_DELAY),
            _ => None,
        }
    }

    /// The two keys bound to a control by default; the hard drop has one.
    pub open spec fn keys(self) -> [Option<Key>; 2] {
        match self {
            Control::Left => [Some(Key::Left), Some(Key::A)],
            Control::Right => [Some(Key::Right), Some(Key::D)],
            Control::RotateCW => [Some(Key::Up), Some(Key::W)],
            Control::RotateCCW => [Some(Key::LControl), Some(Key::Z)],
            Control::SoftDrop => [Some(Key::Down), Some(Key::S)],
            Control::HardDrop => [Some(Key::Space), None],
            Control::Hold => [Some(Key::LShift), Some(Key::C)],
        }
    }

    /// The keys bound to this control by default.
    pub fn default_keys(&self) -> (r: [Option<Key>; 2])
        ensures
            r == self.keys(),
    {
        match self {
            Control::Left => [Some(Key::Left), Some(Key::A)],
            Control::Right => [Some(Key::Right), Some(Key::D)],
            Control::RotateCW => [Some(Key::Up), Some(Key::W)],
            Control::RotateCCW => [Some(Key::LControl), Some(Key::Z)],
            Control::SoftDrop => [Some(Key::Down), Some(Key::S)],
            Control::HardDrop => [Some(Key::Space), None],
            Control::Hold => [Some(Key::LShift), Some(Key::C)],
        }
    }
}

/// The key bindings of the controls `cs`, control by control, each bound key
/// paired with its control.
pub open spec fn key_bindings(cs: Seq<Control>) -> Seq<(Key, Control)>
    decreases cs.len(),
{
    if cs.len() == 0 {
        Seq::empty()
    } else {
        let c = cs.last();
        let ks = c.keys();
        let first = match ks[0] {
            Some(k) => seq![(k, c)],
            None => Seq::empty(),
        };
        let second = match ks[1] {
            Some(k) => seq![(k, c)],
            None => Seq::empty(),
        };
        key_bindings(cs.drop_last()) + first + second
    }
}

/// The default key bindings, one pair for each bound key.
pub open spec fn default_bindings() -> Seq<(Key, Control)> {
    seq![
        (Key::Left, Control::Left),
        (Key::A, Control::Left),
        (Key::Right, Control::Right),
        (Key::D, Control::Right),
        (Key::Up, Control::RotateCW),
        (Key::W, Control::RotateCW),
        (Key::LControl, Control::RotateCCW),
        (Key::Z, Control::RotateCCW),
        (Key::Down, Control::SoftDrop),
        (Key::S, Control::SoftDrop),
        (Key::Space, Control::HardDrop),
        (Key::LShift, Control::Hold),
        (Key::C, Control::Hold),
    ]
}

/// The controls with their keys, and each bound key with its control.
pub struct GameControls {
    pub input_map: Vec<(Control, [Option<Key>; 2])>,
    pub key_map: Vec<(Key, Control)>,
}

impl GameControls {
    /// Each map is a map: no control has two entries in the input map, and no
    /// key has two entries in the key map.
    pub open spec fn wf(self) -> bool {
        &&& forall|i: int, j: int|
            0 <= i < j < self.input_map@.len() ==> #[trigger] self.input_map@[i].0
                != #[trigger] self.input_map@[j].0
        &&& forall|i: int, j: int|
            0 <= i < j < self.key_map@.len() ==> #[trigger] self.key_map@[i].0
                != #[trigger] self.key_map@[j].0
    }
}

impl Default for GameControls {
    /// Every control bound to its default keys.
    fn default() -> (r: Self)
        ensures
            r.input_map@ == all_controls().map_values(|c: Control| (c, c.keys())),
            r.key_map@ == key_bindings(all_controls()),
            r.key_map@ == default_bindings(),
            r.wf(),
    {
        let controls = controls_in_order();
        let mut input_map: Vec<(Control, [Option<Key>; 2])> = Vec::new();
        let mut key_map: Vec<(Key, Control)> = Vec::new();
        let mut i: usize = 0;
        while i < controls.len()
            invariant
                i <= controls@.len(),
                controls@ == all_controls(),
                input_map@ == controls@.take(i as int).map_values(|c: Control| (c, c.keys())),
                key_map@ == key_bindings(controls@.take(i as int)),
            decreases controls@.len() - i,
        {
            let c = controls[i];
            let keys = c.default_keys();
            input_map.push((c, keys));
            if let Some(k) = keys[0] {
                key_map.push((k, c));
            }
            if let Some(k) = keys[1] {
                key_map.push((k, c));
            }
            proof {
                let next = controls@.take(i + 1);
                assert(next.drop_last() =~= controls@.take(i as int));
                assert(next.last() == c);
            }
            i = i + 1;
            assert(input_map@ =~= controls@.take(i as int).map_values(|c: Control| (c, c.keys())));
            assert(key_map@ =~= key_bindings(controls@.take(i as int)));
        }
        assert(controls@.take(7) =~= all_controls());
        assert(key_map@ =~= default_bindings()) by {
            reveal_with_fuel(key_bindings, 8);
        }
        GameControls { input_map, key_map }
    }
}

} // verus!
