use vstd::prelude::*;

verus! {

/// Tuning options of the game's speed. The one option, the delay between two
/// gravity steps at a level, is a floating-point formula, which is computed
/// by the program around this library and handed to `RustrisState::update`
/// in microseconds.
pub struct RustrisOptions {}

} // verus!
