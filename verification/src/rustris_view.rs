use vstd::prelude::*;

verus! {

/// The board's view for a windowed front end. It keeps no state of its own:
/// what it draws it reads from the game each frame.
pub struct RustrisView {}

impl RustrisView {
    /// A view, ready to draw.
    pub fn new() -> (view: Self)
        ensures
            view == (RustrisView {}),
    {
        RustrisView {}
    }
}

} // verus!
