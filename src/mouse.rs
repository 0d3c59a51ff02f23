use vstd::prelude::*;

verus! {

/// The state of one mouse button during one frame.
#[derive(Clone, Copy, Debug, PartialEq, Eq, Structural)]
pub struct MouseButtonState {
    pub down: bool,
    pub up: bool,
    pub pressed: bool,
    pub released: bool,
}

impl MouseButtonState {
    /// A button snapshot from the four sampled readings.
    pub fn new(down: bool, up: bool, pressed: bool, released: bool) -> (r: MouseButtonState)
        ensures
            r.down == down && r.up == up && r.pressed == pressed && r.released == released,
    {
        MouseButtonState { down, up, pressed, released }
    }
}

/// The per-frame input snapshot of the three mouse buttons.
#[derive(Clone, Copy, Debug, PartialEq, Eq, Structural)]
pub struct MouseState {
    pub left: MouseButtonState,
    pub middle: MouseButtonState,
    pub right: MouseButtonState,
}

impl MouseState {
    pub fn new(left: MouseButtonState, middle: MouseButtonState, right: MouseButtonState) -> (r: MouseState)
        ensures
            r.left == left && r.middle == middle && r.right == right,
    {
        MouseState { left, middle, right }
    }
}

} // verus!
