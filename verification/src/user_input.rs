//! The fixed command vocabulary that an input collaborator translates raw
//! key events into. Decoding the events themselves is not the engine's job.

use vstd::prelude::*;

verus! {

#[derive(Clone, Copy, PartialEq, Eq, Structural, Debug)]
pub enum KeyPress {
    Left,
    Right,
    Up,
    Down,
    Enter,
    Esc,
    BackSpace,
}

} // verus!
