use vstd::prelude::*;

verus! {

/// The keys that the screens react to; every other key is `Other`.
#[derive(Clone, Copy, Debug, PartialEq, Eq, Structural)]
pub enum KeyInput {
    Left,
    Right,
    Up,
    Down,
    /// The return key.
    Return,
    /// The escape key.
    Escape,
    /// The end-of-text control character (ctrl-c), sent when the window is closed.
    Etx,
    Other,
}

/// A screen's request to end the program.
#[derive(Clone, Copy, Debug, PartialEq, Eq, Structural)]
pub struct Exit;

} // verus!
