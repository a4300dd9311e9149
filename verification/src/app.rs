use vstd::prelude::*;
use crate::events::{Exit, KeyInput};
use crate::geometry::Coord;

verus! {

/// The smallest screen: it shows one letter and ends the program on escape.
pub struct App;

impl App {
    /// The one square this screen draws: a plain 'A' at (0, 0).
    pub fn render(&self) -> (r: (Coord, char))
        ensures
            r.0.pos() == (0int, 0int),
            r.1 == 'A',
    {
        (Coord { x: 0, y: 0 }, 'A')
    }

    /// Escape ends the program; nothing else does anything.
    pub fn update(&mut self, input: Option<KeyInput>) -> (r: Option<Exit>)
        ensures
            r == (if input == Some(KeyInput::Escape) { Some(Exit) } else { None }),
    {
        if input == Some(KeyInput::Escape) {
            return Some(Exit);
        }
        None
    }
}

} // verus!
