use vstd::prelude::*;
use vstd::string::*;
use crate::events::{Exit, KeyInput};
use crate::geometry::Coord;

verus! {

/// A screen that greets the audience.
pub struct App {
    text: String,
}

impl App {
    /// The greeting.
    pub closed spec fn text(self) -> Seq<char> {
        self.text@
    }

    fn new() -> (a: Self)
        ensures
            a.text() == "Hello, FP-Syd!"@,
    {
        Self { text: String::from_str("Hello, FP-Syd!") }
    }

    /// Ctrl-c ends the program; nothing else does anything.
    pub fn update(&mut self, input: Option<KeyInput>) -> (r: Option<Exit>)
        ensures
            r == (if input == Some(KeyInput::Etx) { Some(Exit) } else { None }),
            final(self).text() == old(self).text(),
    {
        if input == Some(KeyInput::Etx) {
            return Some(Exit);
        }
        None
    }

    /// The greeting's characters, drawn bold from column 1 of row 7.
    pub fn render(&self) -> (r: Vec<(Coord, char)>)
        requires
            self.text().len() < i32::MAX,
        ensures
            r@.len() == self.text().len(),
            forall|i: int| 0 <= i < r@.len() ==> (#[trigger] r@[i]).0.pos() == (i + 1, 7int) && r@[i].1 == self.text()[i],
    {
        let text = self.text.as_str();
        let n = text.unicode_len();
        let mut r: Vec<(Coord, char)> = Vec::new();
        let mut i: usize = 0;
        while i < n
            invariant
                n == self.text().len(),
                text@ == self.text(),
                n < i32::MAX,
                i <= n,
                r@.len() == i,
                forall|j: int| 0 <= j < i ==> (#[trigger] r@[j]).0.pos() == (j + 1, 7int) && r@[j].1 == self.text()[j],
            decreases n - i,
        {
            let ch = text.get_char(i);
            r.push((Coord { x: i as i32 + 1, y: 7 }, ch));
            i = i + 1;
        }
        r
    }
}

/// The greeting screen.
pub fn app() -> (a: App)
    ensures
        a.text() == "Hello, FP-Syd!"@,
{
    App::new()
}

} // verus!
