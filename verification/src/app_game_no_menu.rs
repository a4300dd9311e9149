use vstd::prelude::*;
use crate::events::{Exit, KeyInput};
use crate::game::{Game, is_new_game};
use crate::game_component::game_step;
use crate::geometry::CardinalDirection;

verus! {

/// The game on its own, without a menu.
pub struct App {
    game: Game,
}

impl App {
    /// The game.
    pub closed spec fn game_view(self) -> Game {
        self.game
    }

    /// A new game.
    pub fn new() -> (a: Self)
        ensures
            is_new_game(a.game_view()),
    {
        Self { game: Game::new() }
    }

    /// The game.
    pub fn game(&self) -> (g: &Game)
        ensures
            *g == self.game_view(),
    {
        &self.game
    }

    /// Ctrl-c ends the program; the arrow keys walk; nothing else does anything.
    pub fn update(&mut self, input: Option<KeyInput>) -> (r: Option<Exit>)
        requires
            old(self).game_view().wf(),
        ensures
            final(self).game_view().wf(),
            input == Some(KeyInput::Etx) ==> r == Some(Exit) && final(self).game_view() == old(self).game_view(),
            input != Some(KeyInput::Etx) ==> r is None && game_step(old(self).game_view(), final(self).game_view(), input),
    {
        if let Some(key) = input {
            match key {
                KeyInput::Etx => return Some(Exit),
                KeyInput::Left => self.game.player_walk(CardinalDirection::West),
                KeyInput::Right => self.game.player_walk(CardinalDirection::East),
                KeyInput::Up => self.game.player_walk(CardinalDirection::North),
                KeyInput::Down => self.game.player_walk(CardinalDirection::South),
                _ => {},
            }
        }
        None
    }
}

} // verus!
