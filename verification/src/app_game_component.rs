use vstd::prelude::*;
use crate::events::{Exit, KeyInput};
use crate::game::{Game, is_new_game};
use crate::game_component::{GameComponent, game_step};

verus! {

/// The game, played through the game screen.
pub struct App {
    game: Game,
}

impl App {
    /// The game.
    pub closed spec fn game_view(self) -> Game {
        self.game
    }

    fn new() -> (a: Self)
        ensures
            is_new_game(a.game_view()),
    {
        Self { game: Game::new() }
    }

    /// The game.
    pub fn game(&self) -> (g: &Game)
        ensures
            *g == self.game_view(),
    {
        &self.game
    }

    /// Ctrl-c ends the program; every other key goes to the game screen.
    pub fn update(&mut self, input: Option<KeyInput>) -> (r: Option<Exit>)
        requires
            old(self).game_view().wf(),
        ensures
            final(self).game_view().wf(),
            input == Some(KeyInput::Etx) ==> r == Some(Exit) && final(self).game_view() == old(self).game_view(),
            input != Some(KeyInput::Etx) ==> r is None && game_step(old(self).game_view(), final(self).game_view(), input),
    {
        if input == Some(KeyInput::Etx) {
            return Some(Exit);
        }
        let mut screen = GameComponent;
        screen.update(&mut self.game, input);
        None
    }
}

/// The game screen on a new game.
pub fn app() -> (a: App)
    ensures
        is_new_game(a.game_view()),
{
    App::new()
}

} // verus!
