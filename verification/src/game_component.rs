use vstd::prelude::*;
use crate::events::KeyInput;
use crate::game::{Game, walk_outcome};
use crate::geometry::CardinalDirection;

verus! {

/// The screen that plays the game.
pub struct GameComponent;

/// The direction an arrow key walks in.
pub open spec fn key_direction(k: KeyInput) -> Option<CardinalDirection> {
    match k {
        KeyInput::Left => Some(CardinalDirection::West),
        KeyInput::Right => Some(CardinalDirection::East),
        KeyInput::Up => Some(CardinalDirection::North),
        KeyInput::Down => Some(CardinalDirection::South),
        _ => None,
    }
}

/// What a key does to the game: an arrow key walks, anything else leaves it.
pub open spec fn game_step(before: Game, after: Game, input: Option<KeyInput>) -> bool {
    match input {
        Some(k) => match key_direction(k) {
            Some(d) => walk_outcome(before, after, d),
            None => after == before,
        },
        None => after == before,
    }
}

/// Only the arrow keys walk: left west, right east, up north, down south;
/// every other key, escape and return included, and no key at all leave the
/// game exactly as it was.
pub proof fn lemma_only_arrows_walk(before: Game, after: Game, input: Option<KeyInput>)
    requires
        game_step(before, after, input),
    ensures
        input == Some(KeyInput::Left) ==> walk_outcome(before, after, CardinalDirection::West),
        input == Some(KeyInput::Right) ==> walk_outcome(before, after, CardinalDirection::East),
        input == Some(KeyInput::Up) ==> walk_outcome(before, after, CardinalDirection::North),
        input == Some(KeyInput::Down) ==> walk_outcome(before, after, CardinalDirection::South),
        input != Some(KeyInput::Left) && input != Some(KeyInput::Right) && input != Some(KeyInput::Up)
            && input != Some(KeyInput::Down) ==> after == before,
{
}

impl GameComponent {
    /// Walks the player with the arrow keys; other input leaves the game.
    pub fn update(&mut self, game: &mut Game, input: Option<KeyInput>)
        requires
            old(game).wf(),
        ensures
            final(game).wf(),
            game_step(*old(game), *final(game), input),
    {
        if let Some(key) = input {
            match key {
                KeyInput::Left => game.player_walk(CardinalDirection::West),
                KeyInput::Right => game.player_walk(CardinalDirection::East),
                KeyInput::Up => game.player_walk(CardinalDirection::North),
                KeyInput::Down => game.player_walk(CardinalDirection::South),
                _ => {},
            }
        }
    }
}

} // verus!
