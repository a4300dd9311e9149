//! A small cave-exploration game: cellular-automaton level generation,
//! a walking player, a selection menu and the screen state machines that
//! tie them together.

pub mod geometry;
pub mod grid;
pub mod game;
pub mod random;
pub mod cave;
pub mod component;
pub mod events;
pub mod menu;
pub mod main_menu;
pub mod game_component;
pub mod app_game_menu;
pub mod app;
pub mod app_hello;
pub mod app_game_no_menu;
pub mod app_game_component;
pub mod cf;
pub mod full_shape;
