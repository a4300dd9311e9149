use vstd::prelude::*;
use vstd::string::*;
use crate::menu::Menu;

verus! {

/// The choices of the main menu.
#[derive(Clone, Copy, Debug, PartialEq, Eq, Structural)]
pub enum MenuItem {
    Resume,
    NewGame,
    Quit,
}

/// The main menu's type.
pub type MainMenu = Menu<MenuItem>;

/// The labels of the main menu, top to bottom.
pub open spec fn main_menu_labels() -> Seq<Seq<char>> {
    seq!["Resume"@, "New Game"@, "Quit"@]
}

/// The values of the main menu, top to bottom.
pub open spec fn main_menu_values() -> Seq<MenuItem> {
    seq![MenuItem::Resume, MenuItem::NewGame, MenuItem::Quit]
}

/// The main menu: "Resume", "New Game" and "Quit", with "Resume" selected.
pub fn main_menu() -> (m: Menu<MenuItem>)
    ensures
        m.wf(),
        m.labels() == main_menu_labels(),
        m.values() == main_menu_values(),
        m.current() == 0,
{
    let items = vec![
        (String::from_str("Resume"), MenuItem::Resume),
        (String::from_str("New Game"), MenuItem::NewGame),
        (String::from_str("Quit"), MenuItem::Quit),
    ];
    let m = Menu::new(items);
    assert(m.labels() =~= main_menu_labels());
    assert(m.values() =~= main_menu_values());
    m
}

} // verus!
