use vstd::prelude::*;
use crate::events::{Exit, KeyInput};
use crate::game::{Game, is_new_game};
use crate::game_component::{GameComponent, game_step};
use crate::main_menu::{MainMenu, MenuItem, main_menu, main_menu_labels, main_menu_values};

verus! {

/// Which screen is shown: the game or the main menu.
pub enum CurrentComponent {
    Game(GameComponent),
    MainMenu(MainMenu),
}

/// The game with a main menu that escape opens and closes.
pub struct App {
    current_component: CurrentComponent,
    game: Game,
}

/// A main menu as `main_menu` makes it, with any entry selected.
pub open spec fn is_main_menu(m: MainMenu) -> bool {
    &&& m.wf()
    &&& m.labels() == main_menu_labels()
    &&& m.values() == main_menu_values()
}

/// What a key does to the game with a menu: ctrl-c ends the program from
/// either screen. On the game screen escape opens a fresh main menu and other
/// keys go to the game. On the menu escape returns to the game; return picks
/// the selected entry: "Resume" returns to the game, "New Game" starts a new
/// game and returns to it, "Quit" ends the program; other keys move the
/// selection.
pub open spec fn app_step(before: App, after: App, input: Option<KeyInput>, r: Option<Exit>) -> bool {
    if input == Some(KeyInput::Etx) {
        r == Some(Exit) && after == before
    } else if before.on_menu() {
        if input == Some(KeyInput::Escape) {
            &&& r is None
            &&& !after.on_menu()
            &&& after.game_view() == before.game_view()
        } else if input == Some(KeyInput::Return) {
            match before.menu().values()[before.menu().current()] {
                MenuItem::Resume => r is None && !after.on_menu() && after.game_view() == before.game_view(),
                MenuItem::NewGame => r is None && !after.on_menu() && is_new_game(after.game_view()),
                MenuItem::Quit => r == Some(Exit) && after == before,
            }
        } else {
            &&& r is None
            &&& after.on_menu()
            &&& after.game_view() == before.game_view()
            &&& after.menu().current() == (if input == Some(KeyInput::Up) {
                before.menu().current() - 1
            } else if input == Some(KeyInput::Down) {
                if before.menu().current() + 1 < 3 { before.menu().current() + 1 } else { 2 }
            } else {
                before.menu().current()
            })
        }
    } else if input == Some(KeyInput::Escape) {
        &&& r is None
        &&& after.on_menu()
        &&& after.menu().current() == 0
        &&& after.game_view() == before.game_view()
    } else {
        &&& r is None
        &&& !after.on_menu()
        &&& game_step(before.game_view(), after.game_view(), input)
    }
}

/// Escape pressed twice on the game screen opens the menu and closes it
/// again, back on the game screen with the game as it was.
pub proof fn lemma_escape_twice(a0: App, a1: App, a2: App, r1: Option<Exit>, r2: Option<Exit>)
    requires
        !a0.on_menu(),
        app_step(a0, a1, Some(KeyInput::Escape), r1),
        app_step(a1, a2, Some(KeyInput::Escape), r2),
    ensures
        !a2.on_menu(),
        a2.game_view() == a0.game_view(),
        r1 is None,
        r2 is None,
{
}

/// Ctrl-c ends the program from either screen and changes nothing.
pub proof fn lemma_ctrl_c_exits(a0: App, a1: App, r: Option<Exit>)
    requires
        app_step(a0, a1, Some(KeyInput::Etx), r),
    ensures
        r == Some(Exit),
        a1 == a0,
{
}

impl App {
    /// Whether the main menu is shown.
    pub closed spec fn on_menu(self) -> bool {
        self.current_component is MainMenu
    }

    /// The main menu, when it is shown.
    pub closed spec fn menu(self) -> MainMenu {
        self.current_component->MainMenu_0
    }

    /// The game.
    pub closed spec fn game_view(self) -> Game {
        self.game
    }

    /// The game is well formed and a shown menu is the main menu.
    pub open spec fn wf(self) -> bool {
        &&& self.game_view().wf()
        &&& self.on_menu() ==> is_main_menu(self.menu())
    }

    /// A new game, showing the game screen.
    pub fn new() -> (a: Self)
        ensures
            a.wf(),
            !a.on_menu(),
            is_new_game(a.game_view()),
    {
        Self { current_component: CurrentComponent::Game(GameComponent), game: Game::new() }
    }

    /// The screen shown.
    pub fn current_component(&self) -> (c: &CurrentComponent)
        ensures
            (c is MainMenu) == self.on_menu(),
            self.on_menu() ==> c->MainMenu_0 == self.menu(),
    {
        &self.current_component
    }

    /// The game.
    pub fn game(&self) -> (g: &Game)
        ensures
            *g == self.game_view(),
    {
        &self.game
    }

    /// Reacts to a key. Ctrl-c ends the program from either screen. On the
    /// game screen escape opens a fresh main menu and other keys go to the
    /// game. On the menu escape returns to the game; return picks the selected
    /// entry: "Resume" returns to the game, "New Game" starts a new game and
    /// returns to it, "Quit" ends the program; other keys move the selection.
    /// Up on the menu's top entry is not accepted: the selection arithmetic
    /// underflows there.
    pub fn update(&mut self, input: Option<KeyInput>) -> (r: Option<Exit>)
        requires
            old(self).wf(),
            old(self).on_menu() && input == Some(KeyInput::Up) ==> old(self).menu().current() > 0,
        ensures
            final(self).wf(),
            app_step(*old(self), *final(self), input, r),
    {
        if input == Some(KeyInput::Etx) {
            return Some(Exit);
        }
        let escape = input == Some(KeyInput::Escape);
        match &mut self.current_component {
            CurrentComponent::MainMenu(menu) => {
                if escape {
                    self.current_component = CurrentComponent::Game(GameComponent);
                    return None;
                }
                let choice = menu.update(input);
                if let Some(choice) = choice {
                    match choice {
                        MenuItem::Resume => {
                            self.current_component = CurrentComponent::Game(GameComponent);
                        },
                        MenuItem::NewGame => {
                            self.game = Game::new();
                            self.current_component = CurrentComponent::Game(GameComponent);
                        },
                        MenuItem::Quit => return Some(Exit),
                    }
                }
            },
            CurrentComponent::Game(game_component) => {
                if escape {
                    self.current_component = CurrentComponent::MainMenu(main_menu());
                    return None;
                }
                game_component.update(&mut self.game, input);
            },
        }
        None
    }
}

} // verus!
