use cave_game::app_game_menu::{App as MenuApp, CurrentComponent};
use cave_game::app_game_no_menu::App as NoMenuApp;
use cave_game::app_game_component::app as component_app;
use cave_game::app_hello::app as hello_app;
use cave_game::app::App as LetterApp;
use cave_game::cf::{loop_unit_step, LoopControl, LoopStep};
use cave_game::events::{Exit, KeyInput};

fn on_menu(a: &MenuApp) -> bool {
    matches!(a.current_component(), CurrentComponent::MainMenu(_))
}

fn snapshot(a: &MenuApp) -> Vec<cave_game::game::Glyph> {
    a.game().render().into_iter().map(|(_, g)| g).collect()
}

#[test]
fn escape_opens_and_closes_the_menu() {
    let mut a = MenuApp::new();
    assert!(!on_menu(&a));
    let before = snapshot(&a);
    assert_eq!(a.update(Some(KeyInput::Escape)), None);
    assert!(on_menu(&a));
    assert_eq!(a.update(Some(KeyInput::Escape)), None);
    assert!(!on_menu(&a));
    assert_eq!(snapshot(&a), before);
}

#[test]
fn resume_returns_to_the_same_game() {
    let mut a = MenuApp::new();
    let before = snapshot(&a);
    a.update(Some(KeyInput::Escape));
    a.update(Some(KeyInput::Down));
    a.update(Some(KeyInput::Up));
    assert_eq!(a.update(Some(KeyInput::Return)), None);
    assert!(!on_menu(&a));
    assert_eq!(snapshot(&a), before);
}

#[test]
fn new_game_returns_to_a_fresh_level() {
    let mut a = MenuApp::new();
    a.update(Some(KeyInput::Escape));
    a.update(Some(KeyInput::Down));
    assert_eq!(a.update(Some(KeyInput::Return)), None);
    assert!(!on_menu(&a));
    let map = snapshot(&a);
    assert_eq!(map.iter().filter(|g| g.character == '@').count(), 1);
    assert_eq!(map.iter().filter(|g| g.character == '>').count(), 1);
}

#[test]
fn quit_and_ctrl_c_exit() {
    let mut a = MenuApp::new();
    assert_eq!(a.update(Some(KeyInput::Etx)), Some(Exit));
    a.update(Some(KeyInput::Escape));
    assert_eq!(a.update(Some(KeyInput::Etx)), Some(Exit));
    assert!(on_menu(&a));
    a.update(Some(KeyInput::Down));
    a.update(Some(KeyInput::Down));
    a.update(Some(KeyInput::Down));
    assert_eq!(a.update(Some(KeyInput::Return)), Some(Exit));
    assert!(on_menu(&a));
}

#[test]
fn menu_reopens_on_first_entry() {
    let mut a = MenuApp::new();
    a.update(Some(KeyInput::Escape));
    a.update(Some(KeyInput::Down));
    a.update(Some(KeyInput::Escape));
    a.update(Some(KeyInput::Escape));
    match a.current_component() {
        CurrentComponent::MainMenu(m) => assert_eq!(m.render()[0].1, '>'),
        CurrentComponent::Game(_) => panic!("menu expected"),
    }
    assert_eq!(a.update(Some(KeyInput::Return)), None);
    assert!(!on_menu(&a));
}

#[test]
fn game_without_menu_exits_on_ctrl_c_only() {
    let mut a = NoMenuApp::new();
    assert_eq!(a.update(Some(KeyInput::Escape)), None);
    assert_eq!(a.update(Some(KeyInput::Left)), None);
    assert_eq!(a.update(None), None);
    assert_eq!(a.update(Some(KeyInput::Etx)), Some(Exit));
    let mut b = component_app();
    assert_eq!(b.update(Some(KeyInput::Right)), None);
    assert_eq!(b.update(Some(KeyInput::Etx)), Some(Exit));
    assert_eq!(b.game().render().len(), 256);
}

#[test]
fn hello_draws_its_greeting() {
    let mut a = hello_app();
    let cells = a.render();
    let text: String = cells.iter().map(|(_, ch)| *ch).collect();
    assert_eq!(text, "Hello, FP-Syd!");
    for (i, (c, _)) in cells.iter().enumerate() {
        assert_eq!((c.x, c.y), (i as i32 + 1, 7));
    }
    assert_eq!(a.update(Some(KeyInput::Escape)), None);
    assert_eq!(a.update(Some(KeyInput::Etx)), Some(Exit));
}

#[test]
fn letter_screen_exits_on_escape() {
    let mut a = LetterApp;
    let (c, ch) = a.render();
    assert_eq!((c.x, c.y, ch), (0, 0, 'A'));
    assert_eq!(a.update(Some(KeyInput::Etx)), None);
    assert_eq!(a.update(Some(KeyInput::Escape)), Some(Exit));
}

#[test]
fn loop_steps() {
    assert!(matches!(loop_unit_step::<u8>(None), LoopStep::Wait));
    assert!(matches!(loop_unit_step::<u8>(Some(LoopControl::Continue(()))), LoopStep::Restart));
    assert!(matches!(loop_unit_step::<u8>(Some(LoopControl::Break(7))), LoopStep::Finish(7)));
}
