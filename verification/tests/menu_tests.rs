use cave_game::events::KeyInput;
use cave_game::main_menu::{main_menu, MenuItem};
use cave_game::menu::Menu;
use cave_game::geometry::Coord;

#[test]
fn main_menu_draws_selection_and_labels() {
    let m = main_menu();
    let cells = m.render();
    let mut expected: Vec<(Coord, char, bool)> = vec![(Coord::new(0, 0), '>', true)];
    for (row, label) in ["Resume", "New Game", "Quit"].iter().enumerate() {
        for (j, ch) in label.chars().enumerate() {
            expected.push((Coord::new(j as i32 + 2, row as i32), ch, row == 0));
        }
    }
    assert_eq!(cells, expected);
}

#[test]
fn selection_moves_and_stays_on_last() {
    let mut m = main_menu();
    assert_eq!(m.update(Some(KeyInput::Down)), None);
    assert_eq!(m.update(Some(KeyInput::Return)), Some(MenuItem::NewGame));
    assert_eq!(m.update(Some(KeyInput::Down)), None);
    assert_eq!(m.update(Some(KeyInput::Down)), None);
    assert_eq!(m.update(Some(KeyInput::Return)), Some(MenuItem::Quit));
    assert_eq!(m.update(Some(KeyInput::Up)), None);
    assert_eq!(m.update(Some(KeyInput::Up)), None);
    assert_eq!(m.update(Some(KeyInput::Return)), Some(MenuItem::Resume));
    assert_eq!(m.update(Some(KeyInput::Left)), None);
    assert_eq!(m.update(None), None);
    assert_eq!(m.update(Some(KeyInput::Return)), Some(MenuItem::Resume));
}

#[test]
fn down_then_up_comes_back() {
    let mut m = main_menu();
    m.update(Some(KeyInput::Down));
    let before = m.render();
    m.update(Some(KeyInput::Down));
    m.update(Some(KeyInput::Up));
    assert_eq!(m.render(), before);
}

#[test]
fn generic_menu_selects_second_entry() {
    let mut m = Menu::new(vec![("a".to_string(), 10u32), ("bc".to_string(), 20u32)]);
    m.update(Some(KeyInput::Down));
    let cells = m.render();
    assert_eq!(
        cells,
        vec![
            (Coord::new(2, 0), 'a', false),
            (Coord::new(0, 1), '>', true),
            (Coord::new(2, 1), 'b', true),
            (Coord::new(3, 1), 'c', true),
        ]
    );
    assert_eq!(m.update(Some(KeyInput::Return)), Some(20));
}

#[test]
fn empty_menu_ignores_other_keys() {
    let mut m: Menu<u8> = Menu::new(vec![]);
    assert_eq!(m.update(Some(KeyInput::Left)), None);
    assert!(m.render().is_empty());
}
