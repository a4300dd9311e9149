use cave_game::game::{glyph, Cell, Game, Glyph};
use cave_game::game_component::GameComponent;
use cave_game::events::KeyInput;
use cave_game::geometry::{CardinalDirection, Coord};

fn map_of(g: &Game) -> Vec<Glyph> {
    g.render().into_iter().map(|(_, glyph)| glyph).collect()
}

fn player_of(g: &Game) -> (i32, i32) {
    let cells = g.render();
    let (c, _) = cells.iter().find(|(_, gl)| gl.character == '@').unwrap();
    (c.x, c.y)
}

fn kind_at(map: &[Glyph], x: i32, y: i32) -> Option<char> {
    if x < 0 || y < 0 || x >= 16 || y >= 16 {
        return None;
    }
    let g = map[(y * 16 + x) as usize];
    Some(if g.character == '@' {
        '@'
    } else if g.background_grey == Some(127) {
        '#'
    } else {
        g.character
    })
}

fn offset(d: CardinalDirection) -> (i32, i32) {
    let c = d.coord();
    (c.x, c.y)
}

const DIRS: [CardinalDirection; 4] =
    [CardinalDirection::North, CardinalDirection::East, CardinalDirection::South, CardinalDirection::West];

#[test]
fn glyphs_of_each_cell() {
    assert_eq!(glyph(Cell::Floor, false), Glyph { character: ' ', bold: false, background_grey: None });
    assert_eq!(glyph(Cell::Wall, false), Glyph { character: ' ', bold: false, background_grey: Some(127) });
    assert_eq!(glyph(Cell::Stairs, false), Glyph { character: '>', bold: true, background_grey: None });
    assert_eq!(glyph(Cell::Wall, true), Glyph { character: '@', bold: true, background_grey: None });
}

#[test]
fn new_game_has_a_generated_level() {
    for _ in 0..20 {
        let g = Game::new();
        let cells = g.render();
        assert_eq!(cells.len(), 256);
        for (i, (c, _)) in cells.iter().enumerate() {
            assert_eq!((c.x, c.y), ((i % 16) as i32, (i / 16) as i32));
        }
        let map = map_of(&g);
        assert_eq!(map.iter().filter(|gl| gl.character == '@').count(), 1);
        assert_eq!(map.iter().filter(|gl| gl.character == '>').count(), 1);
        let open = map.iter().filter(|gl| gl.background_grey.is_none()).count();
        assert!(open > 64);
        for y in 0..16 {
            for x in 0..16 {
                if x == 0 || y == 0 || x == 15 || y == 15 {
                    assert_eq!(kind_at(&map, x, y), Some('#'));
                }
            }
        }
    }
}

fn assert_level_invariant(g: &Game) {
    let map = map_of(g);
    assert_eq!(map.iter().filter(|gl| gl.character == '@').count(), 1);
    assert_eq!(map.iter().filter(|gl| gl.character == '>').count(), 1);
    assert!(map.iter().filter(|gl| gl.background_grey.is_none()).count() > 64);
    for y in 0..16 {
        for x in 0..16 {
            if x == 0 || y == 0 || x == 15 || y == 15 {
                assert_eq!(kind_at(&map, x, y), Some('#'));
            }
        }
    }
}

#[test]
fn walking_keeps_the_level_invariant() {
    let mut g = Game::new();
    assert_level_invariant(&g);
    for step in 0..300 {
        g.player_walk(DIRS[(step * 7 / 3) % 4]);
        assert_level_invariant(&g);
    }
}

#[test]
fn walking_follows_the_map() {
    let mut g = Game::new();
    for step in 0..200 {
        let d = DIRS[step % 4];
        let map = map_of(&g);
        let (px, py) = player_of(&g);
        let (dx, dy) = offset(d);
        let target = kind_at(&map, px + dx, py + dy);
        g.player_walk(d);
        let after = map_of(&g);
        match target {
            Some(' ') => {
                assert_eq!(player_of(&g), (px + dx, py + dy));
                assert_eq!(kind_at(&after, px, py), Some(' '));
            },
            Some('#') | None => {
                assert_eq!(player_of(&g), (px, py));
                assert_eq!(after, map);
            },
            Some('>') => {
                assert_eq!(after.iter().filter(|gl| gl.character == '>').count(), 1);
            },
            _ => unreachable!(),
        }
    }
}

#[test]
fn step_onto_floor_and_back_returns() {
    for _ in 0..50 {
        if step_back_on_new_game() {
            return;
        }
    }
    panic!("no game with floor next to the player");
}

fn step_back_on_new_game() -> bool {
    let mut g = Game::new();
    let map = map_of(&g);
    let (px, py) = player_of(&g);
    let opposite = |d: CardinalDirection| match d {
        CardinalDirection::North => CardinalDirection::South,
        CardinalDirection::East => CardinalDirection::West,
        CardinalDirection::South => CardinalDirection::North,
        CardinalDirection::West => CardinalDirection::East,
    };
    for d in DIRS {
        let (dx, dy) = offset(d);
        if kind_at(&map, px + dx, py + dy) == Some(' ') {
            g.player_walk(d);
            assert_eq!(player_of(&g), (px + dx, py + dy));
            g.player_walk(opposite(d));
            assert_eq!(player_of(&g), (px, py));
            assert_eq!(map_of(&g), map);
            return true;
        }
    }
    false
}

#[test]
fn game_screen_maps_arrows_to_walks() {
    let mut g = Game::new();
    let mut screen = GameComponent;
    for (key, d) in [
        (KeyInput::Left, CardinalDirection::West),
        (KeyInput::Right, CardinalDirection::East),
        (KeyInput::Up, CardinalDirection::North),
        (KeyInput::Down, CardinalDirection::South),
    ] {
        let map = map_of(&g);
        let (px, py) = player_of(&g);
        let (dx, dy) = offset(d);
        let target = kind_at(&map, px + dx, py + dy);
        screen.update(&mut g, Some(key));
        if target == Some(' ') {
            assert_eq!(player_of(&g), (px + dx, py + dy));
        } else if target != Some('>') {
            assert_eq!(player_of(&g), (px, py));
        }
    }
    let map = map_of(&g);
    let p = player_of(&g);
    screen.update(&mut g, Some(KeyInput::Return));
    screen.update(&mut g, None);
    assert_eq!(map_of(&g), map);
    assert_eq!(player_of(&g), p);
}

#[test]
fn coords_of_directions() {
    assert_eq!(CardinalDirection::North.coord(), Coord::new(0, -1));
    assert_eq!(CardinalDirection::East.coord(), Coord::new(1, 0));
    assert_eq!(CardinalDirection::South.coord(), Coord::new(0, 1));
    assert_eq!(CardinalDirection::West.coord(), Coord::new(-1, 0));
    let all: Vec<Coord> = cave_game::geometry::Direction::all().into_iter().map(|d| d.coord()).collect();
    assert_eq!(
        all,
        vec![
            Coord::new(0, -1),
            Coord::new(1, -1),
            Coord::new(1, 0),
            Coord::new(1, 1),
            Coord::new(0, 1),
            Coord::new(-1, 1),
            Coord::new(-1, 0),
            Coord::new(-1, -1),
        ]
    );
    assert_eq!(CardinalDirection::all().len(), 4);
}
