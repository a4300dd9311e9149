use cave_game::cave::{
    candidate_from_noise, carve, filling_step_into, live_neighbour_count, open_cells, smooth_and_fill,
    smoothing_step_into,
};
use cave_game::component::{biggest_component, flood_fill};
use cave_game::geometry::Coord;

fn grid_from(rows: &[&str]) -> grid_2d::Grid<bool> {
    let h = rows.len() as u32;
    let w = rows[0].len() as u32;
    grid_2d::Grid::new_fn(grid_2d::Size::new(w, h), |c| rows[c.y as usize].as_bytes()[c.x as usize] == b'#')
}

fn rows_of(g: &grid_2d::Grid<bool>) -> Vec<String> {
    (0..g.height())
        .map(|y| (0..g.width()).map(|x| if *g.get_checked(grid_2d::Coord::new(x as i32, y as i32)) { '#' } else { '.' }).collect())
        .collect()
}

fn lcg_noise(seed: u64) -> grid_2d::Grid<bool> {
    let mut s = seed;
    grid_2d::Grid::new_fn(grid_2d::Size::new(16, 16), |_| {
        s = s.wrapping_mul(6364136223846793005).wrapping_add(1442695040888963407);
        (s >> 33) & 1 == 1
    })
}

#[test]
fn neighbour_counts_match_hand_count() {
    let g = grid_from(&["#.##.", "##.#.", ".###.", "#..##", ".#.#."]);
    let expected = [2, 4, 3, 2, 2, 3, 5, 7, 4, 3, 4, 4, 5, 4, 4, 2, 4, 6, 4, 3, 2, 1, 3, 2, 3];
    for y in 0..5 {
        for x in 0..5 {
            assert_eq!(live_neighbour_count(&g, Coord::new(x, y)), expected[(y * 5 + x) as usize]);
        }
    }
}

#[test]
fn one_smoothing_generation() {
    let g = grid_from(&["#.##.", "##.#.", ".###.", "#..##", ".#.#."]);
    let mut dst = grid_from(&[".....", ".....", ".....", ".....", "....."]);
    smoothing_step_into(&g, &mut dst);
    assert_eq!(rows_of(&dst), vec![".....", ".#.#.", ".###.", "...#.", "....."]);
}

#[test]
fn filling_keeps_previous_generation_at_live_cells() {
    let cur = grid_from(&[".....", ".#.#.", ".###.", "...#.", "....."]);
    let mut prev = grid_from(&["#.##.", "##.#.", ".###.", "#..##", ".#.#."]);
    filling_step_into(&cur, &mut prev);
    assert_eq!(rows_of(&prev), vec![".....", ".###.", ".###.", "...#.", "....."]);
}

#[test]
fn full_grid_loses_only_its_corners() {
    let g = grid_from(&["####", "####", "####", "####"]);
    let r = smooth_and_fill(g);
    assert_eq!(rows_of(&r), vec![".##.", "####", "####", ".##."]);
}

#[test]
fn empty_grid_stays_empty() {
    let g = grid_from(&["....", "....", "....", "...."]);
    let r = smooth_and_fill(g);
    assert_eq!(rows_of(&r), vec!["....", "....", "....", "...."]);
    assert!(biggest_component(&r).is_empty());
}

#[test]
fn largest_region_is_first_of_equal_size() {
    let g = grid_from(&["##.##", ".....", "#.#.."]);
    let big = biggest_component(&g);
    let mut cells: Vec<(i32, i32)> = big.iter().map(|c| (c.x, c.y)).collect();
    cells.sort();
    assert_eq!(cells, vec![(0, 0), (1, 0)]);
}

#[test]
fn largest_region_follows_cardinal_steps_only() {
    let g = grid_from(&["#.#..", ".#...", "..###", "..#.."]);
    let big = biggest_component(&g);
    let mut cells: Vec<(i32, i32)> = big.iter().map(|c| (c.x, c.y)).collect();
    cells.sort();
    assert_eq!(cells, vec![(2, 2), (2, 3), (3, 2), (4, 2)]);
}

#[test]
fn flood_fill_marks_exactly_its_region() {
    let g = grid_from(&["##..#", "#...#", "....#"]);
    let mut seen = grid_from(&[".....", ".....", "....."]);
    let chunk = flood_fill(&g, &mut seen, Coord::new(0, 0));
    assert_eq!(chunk[0], Coord::new(0, 0));
    assert_eq!(chunk.len(), 3);
    assert_eq!(rows_of(&seen), vec!["##...", "#....", "....."]);
}

#[test]
fn carve_keeps_interior_cells_of_region() {
    let mut g = grid_from(&["####", "####", "####"]);
    let region = vec![Coord::new(0, 0), Coord::new(1, 1), Coord::new(2, 1), Coord::new(3, 2)];
    carve(&mut g, &region);
    assert_eq!(rows_of(&g), vec!["....", ".##.", "...."]);
}

#[test]
fn open_cells_in_row_major_order() {
    let g = grid_from(&[".#.", "#.#"]);
    let v = open_cells(&g);
    assert_eq!(v, vec![Coord::new(1, 0), Coord::new(0, 1), Coord::new(2, 1)]);
}

#[test]
fn level_shape_from_fixed_noise() {
    let r = candidate_from_noise(lcg_noise(27));
    assert_eq!(
        rows_of(&r),
        vec![
            "................",
            "................",
            "................",
            ".........##.....",
            "........####....",
            "........###.....",
            "....#######.....",
            "...########.....",
            ".#########......",
            ".#########......",
            ".##########.....",
            ".####...###.....",
            ".###....####....",
            ".##.....####....",
            "........####....",
            "................",
        ]
    );
    assert_eq!(open_cells(&r).len(), 76);
}

#[test]
fn level_shape_from_other_noise() {
    let r = candidate_from_noise(lcg_noise(7));
    assert_eq!(
        rows_of(&r),
        vec![
            "................",
            "................",
            "................",
            "................",
            "................",
            "........#.......",
            ".......###......",
            "..#######.......",
            ".#########......",
            ".#########......",
            "..#####.........",
            ".....#..........",
            "................",
            "................",
            "................",
            "................",
        ]
    );
}

#[test]
fn full_noise_gives_the_whole_interior() {
    let noise = grid_2d::Grid::new_copy(grid_2d::Size::new(16, 16), true);
    let r = candidate_from_noise(noise);
    let mut expected = vec!["................".to_string()];
    for _ in 0..14 {
        expected.push(".##############.".to_string());
    }
    expected.push("................".to_string());
    assert_eq!(rows_of(&r), expected);
    assert_eq!(open_cells(&r).len(), 196);
}
