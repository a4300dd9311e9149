use vstd::prelude::*;
use crate::geometry::Coord;
use crate::game::Cell;

verus! {

#[verifier::external_type_specification]
#[verifier::external_body]
#[verifier::reject_recursive_types(T)]
pub struct ExGrid<T>(grid_2d::Grid<T>);

/// The cells of a grid of booleans, in row-major order.
pub uninterp spec fn bool_cells(g: grid_2d::Grid<bool>) -> Seq<bool>;

/// The (width, height) that a grid of booleans was made with.
pub uninterp spec fn bool_size(g: grid_2d::Grid<bool>) -> (nat, nat);

/// The cells of a grid of level cells, in row-major order.
pub uninterp spec fn cell_cells(g: grid_2d::Grid<Cell>) -> Seq<Cell>;

/// The (width, height) that a grid of level cells was made with.
pub uninterp spec fn cell_size(g: grid_2d::Grid<Cell>) -> (nat, nat);

/// Dimensions whose every coordinate, and every coordinate one step
/// outside the grid, fits in an `i32`, and whose cell count fits in a `u32`.
pub open spec fn dims_ok(w: int, h: int) -> bool {
    &&& 0 <= w <= i32::MAX
    &&& 0 <= h <= i32::MAX
    &&& w * h <= u32::MAX
}

/// Whether (x, y) lies on a grid of width `w` and height `h`.
pub open spec fn in_bounds(w: int, h: int, x: int, y: int) -> bool {
    0 <= x < w && 0 <= y < h
}

/// Row-major index of (x, y) on a grid of width `w`.
pub open spec fn idx(w: int, x: int, y: int) -> int {
    y * w + x
}

/// A grid of booleans of width `w` and height `h` whose cells are `s`.
pub open spec fn bool_grid_is(g: grid_2d::Grid<bool>, s: Seq<bool>, w: int, h: int) -> bool {
    &&& bool_cells(g) == s
    &&& bool_size(g) == (w as nat, h as nat)
}

/// A grid of booleans whose dimensions are in range and whose cell list
/// has one entry per cell.
pub open spec fn bool_grid_wf(g: grid_2d::Grid<bool>) -> bool {
    &&& dims_ok(bool_size(g).0 as int, bool_size(g).1 as int)
    &&& bool_cells(g).len() == bool_size(g).0 * bool_size(g).1
}

/// A grid of level cells whose dimensions are in range and whose cell list
/// has one entry per cell.
pub open spec fn cell_grid_wf(g: grid_2d::Grid<Cell>) -> bool {
    &&& dims_ok(cell_size(g).0 as int, cell_size(g).1 as int)
    &&& cell_cells(g).len() == cell_size(g).0 * cell_size(g).1
}

/// The row-major index of a cell on the grid lies in the cell list.
pub proof fn lemma_idx_in_range(w: int, h: int, x: int, y: int)
    requires
        in_bounds(w, h, x, y),
    ensures
        0 <= idx(w, x, y) < w * h,
        idx(w, x, y) % w == x,
        idx(w, x, y) / w == y,
{
    assert(0 <= y * w) by (nonlinear_arith)
        requires 0 <= y, 0 < w;
    assert(y * w + x < w * h) by (nonlinear_arith)
        requires 0 <= x < w, 0 <= y < h;
    vstd::arithmetic::div_mod::lemma_fundamental_div_mod_converse(y * w + x, w, y, x);
}

/// Every index into the cell list is the row-major index of the cell at
/// (`i % w`, `i / w`).
pub proof fn lemma_index_coord(i: int, w: int, h: int)
    requires
        0 <= i < w * h,
        0 <= w,
        0 <= h,
    ensures
        w > 0,
        in_bounds(w, h, i % w, i / w),
        idx(w, i % w, i / w) == i,
{
    assert(w > 0) by (nonlinear_arith)
        requires 0 <= i < w * h, 0 <= w, 0 <= h;
    vstd::arithmetic::div_mod::lemma_fundamental_div_mod(i, w);
    vstd::arithmetic::div_mod::lemma_mod_pos_bound(i, w);
    vstd::arithmetic::div_mod::lemma_div_pos_is_pos(i, w);
    let q = i / w;
    assert(q < h) by (nonlinear_arith)
        requires w * q <= i, i < w * h, w > 0;
    assert(q * w == w * q) by (nonlinear_arith);
}

/// Two cells of the grid with the same row-major index are the same cell.
pub proof fn lemma_idx_injective(w: int, h: int, x1: int, y1: int, x2: int, y2: int)
    requires
        in_bounds(w, h, x1, y1),
        in_bounds(w, h, x2, y2),
        idx(w, x1, y1) == idx(w, x2, y2),
    ensures
        x1 == x2,
        y1 == y2,
{
    lemma_idx_in_range(w, h, x1, y1);
    lemma_idx_in_range(w, h, x2, y2);
}

/// `grid_2d::Grid::new_copy`: a grid of the given size with every cell set to
/// `value`; the crate stores the cells in a vector of `width * height` entries.
#[verifier::external_body]
pub fn bool_grid_new(width: u32, height: u32, value: bool) -> (g: grid_2d::Grid<bool>)
    requires
        dims_ok(width as int, height as int),
    ensures
        bool_grid_is(g, Seq::new((width * height) as nat, |i: int| value), width as int, height as int),
{
    grid_2d::Grid::new_copy(grid_2d::Size::new(width, height), value)
}

/// `grid_2d::Grid::clone` (derived): the same size and cells.
#[verifier::external_body]
pub fn bool_grid_clone(g: &grid_2d::Grid<bool>) -> (r: grid_2d::Grid<bool>)
    ensures
        bool_cells(r) == bool_cells(*g),
        bool_size(r) == bool_size(*g),
{
    g.clone()
}

/// `grid_2d::Grid::width`.
#[verifier::external_body]
pub fn bool_grid_width(g: &grid_2d::Grid<bool>) -> (r: u32)
    ensures
        r as nat == bool_size(*g).0,
{
    g.width()
}

/// `grid_2d::Grid::height`.
#[verifier::external_body]
pub fn bool_grid_height(g: &grid_2d::Grid<bool>) -> (r: u32)
    ensures
        r as nat == bool_size(*g).1,
{
    g.height()
}

/// `grid_2d::Grid::get`: the cell at `c` when `c` lies on the grid (the
/// crate's `Coord::is_valid`), found at row-major index `y * width + x`;
/// `None` otherwise.
#[verifier::external_body]
pub fn bool_grid_get(g: &grid_2d::Grid<bool>, c: Coord) -> (r: Option<bool>)
    requires
        bool_grid_wf(*g),
    ensures
        r == (if in_bounds(bool_size(*g).0 as int, bool_size(*g).1 as int, c.x as int, c.y as int) {
            Some(bool_cells(*g)[idx(bool_size(*g).0 as int, c.x as int, c.y as int)])
        } else {
            None
        }),
{
    g.get(grid_2d::Coord::new(c.x, c.y)).copied()
}

/// `grid_2d::Grid::get_checked`, which panics off the grid.
#[verifier::external_body]
pub fn bool_grid_get_checked(g: &grid_2d::Grid<bool>, c: Coord) -> (r: bool)
    requires
        bool_grid_wf(*g),
        in_bounds(bool_size(*g).0 as int, bool_size(*g).1 as int, c.x as int, c.y as int),
    ensures
        r == bool_cells(*g)[idx(bool_size(*g).0 as int, c.x as int, c.y as int)],
{
    *g.get_checked(grid_2d::Coord::new(c.x, c.y))
}

/// A write through `grid_2d::Grid::get_checked_mut`, which panics off the grid:
/// the one cell at row-major index `y * width + x` changes.
#[verifier::external_body]
pub fn bool_grid_set(g: &mut grid_2d::Grid<bool>, c: Coord, value: bool)
    requires
        bool_grid_wf(*old(g)),
        in_bounds(bool_size(*old(g)).0 as int, bool_size(*old(g)).1 as int, c.x as int, c.y as int),
    ensures
        bool_size(*final(g)) == bool_size(*old(g)),
        bool_cells(*final(g)) == bool_cells(*old(g)).update(
            idx(bool_size(*old(g)).0 as int, c.x as int, c.y as int),
            value,
        ),
{
    *g.get_checked_mut(grid_2d::Coord::new(c.x, c.y)) = value;
}

/// `grid_2d::Grid::new_copy` for level cells.
#[verifier::external_body]
pub fn cell_grid_new(width: u32, height: u32, value: Cell) -> (g: grid_2d::Grid<Cell>)
    requires
        dims_ok(width as int, height as int),
    ensures
        cell_cells(g) == Seq::new((width * height) as nat, |i: int| value),
        cell_size(g) == (width as nat, height as nat),
{
    grid_2d::Grid::new_copy(grid_2d::Size::new(width, height), value)
}

/// `grid_2d::Grid::width` for level cells.
#[verifier::external_body]
pub fn cell_grid_width(g: &grid_2d::Grid<Cell>) -> (r: u32)
    ensures
        r as nat == cell_size(*g).0,
{
    g.width()
}

/// `grid_2d::Grid::height` for level cells.
#[verifier::external_body]
pub fn cell_grid_height(g: &grid_2d::Grid<Cell>) -> (r: u32)
    ensures
        r as nat == cell_size(*g).1,
{
    g.height()
}

/// `grid_2d::Grid::get` for level cells.
#[verifier::external_body]
pub fn cell_grid_get(g: &grid_2d::Grid<Cell>, c: Coord) -> (r: Option<Cell>)
    requires
        cell_grid_wf(*g),
    ensures
        r == (if in_bounds(cell_size(*g).0 as int, cell_size(*g).1 as int, c.x as int, c.y as int) {
            Some(cell_cells(*g)[idx(cell_size(*g).0 as int, c.x as int, c.y as int)])
        } else {
            None
        }),
{
    g.get(grid_2d::Coord::new(c.x, c.y)).copied()
}

/// A write through `grid_2d::Grid::get_checked_mut` for level cells.
#[verifier::external_body]
pub fn cell_grid_set(g: &mut grid_2d::Grid<Cell>, c: Coord, value: Cell)
    requires
        cell_grid_wf(*old(g)),
        in_bounds(cell_size(*old(g)).0 as int, cell_size(*old(g)).1 as int, c.x as int, c.y as int),
    ensures
        cell_size(*final(g)) == cell_size(*old(g)),
        cell_cells(*final(g)) == cell_cells(*old(g)).update(
            idx(cell_size(*old(g)).0 as int, c.x as int, c.y as int),
            value,
        ),
{
    *g.get_checked_mut(grid_2d::Coord::new(c.x, c.y)) = value;
}

} // verus!
