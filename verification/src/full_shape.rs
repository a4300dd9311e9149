use vstd::prelude::*;
use crate::cave::{alive, one_if, live_among, live_neighbours, smoothing_step, smoothing_rule, smoothed, filling_step, cave_shape};
use crate::geometry::{direction_offset, all_directions_spec};
use crate::cave::{interior, carved, open_positions, open_cells_of};
use crate::component::{is_largest_component, is_component, closed, live_at, adjacent, any_live};
use crate::grid::{in_bounds, idx, lemma_idx_in_range, lemma_index_coord};

verus! {

/// The noise grid with every cell set.
pub open spec fn full_noise() -> Seq<bool> {
    Seq::new(256, |i: int| true)
}

/// Whether (x, y) is one of the four corners of the 16 by 16 grid.
pub open spec fn is_corner(x: int, y: int) -> bool {
    (x == 0 || x == 15) && (y == 0 || y == 15)
}

/// The 16 by 16 grid with every cell set but the four corners.
pub open spec fn corner_free() -> Seq<bool> {
    Seq::new(256, |i: int| !is_corner(i % 16, i / 16))
}

/// The live neighbours of (x, y) as the sum over the eight directions.
proof fn lemma_live_neighbours_sum(s: Seq<bool>, w: int, h: int, x: int, y: int)
    ensures
        live_neighbours(s, w, h, x, y) == one_if(alive(s, w, h, x, y - 1)) + one_if(alive(s, w, h, x + 1, y - 1))
            + one_if(alive(s, w, h, x + 1, y)) + one_if(alive(s, w, h, x + 1, y + 1)) + one_if(
            alive(s, w, h, x, y + 1),
        ) + one_if(alive(s, w, h, x - 1, y + 1)) + one_if(alive(s, w, h, x - 1, y)) + one_if(
            alive(s, w, h, x - 1, y - 1),
        ),
{
    let ds = all_directions_spec();
    reveal_with_fuel(live_among, 9);
    assert(ds.drop_last() =~= ds.take(7));
    assert(ds.take(7).drop_last() =~= ds.take(6));
    assert(ds.take(6).drop_last() =~= ds.take(5));
    assert(ds.take(5).drop_last() =~= ds.take(4));
    assert(ds.take(4).drop_last() =~= ds.take(3));
    assert(ds.take(3).drop_last() =~= ds.take(2));
    assert(ds.take(2).drop_last() =~= ds.take(1));
    assert(ds.take(1).drop_last() =~= ds.take(0));
}

proof fn lemma_alive_full(x: int, y: int)
    ensures
        alive(full_noise(), 16, 16, x, y) == in_bounds(16, 16, x, y),
{
    if in_bounds(16, 16, x, y) {
        lemma_idx_in_range(16, 16, x, y);
    }
}

proof fn lemma_alive_corner_free(x: int, y: int)
    ensures
        alive(corner_free(), 16, 16, x, y) == (in_bounds(16, 16, x, y) && !is_corner(x, y)),
{
    if in_bounds(16, 16, x, y) {
        lemma_idx_in_range(16, 16, x, y);
    }
}

/// Around a cell of the full grid, the live neighbours are those on the grid.
proof fn lemma_full_neighbours(x: int, y: int)
    requires
        in_bounds(16, 16, x, y),
    ensures
        smoothing_rule(true, live_neighbours(full_noise(), 16, 16, x, y)) == !is_corner(x, y),
{
    lemma_live_neighbours_sum(full_noise(), 16, 16, x, y);
    lemma_alive_full(x, y - 1);
    lemma_alive_full(x + 1, y - 1);
    lemma_alive_full(x + 1, y);
    lemma_alive_full(x + 1, y + 1);
    lemma_alive_full(x, y + 1);
    lemma_alive_full(x - 1, y + 1);
    lemma_alive_full(x - 1, y);
    lemma_alive_full(x - 1, y - 1);
}

/// Around a cell of the corner-free grid: a corner has 3 live neighbours,
/// every other cell at least 4 and at most 8.
proof fn lemma_corner_free_neighbours(x: int, y: int)
    requires
        in_bounds(16, 16, x, y),
    ensures
        is_corner(x, y) ==> live_neighbours(corner_free(), 16, 16, x, y) == 3,
        !is_corner(x, y) ==> 4 <= live_neighbours(corner_free(), 16, 16, x, y) <= 8,
{
    lemma_live_neighbours_sum(corner_free(), 16, 16, x, y);
    lemma_alive_corner_free(x, y - 1);
    lemma_alive_corner_free(x + 1, y - 1);
    lemma_alive_corner_free(x + 1, y);
    lemma_alive_corner_free(x + 1, y + 1);
    lemma_alive_corner_free(x, y + 1);
    lemma_alive_corner_free(x - 1, y + 1);
    lemma_alive_corner_free(x - 1, y);
    lemma_alive_corner_free(x - 1, y - 1);
}

/// One smoothing generation of the full grid kills exactly its corners.
pub proof fn lemma_smoothing_full()
    ensures
        smoothing_step(full_noise(), 16, 16) == corner_free(),
{
    assert forall|i: int| 0 <= i < 256 implies #[trigger] smoothing_step(full_noise(), 16, 16)[i] == corner_free()[i] by {
        lemma_index_coord(i, 16, 16);
        lemma_full_neighbours(i % 16, i / 16);
    }
    assert(smoothing_step(full_noise(), 16, 16) =~= corner_free());
}

/// The corner-free grid is left as it is by a smoothing generation.
pub proof fn lemma_smoothing_corner_free()
    ensures
        smoothing_step(corner_free(), 16, 16) == corner_free(),
{
    assert forall|i: int| 0 <= i < 256 implies #[trigger] smoothing_step(corner_free(), 16, 16)[i] == corner_free()[i] by {
        lemma_index_coord(i, 16, 16);
        lemma_corner_free_neighbours(i % 16, i / 16);
    }
    assert(smoothing_step(corner_free(), 16, 16) =~= corner_free());
}

proof fn lemma_smoothed_full(n: nat)
    requires
        n >= 1,
    ensures
        smoothed(full_noise(), 16, 16, n) == corner_free(),
    decreases n,
{
    if n == 1 {
        assert(smoothed(full_noise(), 16, 16, 0) == full_noise());
        lemma_smoothing_full();
    } else {
        lemma_smoothed_full((n - 1) as nat);
        lemma_smoothing_corner_free();
    }
}

/// The shape made from the full grid is the corner-free grid.
pub proof fn lemma_cave_shape_full()
    ensures
        cave_shape(full_noise(), 16, 16) == corner_free(),
{
    lemma_smoothed_full(6);
    lemma_smoothed_full(5);
    assert forall|i: int| 0 <= i < 256 implies #[trigger] cave_shape(full_noise(), 16, 16)[i] == corner_free()[i] by {
        lemma_index_coord(i, 16, 16);
        lemma_corner_free_neighbours(i % 16, i / 16);
    }
    assert(cave_shape(full_noise(), 16, 16) =~= corner_free());
}

/// The 16 by 16 grid with exactly its interior cells set.
pub open spec fn interior_grid() -> Seq<bool> {
    Seq::new(256, |i: int| interior(16, 16, (i % 16, i / 16)))
}

proof fn lemma_step_in(b: Set<(int, int)>, p: (int, int), q: (int, int))
    requires
        closed(corner_free(), 16, 16, b),
        b.contains(p),
        adjacent(p, q),
        in_bounds(16, 16, q.0, q.1),
        !is_corner(q.0, q.1),
    ensures
        b.contains(q),
{
    lemma_alive_corner_free(q.0, q.1);
    assert(live_at(corner_free(), 16, 16, q));
}

proof fn lemma_sweep_x(b: Set<(int, int)>, x: int, y: int, k: int)
    requires
        closed(corner_free(), 16, 16, b),
        b.contains((x, y)),
        1 <= x <= 14,
        1 <= k <= 14,
        1 <= y <= 14,
    ensures
        b.contains((k, y)),
    decreases (if x < k { k - x } else { x - k }),
{
    if x < k {
        lemma_step_in(b, (x, y), (x + 1, y));
        lemma_sweep_x(b, x + 1, y, k);
    } else if x > k {
        lemma_step_in(b, (x, y), (x - 1, y));
        lemma_sweep_x(b, x - 1, y, k);
    }
}

proof fn lemma_sweep_y(b: Set<(int, int)>, x: int, y: int, k: int)
    requires
        closed(corner_free(), 16, 16, b),
        b.contains((x, y)),
        1 <= x <= 14,
        1 <= k <= 14,
        1 <= y <= 14,
    ensures
        b.contains((x, k)),
    decreases (if y < k { k - y } else { y - k }),
{
    if y < k {
        lemma_step_in(b, (x, y), (x, y + 1));
        lemma_sweep_y(b, x, y + 1, k);
    } else if y > k {
        lemma_step_in(b, (x, y), (x, y - 1));
        lemma_sweep_y(b, x, y - 1, k);
    }
}

/// The largest connected region of the corner-free grid holds every interior
/// cell, so carving it leaves exactly the interior.
pub proof fn lemma_full_region(b: Set<(int, int)>)
    requires
        is_largest_component(corner_free(), 16, 16, b),
    ensures
        carved(b, 16, 16) == interior_grid(),
{
    lemma_alive_corner_free(1, 1);
    assert(live_at(corner_free(), 16, 16, (1, 1)));
    assert(any_live(corner_free(), 16, 16));
    assert(is_component(corner_free(), 16, 16, b));
    let p = choose|p: (int, int)| b.contains(p);
    assert(live_at(corner_free(), 16, 16, p));
    lemma_alive_corner_free(p.0, p.1);
    let q = if interior(16, 16, p) {
        p
    } else if p.0 == 0 {
        (1, p.1)
    } else if p.0 == 15 {
        (14, p.1)
    } else if p.1 == 0 {
        (p.0, 1)
    } else {
        (p.0, 14)
    };
    if q != p {
        lemma_step_in(b, p, q);
    }
    assert forall|r: (int, int)| interior(16, 16, r) implies b.contains(r) by {
        lemma_sweep_x(b, q.0, q.1, r.0);
        lemma_sweep_y(b, r.0, q.1, r.1);
    }
    assert forall|i: int| 0 <= i < 256 implies #[trigger] carved(b, 16, 16)[i] == interior_grid()[i] by {
        lemma_index_coord(i, 16, 16);
    }
    assert(carved(b, 16, 16) =~= interior_grid());
}

/// The number of interior cells among the first `n` cells, row by row.
spec fn interior_count(n: int) -> int {
    let r = n / 16;
    let c = n % 16;
    let full_rows = if r <= 1 { 0 } else if r <= 15 { 14 * (r - 1) } else { 196 };
    let in_row = if 1 <= r <= 14 && c >= 1 { if c - 1 <= 14 { c - 1 } else { 14 } } else { 0 };
    full_rows + in_row
}

proof fn lemma_interior_prefix(n: nat)
    requires
        n <= 256,
    ensures
        open_positions(interior_grid(), 16, n).len() == interior_count(n as int),
    decreases n,
{
    if n > 0 {
        let m = (n - 1) as nat;
        lemma_interior_prefix(m);
        lemma_index_coord(m as int, 16, 16);
        let r = m as int / 16;
        let c = m as int % 16;
        if c < 15 {
            vstd::arithmetic::div_mod::lemma_fundamental_div_mod_converse(n as int, 16, r, c + 1);
        } else {
            vstd::arithmetic::div_mod::lemma_fundamental_div_mod_converse(n as int, 16, r + 1, 0);
        }
    }
}

/// The interior of the 16 by 16 grid has 196 cells.
pub proof fn lemma_interior_open_cells()
    ensures
        open_cells_of(interior_grid(), 16).len() == 196,
{
    lemma_interior_prefix(256);
}

} // verus!
