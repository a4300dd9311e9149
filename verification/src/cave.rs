use vstd::prelude::*;
use crate::geometry::{Coord, Direction, direction_offset, all_directions_spec};
use crate::component::{positions, position_set, is_largest_component, biggest_component, lemma_largest_component_unique};
use crate::grid::{bool_cells, bool_size, bool_grid_wf, in_bounds, idx, lemma_index_coord, bool_grid_get, bool_grid_get_checked, bool_grid_set, bool_grid_width, bool_grid_height, bool_grid_clone};

verus! {

/// Whether (x, y) is a live cell: on the grid and set.
pub open spec fn alive(s: Seq<bool>, w: int, h: int, x: int, y: int) -> bool {
    in_bounds(w, h, x, y) && s[idx(w, x, y)]
}

/// 1 for a true condition, 0 for a false one.
pub open spec fn one_if(b: bool) -> int {
    if b { 1 } else { 0 }
}

/// How many of the cells one step from (x, y) in the directions `ds` are live.
pub open spec fn live_among(s: Seq<bool>, w: int, h: int, x: int, y: int, ds: Seq<Direction>) -> int
    decreases ds.len(),
{
    if ds.len() == 0 {
        0
    } else {
        live_among(s, w, h, x, y, ds.drop_last()) + one_if(
            alive(s, w, h, x + direction_offset(ds.last()).0, y + direction_offset(ds.last()).1),
        )
    }
}

/// How many of the eight cells around (x, y) are live.
pub open spec fn live_neighbours(s: Seq<bool>, w: int, h: int, x: int, y: int) -> int {
    live_among(s, w, h, x, y, all_directions_spec())
}

/// The smoothing rule: a live cell stays live with 4 to 8 live neighbours,
/// a dead cell comes alive with exactly 5.
pub open spec fn smoothing_rule(live: bool, n: int) -> bool {
    if live { 4 <= n && n <= 8 } else { n == 5 }
}

/// One generation of the smoothing automaton on every cell at once.
pub open spec fn smoothing_step(s: Seq<bool>, w: int, h: int) -> Seq<bool> {
    Seq::new(s.len(), |i: int| smoothing_rule(s[i], live_neighbours(s, w, h, i % w, i / w)))
}

/// `n` generations of the smoothing automaton.
pub open spec fn smoothed(s: Seq<bool>, w: int, h: int, n: nat) -> Seq<bool>
    decreases n,
{
    if n == 0 {
        s
    } else {
        smoothing_step(smoothed(s, w, h, (n - 1) as nat), w, h)
    }
}

/// What one smoothing generation does to each cell, by its number of live
/// neighbours: a live cell with fewer than 4 dies and one with 4 or more
/// stays; a dead cell comes alive with exactly 5 and stays dead otherwise.
pub proof fn lemma_smoothing_by_count(s: Seq<bool>, w: int, h: int, i: int)
    requires
        0 <= i < s.len(),
    ensures
        ({
            let n = live_neighbours(s, w, h, i % w, i / w);
            &&& s[i] && n < 4 ==> !smoothing_step(s, w, h)[i]
            &&& s[i] && 4 <= n <= 8 ==> smoothing_step(s, w, h)[i]
            &&& !s[i] && n == 5 ==> smoothing_step(s, w, h)[i]
            &&& !s[i] && n != 5 ==> !smoothing_step(s, w, h)[i]
        }),
{
}

/// The filling pass: a dead cell of `cur` comes alive with more than 4 live
/// neighbours; at a live cell of `cur` the result keeps what `prev` holds there.
pub open spec fn filling_step(cur: Seq<bool>, prev: Seq<bool>, w: int, h: int) -> Seq<bool> {
    Seq::new(cur.len(), |i: int| if cur[i] { prev[i] } else { live_neighbours(cur, w, h, i % w, i / w) > 4 })
}

/// The open shape made from the noise: six smoothing generations, then the
/// filling pass over the sixth, which keeps the fifth generation's value at
/// the sixth generation's live cells.
pub open spec fn cave_shape(noise: Seq<bool>, w: int, h: int) -> Seq<bool> {
    filling_step(smoothed(noise, w, h, 6), smoothed(noise, w, h, 5), w, h)
}

/// The number of live cells among the eight around `c`.
pub fn live_neighbour_count(g: &grid_2d::Grid<bool>, c: Coord) -> (n: u8)
    requires
        bool_grid_wf(*g),
        in_bounds(bool_size(*g).0 as int, bool_size(*g).1 as int, c.x as int, c.y as int),
    ensures
        n as int == live_neighbours(bool_cells(*g), bool_size(*g).0 as int, bool_size(*g).1 as int, c.x as int, c.y as int),
{
    let ghost s = bool_cells(*g);
    let ghost w = bool_size(*g).0 as int;
    let ghost h = bool_size(*g).1 as int;
    let dirs = Direction::all();
    let mut count: u8 = 0;
    let mut k: usize = 0;
    while k < dirs.len()
        invariant
            dirs@ == all_directions_spec(),
            0 <= k <= 8,
            count <= k,
            count as int == live_among(s, w, h, c.x as int, c.y as int, dirs@.take(k as int)),
            bool_grid_wf(*g),
            s == bool_cells(*g),
            w == bool_size(*g).0,
            h == bool_size(*g).1,
            in_bounds(w, h, c.x as int, c.y as int),
        decreases 8 - k,
    {
        let d = dirs[k].coord();
        let n = Coord { x: c.x + d.x, y: c.y + d.y };
        let cell = bool_grid_get(g, n);
        assert(dirs@.take(k + 1).drop_last() =~= dirs@.take(k as int));
        match cell {
            Some(true) => {
                count = count + 1;
            },
            _ => {},
        }
        k = k + 1;
    }
    assert(dirs@.take(8) =~= dirs@);
    count
}

/// Writes one generation of the smoothing automaton of `src` into `dst`.
pub fn smoothing_step_into(src: &grid_2d::Grid<bool>, dst: &mut grid_2d::Grid<bool>)
    requires
        bool_grid_wf(*src),
        bool_grid_wf(*old(dst)),
        bool_size(*old(dst)) == bool_size(*src),
    ensures
        bool_size(*final(dst)) == bool_size(*src),
        bool_cells(*final(dst)) == smoothing_step(bool_cells(*src), bool_size(*src).0 as int, bool_size(*src).1 as int),
{
    let ghost s = bool_cells(*src);
    let ghost wi = bool_size(*src).0 as int;
    let ghost hi = bool_size(*src).1 as int;
    let w = bool_grid_width(src);
    let h = bool_grid_height(src);
    let total: usize = (w as usize) * (h as usize);
    let mut i: usize = 0;
    while i < total
        invariant
            bool_grid_wf(*src),
            bool_grid_wf(*dst),
            s == bool_cells(*src),
            wi == w, hi == h,
            bool_size(*src) == (w as nat, h as nat),
            bool_size(*dst) == bool_size(*src),
            total == w * h,
            i <= total,
            forall|j: int| 0 <= j < i ==> bool_cells(*dst)[j] == smoothing_step(s, wi, hi)[j],
        decreases total - i,
    {
        proof {
            lemma_index_coord(i as int, wi, hi);
        }
        let x = (i % (w as usize)) as i32;
        let y = (i / (w as usize)) as i32;
        let c = Coord { x, y };
        let live = bool_grid_get_checked(src, c);
        let n = live_neighbour_count(src, c);
        let next = if live { 4 <= n && n <= 8 } else { n == 5 };
        bool_grid_set(dst, c, next);
        i = i + 1;
    }
    assert(bool_cells(*dst) =~= smoothing_step(s, wi, hi));
}

/// Applies the filling pass of `cur` to `dst`, which holds the generation
/// before `cur`: dead cells of `cur` are decided by their neighbours, the
/// rest of `dst` stays.
pub fn filling_step_into(cur: &grid_2d::Grid<bool>, dst: &mut grid_2d::Grid<bool>)
    requires
        bool_grid_wf(*cur),
        bool_grid_wf(*old(dst)),
        bool_size(*old(dst)) == bool_size(*cur),
    ensures
        bool_size(*final(dst)) == bool_size(*cur),
        bool_cells(*final(dst)) == filling_step(
            bool_cells(*cur),
            bool_cells(*old(dst)),
            bool_size(*cur).0 as int,
            bool_size(*cur).1 as int,
        ),
{
    let ghost s = bool_cells(*cur);
    let ghost prev = bool_cells(*dst);
    let ghost wi = bool_size(*cur).0 as int;
    let ghost hi = bool_size(*cur).1 as int;
    let w = bool_grid_width(cur);
    let h = bool_grid_height(cur);
    let total: usize = (w as usize) * (h as usize);
    let mut i: usize = 0;
    while i < total
        invariant
            bool_grid_wf(*cur),
            bool_grid_wf(*dst),
            s == bool_cells(*cur),
            wi == w, hi == h,
            bool_size(*cur) == (w as nat, h as nat),
            bool_size(*dst) == bool_size(*cur),
            total == w * h,
            prev.len() == total,
            i <= total,
            forall|j: int| 0 <= j < i ==> bool_cells(*dst)[j] == filling_step(s, prev, wi, hi)[j],
            forall|j: int| i <= j < total ==> bool_cells(*dst)[j] == prev[j],
        decreases total - i,
    {
        proof {
            lemma_index_coord(i as int, wi, hi);
        }
        let x = (i % (w as usize)) as i32;
        let y = (i / (w as usize)) as i32;
        let c = Coord { x, y };
        let live = bool_grid_get_checked(cur, c);
        if !live {
            let n = live_neighbour_count(cur, c);
            bool_grid_set(dst, c, n > 4);
        }
        i = i + 1;
    }
    assert(bool_cells(*dst) =~= filling_step(s, prev, wi, hi));
}

/// Runs six smoothing generations on `noise` and then the filling pass.
pub fn smooth_and_fill(noise: grid_2d::Grid<bool>) -> (r: grid_2d::Grid<bool>)
    requires
        bool_grid_wf(noise),
    ensures
        bool_size(r) == bool_size(noise),
        bool_cells(r) == cave_shape(bool_cells(noise), bool_size(noise).0 as int, bool_size(noise).1 as int),
{
    let ghost s0 = bool_cells(noise);
    let ghost w = bool_size(noise).0 as int;
    let ghost h = bool_size(noise).1 as int;
    let mut grid = noise;
    let mut tmp = bool_grid_clone(&grid);
    let mut k: usize = 0;
    while k < 6
        invariant
            k <= 6,
            0 <= w,
            0 <= h,
            bool_grid_wf(grid),
            bool_grid_wf(tmp),
            bool_size(grid) == (w as nat, h as nat),
            bool_size(tmp) == (w as nat, h as nat),
            bool_cells(grid) == smoothed(s0, w, h, k as nat),
            k > 0 ==> bool_cells(tmp) == smoothed(s0, w, h, (k - 1) as nat),
        decreases 6 - k,
    {
        smoothing_step_into(&grid, &mut tmp);
        proof {
            assert(smoothed(s0, w, h, (k + 1) as nat) == smoothing_step(smoothed(s0, w, h, k as nat), w, h));
            assert(smoothing_step(bool_cells(grid), w, h).len() == bool_cells(grid).len());
        }
        std::mem::swap(&mut grid, &mut tmp);
        k = k + 1;
    }
    filling_step_into(&grid, &mut tmp);
    proof {
        assert(filling_step(bool_cells(grid), smoothed(s0, w, h, 5), w, h).len() == bool_cells(grid).len());
    }
    std::mem::swap(&mut grid, &mut tmp);
    grid
}

/// Whether `p` lies inside the grid and off its outer ring of cells.
pub open spec fn interior(w: int, h: int, p: (int, int)) -> bool {
    0 < p.0 && 0 < p.1 && p.0 < w - 1 && p.1 < h - 1
}

/// The row-major cells that are set exactly where `region` has an interior cell.
pub open spec fn carved(region: Set<(int, int)>, w: int, h: int) -> Seq<bool> {
    Seq::new((w * h) as nat, |i: int| region.contains((i % w, i / w)) && interior(w, h, (i % w, i / w)))
}

/// The largest connected region of live cells (see `is_largest_component`).
pub open spec fn largest_region(s: Seq<bool>, w: int, h: int) -> Set<(int, int)> {
    choose|b: Set<(int, int)>| is_largest_component(s, w, h, b)
}

/// The level shape made from `noise`: the interior of the largest connected
/// region of its smoothed and filled shape.
pub open spec fn level_shape(noise: Seq<bool>, w: int, h: int) -> Seq<bool> {
    carved(largest_region(cave_shape(noise, w, h), w, h), w, h)
}

/// Clears `grid` and then sets the interior cells among `region`.
pub fn carve(grid: &mut grid_2d::Grid<bool>, region: &Vec<Coord>)
    requires
        bool_grid_wf(*old(grid)),
        forall|k: int|
            0 <= k < region@.len() ==> in_bounds(
                bool_size(*old(grid)).0 as int,
                bool_size(*old(grid)).1 as int,
                #[trigger] positions(region@)[k].0,
                positions(region@)[k].1,
            ),
    ensures
        bool_size(*final(grid)) == bool_size(*old(grid)),
        bool_cells(*final(grid)) == carved(
            position_set(region@),
            bool_size(*old(grid)).0 as int,
            bool_size(*old(grid)).1 as int,
        ),
{
    let ghost wi = bool_size(*grid).0 as int;
    let ghost hi = bool_size(*grid).1 as int;
    let w = bool_grid_width(grid);
    let h = bool_grid_height(grid);
    let total: usize = (w as usize) * (h as usize);
    let mut i: usize = 0;
    while i < total
        invariant
            bool_grid_wf(*grid),
            wi == w,
            hi == h,
            bool_size(*grid) == (w as nat, h as nat),
            total == w * h,
            i <= total,
            forall|j: int| 0 <= j < i ==> !bool_cells(*grid)[j],
        decreases total - i,
    {
        proof {
            lemma_index_coord(i as int, wi, hi);
        }
        let c = Coord { x: (i % (w as usize)) as i32, y: (i / (w as usize)) as i32 };
        bool_grid_set(grid, c, false);
        i = i + 1;
    }
    let mut k: usize = 0;
    proof {
        assert(positions(region@).take(0) =~= Seq::<(int, int)>::empty());
        assert forall|p: (int, int)| in_bounds(wi, hi, p.0, p.1) implies #[trigger] bool_cells(*grid)[idx(wi, p.0, p.1)]
            == (positions(region@).take(0).contains(p) && interior(wi, hi, p)) by {
            crate::grid::lemma_idx_in_range(wi, hi, p.0, p.1);
        }
    }
    while k < region.len()
        invariant
            bool_grid_wf(*grid),
            wi == w,
            hi == h,
            bool_size(*grid) == (w as nat, h as nat),
            total == w * h,
            k <= region@.len(),
            forall|k2: int|
                0 <= k2 < region@.len() ==> in_bounds(wi, hi, #[trigger] positions(region@)[k2].0, positions(region@)[k2].1),
            forall|p: (int, int)|
                in_bounds(wi, hi, p.0, p.1) ==> #[trigger] bool_cells(*grid)[idx(wi, p.0, p.1)] == (positions(
                    region@,
                ).take(k as int).contains(p) && interior(wi, hi, p)),
        decreases region@.len() - k,
    {
        let c = region[k];
        assert(positions(region@)[k as int] == c.pos());
        assert(in_bounds(wi, hi, positions(region@)[k as int].0, positions(region@)[k as int].1));
        let ghost before = bool_cells(*grid);
        proof {
            crate::grid::lemma_idx_in_range(wi, hi, c.x as int, c.y as int);
        }
        assert(forall|p: (int, int)|
            in_bounds(wi, hi, p.0, p.1) ==> #[trigger] before[idx(wi, p.0, p.1)] == (positions(region@).take(k as int).contains(p)
                && interior(wi, hi, p)));
        if c.x > 0 && c.y > 0 && (c.x as u32) < w - 1 && (c.y as u32) < h - 1 {
            bool_grid_set(grid, c, true);
        }
        proof {
            assert forall|p: (int, int)| in_bounds(wi, hi, p.0, p.1) implies #[trigger] bool_cells(*grid)[idx(wi, p.0, p.1)]
                == (positions(region@).take(k + 1).contains(p) && interior(wi, hi, p)) by {
                assert(positions(region@).take(k + 1) =~= positions(region@).take(k as int).push(c.pos()));
                crate::grid::lemma_idx_in_range(wi, hi, p.0, p.1);
                crate::grid::lemma_idx_in_range(wi, hi, c.x as int, c.y as int);
                if p != c.pos() && idx(wi, p.0, p.1) == idx(wi, c.x as int, c.y as int) {
                    crate::grid::lemma_idx_injective(wi, hi, p.0, p.1, c.x as int, c.y as int);
                }
                assert(before[idx(wi, p.0, p.1)] == (positions(region@).take(k as int).contains(p) && interior(wi, hi, p)));
                if positions(region@).take(k + 1).contains(p) && p != c.pos() {
                    let t = choose|t: int| #![trigger positions(region@).take(k + 1)[t]] 0 <= t < k + 1 && positions(region@).take(k + 1)[t] == p;
                    assert(positions(region@).take(k as int)[t] == p);
                }
                if positions(region@).take(k as int).contains(p) {
                    let t = choose|t: int| #![trigger positions(region@).take(k as int)[t]] 0 <= t < k && positions(region@).take(k as int)[t] == p;
                    assert(positions(region@).take(k + 1)[t] == p);
                }
                if p == c.pos() {
                    assert(positions(region@).take(k + 1)[k as int] == p);
                }
            }
        }
        k = k + 1;
    }
    proof {
        assert(positions(region@).take(region@.len() as int) =~= positions(region@));
        assert forall|j: int| 0 <= j < total implies bool_cells(*grid)[j] == carved(position_set(region@), wi, hi)[j] by {
            lemma_index_coord(j, wi, hi);
            let p = (j % wi, j / wi);
            assert(bool_cells(*grid)[idx(wi, p.0, p.1)] == (positions(region@).contains(p) && interior(wi, hi, p)));
        }
        assert(bool_cells(*grid) =~= carved(position_set(region@), wi, hi));
    }
}

/// The level shape made from a noise grid: smoothing, filling, then carving
/// out the interior of the largest connected region.
pub fn candidate_from_noise(noise: grid_2d::Grid<bool>) -> (r: grid_2d::Grid<bool>)
    requires
        bool_grid_wf(noise),
    ensures
        bool_size(r) == bool_size(noise),
        bool_grid_wf(r),
        bool_cells(r) == level_shape(bool_cells(noise), bool_size(noise).0 as int, bool_size(noise).1 as int),
        is_largest_component(
            cave_shape(bool_cells(noise), bool_size(noise).0 as int, bool_size(noise).1 as int),
            bool_size(noise).0 as int,
            bool_size(noise).1 as int,
            largest_region(
                cave_shape(bool_cells(noise), bool_size(noise).0 as int, bool_size(noise).1 as int),
                bool_size(noise).0 as int,
                bool_size(noise).1 as int,
            ),
        ),
{
    let ghost w = bool_size(noise).0 as int;
    let ghost h = bool_size(noise).1 as int;
    let ghost s0 = bool_cells(noise);
    let mut grid = smooth_and_fill(noise);
    proof {
        assert(bool_grid_wf(grid)) by {
            assert(cave_shape(s0, w, h).len() == smoothed(s0, w, h, 6).len());
            lemma_smoothed_len(s0, w, h, 6);
        }
    }
    let biggest = biggest_component(&grid);
    proof {
        lemma_largest_component_unique(
            bool_cells(grid),
            w,
            h,
            position_set(biggest@),
            largest_region(bool_cells(grid), w, h),
        );
        assert forall|k: int| 0 <= k < biggest@.len() implies in_bounds(w, h, #[trigger] positions(biggest@)[k].0, positions(biggest@)[k].1) by {
            assert(crate::component::live_at(bool_cells(grid), w, h, positions(biggest@)[k]));
        }
    }
    carve(&mut grid, &biggest);
    proof {
        assert(carved(position_set(biggest@), w, h).len() == w * h);
    }
    grid
}

/// Smoothing keeps the number of cells.
pub proof fn lemma_smoothed_len(s: Seq<bool>, w: int, h: int, n: nat)
    ensures
        smoothed(s, w, h, n).len() == s.len(),
    decreases n,
{
    if n > 0 {
        lemma_smoothed_len(s, w, h, (n - 1) as nat);
    }
}

/// The positions of the set cells among the first `n` entries of `s`, in
/// row-major order.
pub open spec fn open_positions(s: Seq<bool>, w: int, n: nat) -> Seq<(int, int)>
    decreases n,
{
    if n == 0 {
        Seq::empty()
    } else {
        let prev = open_positions(s, w, (n - 1) as nat);
        let i = n - 1;
        if s[i] {
            prev.push((i % w, i / w))
        } else {
            prev
        }
    }
}

/// The positions of all set cells of `s`, in row-major order.
pub open spec fn open_cells_of(s: Seq<bool>, w: int) -> Seq<(int, int)> {
    open_positions(s, w, s.len())
}

/// Each listed position is a set cell on the grid, listed once.
pub proof fn lemma_open_positions(s: Seq<bool>, w: int, h: int, n: nat)
    requires
        n <= s.len(),
        s.len() == w * h,
        0 <= w,
        0 <= h,
    ensures
        open_positions(s, w, n).no_duplicates(),
        forall|k: int|
            0 <= k < open_positions(s, w, n).len() ==> {
                let p = #[trigger] open_positions(s, w, n)[k];
                &&& in_bounds(w, h, p.0, p.1)
                &&& s[idx(w, p.0, p.1)]
                &&& idx(w, p.0, p.1) < n
            },
    decreases n,
{
    if n > 0 {
        lemma_open_positions(s, w, h, (n - 1) as nat);
        let prev = open_positions(s, w, (n - 1) as nat);
        let i = n - 1;
        lemma_index_coord(i, w, h);
        if s[i] {
            let p = (i % w, i / w);
            assert forall|k: int| 0 <= k < prev.len() implies prev[k] != p by {
                assert(idx(w, prev[k].0, prev[k].1) < i);
            }
            assert forall|k: int|
                0 <= k < open_positions(s, w, n).len() implies {
                    let q = #[trigger] open_positions(s, w, n)[k];
                    &&& in_bounds(w, h, q.0, q.1)
                    &&& s[idx(w, q.0, q.1)]
                    &&& idx(w, q.0, q.1) < n
                } by {
                if k < prev.len() {
                    assert(open_positions(s, w, n)[k] == prev[k]);
                }
            }
        }
    }
}

/// The set cells of `g`, in row-major order.
pub fn open_cells(g: &grid_2d::Grid<bool>) -> (v: Vec<Coord>)
    requires
        bool_grid_wf(*g),
    ensures
        positions(v@) == open_cells_of(bool_cells(*g), bool_size(*g).0 as int),
{
    let ghost s = bool_cells(*g);
    let ghost wi = bool_size(*g).0 as int;
    let ghost hi = bool_size(*g).1 as int;
    let w = bool_grid_width(g);
    let h = bool_grid_height(g);
    let total: usize = (w as usize) * (h as usize);
    let mut v: Vec<Coord> = Vec::new();
    let mut i: usize = 0;
    while i < total
        invariant
            bool_grid_wf(*g),
            s == bool_cells(*g),
            wi == w,
            hi == h,
            bool_size(*g) == (w as nat, h as nat),
            total == w * h,
            i <= total,
            positions(v@) == open_positions(s, wi, i as nat),
        decreases total - i,
    {
        proof {
            lemma_index_coord(i as int, wi, hi);
        }
        let c = Coord { x: (i % (w as usize)) as i32, y: (i / (w as usize)) as i32 };
        let ghost before = v@;
        if bool_grid_get_checked(g, c) {
            v.push(c);
            assert(positions(v@) =~= positions(before).push(c.pos()));
        }
        i = i + 1;
    }
    v
}

} // verus!
