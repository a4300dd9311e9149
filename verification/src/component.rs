use vstd::prelude::*;
use crate::geometry::{Coord, CardinalDirection, cardinal_offset, all_cardinal_spec};
use crate::grid::{
    dims_ok,
    bool_cells, bool_size, bool_grid_wf, in_bounds, idx, bool_grid_get, bool_grid_get_checked,
    bool_grid_set,
};
use crate::cave::alive;

verus! {

/// Whether the position `p` is a live cell.
pub open spec fn live_at(s: Seq<bool>, w: int, h: int, p: (int, int)) -> bool {
    alive(s, w, h, p.0, p.1)
}

/// Whether `p` and `q` are one cardinal step apart.
pub open spec fn adjacent(p: (int, int), q: (int, int)) -> bool {
    ||| (p.0 == q.0 && (p.1 == q.1 + 1 || q.1 == p.1 + 1))
    ||| (p.1 == q.1 && (p.0 == q.0 + 1 || q.0 == p.0 + 1))
}

/// Every live cell one cardinal step from a member of `set` is a member.
pub open spec fn closed(s: Seq<bool>, w: int, h: int, set: Set<(int, int)>) -> bool {
    forall|p: (int, int), q: (int, int)|
        #![trigger set.contains(p), adjacent(p, q)]
        set.contains(p) && live_at(s, w, h, q) && adjacent(p, q) ==> set.contains(q)
}

/// A connected region of live cells (cardinal steps only): a finite,
/// nonempty set of live cells, closed under stepping to live neighbours, that
/// has no smaller nonempty subset with that closure property.
pub open spec fn is_component(s: Seq<bool>, w: int, h: int, set: Set<(int, int)>) -> bool {
    &&& set.finite()
    &&& exists|p: (int, int)| set.contains(p)
    &&& forall|p: (int, int)| set.contains(p) ==> live_at(s, w, h, p)
    &&& closed(s, w, h, set)
    &&& forall|t: Set<(int, int)>|
        #![trigger closed(s, w, h, t), t.subset_of(set)]
        t.subset_of(set) && (exists|p: (int, int)| t.contains(p)) && closed(s, w, h, t) ==> t == set
}

/// Row-major scan position of `p` on a grid of width `w`.
pub open spec fn scan_index(w: int, p: (int, int)) -> int {
    idx(w, p.0, p.1)
}

/// Whether some cell is live.
pub open spec fn any_live(s: Seq<bool>, w: int, h: int) -> bool {
    exists|p: (int, int)| live_at(s, w, h, p)
}

/// `big` is the largest connected region of live cells, and among regions of
/// that size the one met first in a row-major scan; it is empty when no cell
/// is live.
pub open spec fn is_largest_component(s: Seq<bool>, w: int, h: int, big: Set<(int, int)>) -> bool {
    if any_live(s, w, h) {
        &&& is_component(s, w, h, big)
        &&& forall|c: Set<(int, int)>| #[trigger] is_component(s, w, h, c) ==> c.len() <= big.len()
        &&& forall|c: Set<(int, int)>|
            #[trigger] is_component(s, w, h, c) && c.len() == big.len() ==> exists|b: (int, int)|
                big.contains(b) && forall|q: (int, int)| c.contains(q) ==> scan_index(w, b) <= scan_index(w, q)
    } else {
        big == Set::<(int, int)>::empty()
    }
}

/// The positions of a list of coordinates.
pub open spec fn positions(v: Seq<Coord>) -> Seq<(int, int)> {
    v.map_values(|c: Coord| c.pos())
}

/// The set of positions of a list of coordinates.
pub open spec fn position_set(v: Seq<Coord>) -> Set<(int, int)> {
    positions(v).to_set()
}

/// Each entry after the first is one cardinal step from some earlier entry.
pub open spec fn grown_from_first(v: Seq<(int, int)>) -> bool {
    forall|k: int|
        #![trigger v[k]]
        0 < k < v.len() ==> exists|j: int| #![trigger v[j]] 0 <= j < k && adjacent(v[j], v[k])
}

/// The number of unset entries.
pub open spec fn count_false(s: Seq<bool>) -> nat
    decreases s.len(),
{
    if s.len() == 0 {
        0
    } else {
        count_false(s.drop_last()) + if s.last() { 0nat } else { 1nat }
    }
}

proof fn lemma_count_false_set(s: Seq<bool>, i: int)
    requires
        0 <= i < s.len(),
        !s[i],
    ensures
        count_false(s.update(i, true)) + 1 == count_false(s),
    decreases s.len(),
{
    if i == s.len() - 1 {
        assert(s.update(i, true).drop_last() =~= s.drop_last());
    } else {
        lemma_count_false_set(s.drop_last(), i);
        assert(s.update(i, true).drop_last() =~= s.drop_last().update(i, true));
    }
}

/// Adjacency is symmetric.
pub proof fn lemma_adjacent_symmetric(p: (int, int), q: (int, int))
    ensures
        adjacent(p, q) == adjacent(q, p),
{
}

/// `p` moved one step in direction `d`.
pub open spec fn step(p: (int, int), d: CardinalDirection) -> (int, int) {
    (p.0 + cardinal_offset(d).0, p.1 + cardinal_offset(d).1)
}

/// A cell one cardinal step from `p` is `p` moved in one of the four
/// cardinal directions.
proof fn lemma_adjacent_is_cardinal_step(p: (int, int), q: (int, int))
    requires
        adjacent(p, q),
    ensures
        q == step(p, all_cardinal_spec()[0]) || q == step(p, all_cardinal_spec()[1])
            || q == step(p, all_cardinal_spec()[2]) || q == step(p, all_cardinal_spec()[3]),
{
}

/// The entry of a row-major cell list for position `p`.
pub open spec fn at(cells: Seq<bool>, w: int, p: (int, int)) -> bool {
    cells[idx(w, p.0, p.1)]
}

/// Marks and collects the connected region of live cells that holds `seed`,
/// exploring cardinal steps from a stack, as the level generator does: the
/// region comes back in discovery order, and `seen` gains exactly its cells.
pub fn flood_fill(g: &grid_2d::Grid<bool>, seen: &mut grid_2d::Grid<bool>, seed: Coord) -> (chunk: Vec<Coord>)
    requires
        bool_grid_wf(*g),
        bool_grid_wf(*old(seen)),
        bool_size(*old(seen)) == bool_size(*g),
        live_at(bool_cells(*g), bool_size(*g).0 as int, bool_size(*g).1 as int, seed.pos()),
        !at(bool_cells(*old(seen)), bool_size(*g).0 as int, seed.pos()),
    ensures
        bool_size(*final(seen)) == bool_size(*g),
        bool_grid_wf(*final(seen)),
        chunk@.len() > 0,
        chunk@[0] == seed,
        positions(chunk@).no_duplicates(),
        forall|k: int|
            0 <= k < chunk@.len() ==> live_at(
                bool_cells(*g),
                bool_size(*g).0 as int,
                bool_size(*g).1 as int,
                #[trigger] positions(chunk@)[k],
            ) && !at(bool_cells(*old(seen)), bool_size(*g).0 as int, positions(chunk@)[k]),
        grown_from_first(positions(chunk@)),
        forall|p: (int, int)|
            in_bounds(bool_size(*g).0 as int, bool_size(*g).1 as int, p.0, p.1) ==> #[trigger] at(
                bool_cells(*final(seen)),
                bool_size(*g).0 as int,
                p,
            ) == (at(bool_cells(*old(seen)), bool_size(*g).0 as int, p) || position_set(chunk@).contains(p)),
        forall|k: int, q: (int, int)|
            0 <= k < chunk@.len() && live_at(bool_cells(*g), bool_size(*g).0 as int, bool_size(*g).1 as int, q)
                && #[trigger] adjacent(positions(chunk@)[k], q) ==> at(bool_cells(*final(seen)), bool_size(*g).0 as int, q),
{
    let ghost s = bool_cells(*g);
    let ghost w = bool_size(*g).0 as int;
    let ghost h = bool_size(*g).1 as int;
    let ghost seen0 = bool_cells(*seen);
    proof {
        crate::grid::lemma_idx_in_range(w, h, seed.x as int, seed.y as int);
        lemma_count_false_set(seen0, idx(w, seed.x as int, seed.y as int));
    }
    bool_grid_set(seen, seed, true);
    let mut stack: Vec<Coord> = Vec::new();
    stack.push(seed);
    let mut chunk: Vec<Coord> = Vec::new();
    chunk.push(seed);
    let dirs = CardinalDirection::all();
    proof {
        assert(positions(chunk@) =~= seq![seed.pos()]);
        assert forall|p: (int, int)| in_bounds(w, h, p.0, p.1) implies #[trigger] at(bool_cells(*seen), w, p)
            == (at(seen0, w, p) || position_set(chunk@).contains(p)) by {
            if p != seed.pos() {
                crate::grid::lemma_idx_in_range(w, h, p.0, p.1);
                if idx(w, p.0, p.1) == idx(w, seed.x as int, seed.y as int) {
                    crate::grid::lemma_idx_injective(w, h, p.0, p.1, seed.x as int, seed.y as int);
                }
                assert(!positions(chunk@).contains(p));
            } else {
                assert(positions(chunk@)[0] == p);
            }
        }
        assert(position_set(chunk@).contains(stack@[0].pos())) by {
            assert(positions(chunk@)[0] == seed.pos());
        }
    }
    while stack.len() > 0
        invariant
            bool_grid_wf(*g),
            bool_grid_wf(*seen),
            bool_size(*seen) == bool_size(*g),
            s == bool_cells(*g),
            w == bool_size(*g).0 as int,
            h == bool_size(*g).1 as int,
            seen0.len() == w * h,
            dirs@ == all_cardinal_spec(),
            chunk@.len() > 0,
            chunk@[0] == seed,
            positions(chunk@).no_duplicates(),
            forall|k: int|
                0 <= k < chunk@.len() ==> live_at(s, w, h, #[trigger] positions(chunk@)[k]) && !at(
                    seen0,
                    w,
                    positions(chunk@)[k],
                ),
            grown_from_first(positions(chunk@)),
            forall|p: (int, int)|
                in_bounds(w, h, p.0, p.1) ==> #[trigger] at(bool_cells(*seen), w, p) == (at(seen0, w, p)
                    || position_set(chunk@).contains(p)),
            forall|a: int| 0 <= a < stack@.len() ==> position_set(chunk@).contains(#[trigger] stack@[a].pos()),
            forall|k: int, q: (int, int)|
                0 <= k < chunk@.len() && !stack@.contains(chunk@[k]) && live_at(s, w, h, q)
                    && #[trigger] adjacent(positions(chunk@)[k], q) ==> at(bool_cells(*seen), w, q),
        decreases 2 * count_false(bool_cells(*seen)) + stack@.len(),
    {
        let ghost m0 = 2 * count_false(bool_cells(*seen)) + stack@.len();
        let ghost stack_before = stack@;
        let c = stack.pop().unwrap();
        proof {
            assert(stack_before[stack_before.len() - 1] == c);
            assert(position_set(chunk@).contains(c.pos()));
            assert forall|k2: int| 0 <= k2 < chunk@.len() && chunk@[k2] != c && !stack@.contains(chunk@[k2])
                implies !stack_before.contains(#[trigger] chunk@[k2]) by {
                if stack_before.contains(chunk@[k2]) {
                    let a = choose|a: int| 0 <= a < stack_before.len() && stack_before[a] == chunk@[k2];
                    assert(stack@[a] == chunk@[k2]);
                }
            }
        }
        let mut k: usize = 0;
        while k < 4
            invariant
                bool_grid_wf(*g),
                bool_grid_wf(*seen),
                bool_size(*seen) == bool_size(*g),
                s == bool_cells(*g),
                w == bool_size(*g).0 as int,
                h == bool_size(*g).1 as int,
                seen0.len() == w * h,
                dirs@ == all_cardinal_spec(),
                0 <= k <= 4,
                chunk@.len() > 0,
                chunk@[0] == seed,
                positions(chunk@).no_duplicates(),
                forall|k: int|
                    0 <= k < chunk@.len() ==> live_at(s, w, h, #[trigger] positions(chunk@)[k]) && !at(
                        seen0,
                        w,
                        positions(chunk@)[k],
                    ),
                grown_from_first(positions(chunk@)),
                forall|p: (int, int)|
                    in_bounds(w, h, p.0, p.1) ==> #[trigger] at(bool_cells(*seen), w, p) == (at(seen0, w, p)
                        || position_set(chunk@).contains(p)),
                forall|a: int| 0 <= a < stack@.len() ==> position_set(chunk@).contains(#[trigger] stack@[a].pos()),
                position_set(chunk@).contains(c.pos()),
                forall|k2: int, q: (int, int)|
                    0 <= k2 < chunk@.len() && chunk@[k2] != c && !stack@.contains(chunk@[k2]) && live_at(s, w, h, q)
                        && #[trigger] adjacent(positions(chunk@)[k2], q) ==> at(bool_cells(*seen), w, q),
                forall|j: int|
                    0 <= j < k && live_at(s, w, h, #[trigger] step(c.pos(), dirs@[j])) ==> at(
                        bool_cells(*seen),
                        w,
                        step(c.pos(), dirs@[j]),
                    ),
                2 * count_false(bool_cells(*seen)) + stack@.len() < m0,
            decreases 4 - k,
        {
            let ghost chunk_before = chunk@;
            let ghost stack_before2 = stack@;
            let ghost seen_before = bool_cells(*seen);
            proof {
                let m = choose|m: int| 0 <= m < positions(chunk@).len() && positions(chunk@)[m] == c.pos();
                assert(live_at(s, w, h, positions(chunk@)[m]));
            }
            let d = dirs[k].coord();
            let n = Coord { x: c.x + d.x, y: c.y + d.y };
            let cell = bool_grid_get(g, n);
            match cell {
                Some(true) => {
                    if !bool_grid_get_checked(seen, n) {
                        proof {
                            crate::grid::lemma_idx_in_range(w, h, n.x as int, n.y as int);
                            assert(at(bool_cells(*seen), w, n.pos()) == (at(seen0, w, n.pos())
                                || position_set(chunk@).contains(n.pos())));
                            assert(live_at(s, w, h, n.pos()));
                            assert(!at(seen0, w, n.pos()));
                            lemma_count_false_set(bool_cells(*seen), idx(w, n.x as int, n.y as int));
                        }
                        bool_grid_set(seen, n, true);
                        stack.push(n);
                        chunk.push(n);
                        proof {
                            let m = choose|m: int| 0 <= m < positions(chunk_before).len() && positions(chunk_before)[m] == c.pos();
                            assert(positions(chunk@) =~= positions(chunk_before).push(n.pos()));
                            assert(!positions(chunk_before).contains(n.pos())) by {
                                assert(!at(seen_before, w, n.pos()));
                            }
                            assert(adjacent(positions(chunk@)[m], positions(chunk@)[chunk_before.len() as int]));
                            assert forall|p: (int, int)| in_bounds(w, h, p.0, p.1) implies #[trigger] at(
                                bool_cells(*seen),
                                w,
                                p,
                            ) == (at(seen0, w, p) || position_set(chunk@).contains(p)) by {
                                crate::grid::lemma_idx_in_range(w, h, p.0, p.1);
                                if p != n.pos() {
                                    if idx(w, p.0, p.1) == idx(w, n.x as int, n.y as int) {
                                        crate::grid::lemma_idx_injective(w, h, p.0, p.1, n.x as int, n.y as int);
                                    }
                                    assert(at(bool_cells(*seen), w, p) == at(seen_before, w, p));
                                    assert(positions(chunk@).contains(p) == positions(chunk_before).contains(p)) by {
                                        if positions(chunk@).contains(p) {
                                            let i = choose|i: int| 0 <= i < positions(chunk@).len() && positions(chunk@)[i] == p;
                                            assert(positions(chunk_before)[i] == p);
                                        }
                                        if positions(chunk_before).contains(p) {
                                            let i = choose|i: int| 0 <= i < positions(chunk_before).len() && positions(chunk_before)[i] == p;
                                            assert(positions(chunk@)[i] == p);
                                        }
                                    }
                                } else {
                                    assert(positions(chunk@)[chunk_before.len() as int] == p);
                                }
                            }
                            assert forall|a: int| 0 <= a < stack@.len() implies position_set(chunk@).contains(
                                #[trigger] stack@[a].pos(),
                            ) by {
                                if a < stack_before2.len() {
                                    assert(stack@[a] == stack_before2[a]);
                                    let i = choose|i: int| 0 <= i < positions(chunk_before).len() && positions(chunk_before)[i] == stack@[a].pos();
                                    assert(positions(chunk@)[i] == stack@[a].pos());
                                } else {
                                    assert(positions(chunk@)[chunk_before.len() as int] == stack@[a].pos());
                                }
                            }
                            assert(position_set(chunk@).contains(c.pos())) by {
                                assert(positions(chunk@)[m] == c.pos());
                            }
                            assert forall|k2: int, q: (int, int)|
                                0 <= k2 < chunk@.len() && chunk@[k2] != c && !stack@.contains(chunk@[k2]) && live_at(s, w, h, q)
                                    && #[trigger] adjacent(positions(chunk@)[k2], q) implies at(bool_cells(*seen), w, q) by {
                                if k2 == chunk_before.len() {
                                    assert(stack@[stack@.len() - 1] == chunk@[k2]);
                                } else {
                                    assert(chunk@[k2] == chunk_before[k2]);
                                    assert(positions(chunk@)[k2] == positions(chunk_before)[k2]);
                                    if stack_before2.contains(chunk@[k2]) {
                                        let a = choose|a: int| 0 <= a < stack_before2.len() && stack_before2[a] == chunk@[k2];
                                        assert(stack@[a] == chunk@[k2]);
                                    }
                                    assert(at(seen_before, w, q));
                                    crate::grid::lemma_idx_in_range(w, h, q.0, q.1);
                                }
                            }
                            assert forall|k3: int|
                                0 <= k3 < chunk@.len() implies live_at(s, w, h, #[trigger] positions(chunk@)[k3]) && !at(
                                    seen0,
                                    w,
                                    positions(chunk@)[k3],
                                ) by {
                                if k3 < chunk_before.len() {
                                    assert(positions(chunk@)[k3] == positions(chunk_before)[k3]);
                                }
                            }
                            assert forall|k3: int|
                                #![trigger positions(chunk@)[k3]]
                                0 < k3 < positions(chunk@).len() implies exists|j: int|
                                    #![trigger positions(chunk@)[j]]
                                    0 <= j < k3 && adjacent(positions(chunk@)[j], positions(chunk@)[k3]) by {
                                if k3 < chunk_before.len() {
                                    assert(positions(chunk@)[k3] == positions(chunk_before)[k3]);
                                    let j = choose|j: int| 0 <= j < k3 && adjacent(positions(chunk_before)[j], positions(chunk_before)[k3]);
                                    assert(positions(chunk@)[j] == positions(chunk_before)[j]);
                                } else {
                                    assert(adjacent(positions(chunk@)[m], positions(chunk@)[k3]));
                                }
                            }
                            assert forall|j: int|
                                0 <= j < k + 1 && live_at(s, w, h, #[trigger] step(c.pos(), dirs@[j])) implies at(
                                    bool_cells(*seen),
                                    w,
                                    step(c.pos(), dirs@[j]),
                                ) by {
                                let q = step(c.pos(), dirs@[j]);
                                crate::grid::lemma_idx_in_range(w, h, q.0, q.1);
                                if q != n.pos() {
                                    if idx(w, q.0, q.1) == idx(w, n.x as int, n.y as int) {
                                        crate::grid::lemma_idx_injective(w, h, q.0, q.1, n.x as int, n.y as int);
                                    }
                                }
                            }
                        }
                    } else {
                        proof {
                            crate::grid::lemma_idx_in_range(w, h, n.x as int, n.y as int);
                        }
                    }
                },
                _ => {},
            }
            k = k + 1;
        }
        proof {
            assert forall|k2: int, q: (int, int)|
                0 <= k2 < chunk@.len() && !stack@.contains(chunk@[k2]) && live_at(s, w, h, q)
                    && #[trigger] adjacent(positions(chunk@)[k2], q) implies at(bool_cells(*seen), w, q) by {
                if chunk@[k2] == c {
                    assert(positions(chunk@)[k2] == c.pos());
                    lemma_adjacent_is_cardinal_step(c.pos(), q);
                    let j: int = if q == step(c.pos(), dirs@[0]) {
                        0
                    } else if q == step(c.pos(), dirs@[1]) {
                        1
                    } else if q == step(c.pos(), dirs@[2]) {
                        2
                    } else {
                        3
                    };
                    assert(q == step(c.pos(), dirs@[j]));
                }
            }
        }
    }
    chunk
}

/// A list grown cell by cell from its first entry, all live, lies inside
/// every nonempty closed set of cells that is part of it: such a set holds the
/// whole list.
proof fn lemma_grown_list_in_closed_subset(s: Seq<bool>, w: int, h: int, v: Seq<(int, int)>, t: Set<(int, int)>)
    requires
        v.len() > 0,
        forall|k: int| 0 <= k < v.len() ==> live_at(s, w, h, #[trigger] v[k]),
        grown_from_first(v),
        t.subset_of(v.to_set()),
        exists|p: (int, int)| t.contains(p),
        closed(s, w, h, t),
    ensures
        v.to_set().subset_of(t),
{
    let p = choose|p: (int, int)| t.contains(p);
    assert(v.to_set().contains(p));
    let k0 = choose|k: int| 0 <= k < v.len() && v[k] == p;
    lemma_grown_first_in_closed(s, w, h, v, t, k0);
    assert forall|q: (int, int)| v.to_set().contains(q) implies t.contains(q) by {
        let k = choose|k: int| 0 <= k < v.len() && v[k] == q;
        lemma_grown_all_in_closed(s, w, h, v, t, k);
    }
}

proof fn lemma_grown_first_in_closed(s: Seq<bool>, w: int, h: int, v: Seq<(int, int)>, t: Set<(int, int)>, k: int)
    requires
        0 <= k < v.len(),
        forall|k: int| 0 <= k < v.len() ==> live_at(s, w, h, #[trigger] v[k]),
        grown_from_first(v),
        closed(s, w, h, t),
        t.contains(v[k]),
    ensures
        t.contains(v[0]),
    decreases k,
{
    if k > 0 {
        let j = choose|j: int| #![trigger v[j]] 0 <= j < k && adjacent(v[j], v[k]);
        lemma_adjacent_symmetric(v[j], v[k]);
        assert(live_at(s, w, h, v[j]));
        assert(t.contains(v[j]));
        lemma_grown_first_in_closed(s, w, h, v, t, j);
    }
}

proof fn lemma_grown_all_in_closed(s: Seq<bool>, w: int, h: int, v: Seq<(int, int)>, t: Set<(int, int)>, k: int)
    requires
        0 <= k < v.len(),
        forall|k: int| 0 <= k < v.len() ==> live_at(s, w, h, #[trigger] v[k]),
        grown_from_first(v),
        closed(s, w, h, t),
        t.contains(v[0]),
    ensures
        t.contains(v[k]),
    decreases k,
{
    if k > 0 {
        let j = choose|j: int| #![trigger v[j]] 0 <= j < k && adjacent(v[j], v[k]);
        lemma_grown_all_in_closed(s, w, h, v, t, j);
        assert(live_at(s, w, h, v[k]));
    }
}

/// Two connected regions with a cell in common are the same region.
pub proof fn lemma_components_meeting_are_equal(s: Seq<bool>, w: int, h: int, a: Set<(int, int)>, b: Set<(int, int)>, p: (int, int))
    requires
        is_component(s, w, h, a),
        is_component(s, w, h, b),
        a.contains(p),
        b.contains(p),
    ensures
        a == b,
{
    let t = a.intersect(b);
    assert(t.contains(p));
    assert(closed(s, w, h, t));
    assert(t.subset_of(a));
    assert(t.subset_of(b));
    assert(t == a);
    assert(t == b);
}

/// Whether some set of `sets` holds `p`.
pub open spec fn covered(sets: Seq<Set<(int, int)>>, p: (int, int)) -> bool {
    exists|j: int| 0 <= j < sets.len() && #[trigger] sets[j].contains(p)
}

/// The cells that `flood_fill` collects from an unmarked live cell, when the
/// marked cells are closed under stepping to live neighbours, form a connected
/// region of live cells.
proof fn lemma_fill_is_component(
    s: Seq<bool>,
    w: int,
    h: int,
    seen0: Seq<bool>,
    seen1: Seq<bool>,
    chunk: Seq<Coord>,
)
    requires
        chunk.len() > 0,
        forall|k: int|
            0 <= k < chunk.len() ==> live_at(s, w, h, #[trigger] positions(chunk)[k]) && !at(
                seen0,
                w,
                positions(chunk)[k],
            ),
        grown_from_first(positions(chunk)),
        forall|p: (int, int)|
            in_bounds(w, h, p.0, p.1) ==> #[trigger] at(seen1, w, p) == (at(seen0, w, p) || position_set(
                chunk,
            ).contains(p)),
        forall|k: int, q: (int, int)|
            0 <= k < chunk.len() && live_at(s, w, h, q) && #[trigger] adjacent(positions(chunk)[k], q) ==> at(
                seen1,
                w,
                q,
            ),
        forall|p: (int, int), q: (int, int)|
            #![trigger at(seen0, w, p), adjacent(p, q)]
            in_bounds(w, h, p.0, p.1) && at(seen0, w, p) && live_at(s, w, h, q) && adjacent(p, q) ==> at(
                seen0,
                w,
                q,
            ),
    ensures
        is_component(s, w, h, position_set(chunk)),
{
    let v = positions(chunk);
    let set = position_set(chunk);
    assert(set.finite()) by {
        vstd::seq_lib::seq_to_set_is_finite(v);
    }
    assert(set.contains(v[0]));
    assert forall|p: (int, int)| set.contains(p) implies live_at(s, w, h, p) by {
        let k = choose|k: int| 0 <= k < v.len() && v[k] == p;
    }
    assert forall|p: (int, int), q: (int, int)|
        #![trigger set.contains(p), adjacent(p, q)]
        set.contains(p) && live_at(s, w, h, q) && adjacent(p, q) implies set.contains(q) by {
        let k = choose|k: int| 0 <= k < v.len() && v[k] == p;
        assert(adjacent(v[k], q));
        assert(at(seen1, w, q));
        if at(seen0, w, q) {
            lemma_adjacent_symmetric(p, q);
            assert(adjacent(q, p));
            assert(at(seen0, w, p));
            assert(!at(seen0, w, v[k]));
        }
    }
    assert forall|t: Set<(int, int)>|
        #![trigger closed(s, w, h, t), t.subset_of(set)]
        t.subset_of(set) && (exists|p: (int, int)| t.contains(p)) && closed(s, w, h, t) implies t == set by {
        assert forall|k: int| 0 <= k < v.len() implies live_at(s, w, h, #[trigger] v[k]) by {}
        lemma_grown_list_in_closed_subset(s, w, h, v, t);
        assert(t =~= set);
    }
}

/// The facts that a row-major scan for regions keeps up to scan position `i`:
/// the marked cells are exactly those of the regions found, they are closed
/// under stepping to live neighbours, every live cell before `i` is marked,
/// and each region found is a connected region whose first scanned cell is its
/// seed, the seeds lying before `i` in increasing order.
#[verifier::opaque]
pub open spec fn scan_state(
    s: Seq<bool>,
    w: int,
    h: int,
    seen: Seq<bool>,
    comps: Seq<Set<(int, int)>>,
    seeds: Seq<(int, int)>,
    i: int,
) -> bool {
    &&& comps.len() == seeds.len()
    &&& forall|p: (int, int)| in_bounds(w, h, p.0, p.1) ==> #[trigger] at(seen, w, p) == covered(comps, p)
    &&& forall|p: (int, int), q: (int, int)|
        #![trigger at(seen, w, p), adjacent(p, q)]
        in_bounds(w, h, p.0, p.1) && at(seen, w, p) && live_at(s, w, h, q) && adjacent(p, q) ==> at(seen, w, q)
    &&& forall|p: (int, int)|
        #![trigger live_at(s, w, h, p)]
        live_at(s, w, h, p) && scan_index(w, p) < i ==> at(seen, w, p)
    &&& forall|j: int|
        0 <= j < comps.len() ==> is_component(s, w, h, #[trigger] comps[j]) && comps[j].contains(seeds[j])
            && scan_index(w, seeds[j]) < i && forall|q: (int, int)|
            comps[j].contains(q) ==> scan_index(w, seeds[j]) <= scan_index(w, q)
    &&& forall|j: int, k: int|
        0 <= j < k < comps.len() ==> scan_index(w, #[trigger] seeds[j]) < scan_index(w, #[trigger] seeds[k])
}

proof fn lemma_scan_start(s: Seq<bool>, w: int, h: int)
    requires
        dims_ok(w, h),
    ensures
        scan_state(s, w, h, Seq::new((w * h) as nat, |i: int| false), Seq::empty(), Seq::empty(), 0),
{
    reveal(scan_state);
    let seen = Seq::new((w * h) as nat, |i: int| false);
    let comps = Seq::<Set<(int, int)>>::empty();
    assert forall|p: (int, int)| in_bounds(w, h, p.0, p.1) implies #[trigger] at(seen, w, p) == covered(comps, p) by {
        crate::grid::lemma_idx_in_range(w, h, p.0, p.1);
    }
    assert forall|p: (int, int), q: (int, int)|
        #![trigger at(seen, w, p), adjacent(p, q)]
        in_bounds(w, h, p.0, p.1) && at(seen, w, p) && live_at(s, w, h, q) && adjacent(p, q) implies at(seen, w, q) by {
        crate::grid::lemma_idx_in_range(w, h, p.0, p.1);
    }
    assert forall|p: (int, int)|
        #![trigger live_at(s, w, h, p)]
        live_at(s, w, h, p) && scan_index(w, p) < 0 implies at(seen, w, p) by {
        crate::grid::lemma_idx_in_range(w, h, p.0, p.1);
    }
}

/// Moving past a scan position that starts no new region.
proof fn lemma_scan_skip(
    s: Seq<bool>,
    w: int,
    h: int,
    seen: Seq<bool>,
    comps: Seq<Set<(int, int)>>,
    seeds: Seq<(int, int)>,
    c: (int, int),
)
    requires
        scan_state(s, w, h, seen, comps, seeds, scan_index(w, c)),
        in_bounds(w, h, c.0, c.1),
        live_at(s, w, h, c) ==> at(seen, w, c),
    ensures
        scan_state(s, w, h, seen, comps, seeds, scan_index(w, c) + 1),
{
    reveal(scan_state);
    assert forall|p: (int, int)|
        #![trigger live_at(s, w, h, p)]
        live_at(s, w, h, p) && scan_index(w, p) < scan_index(w, c) + 1 implies at(seen, w, p) by {
        if scan_index(w, p) == scan_index(w, c) {
            crate::grid::lemma_idx_injective(w, h, p.0, p.1, c.0, c.1);
        }
    }
}

/// Recording the region that `flood_fill` collected from the live, unmarked
/// cell at the scan position.
proof fn lemma_scan_record(
    s: Seq<bool>,
    w: int,
    h: int,
    seen0: Seq<bool>,
    seen1: Seq<bool>,
    comps: Seq<Set<(int, int)>>,
    seeds: Seq<(int, int)>,
    chunk: Seq<Coord>,
)
    requires
        dims_ok(w, h),
        seen0.len() == w * h,
        scan_state(s, w, h, seen0, comps, seeds, scan_index(w, positions(chunk)[0])),
        chunk.len() > 0,
        in_bounds(w, h, positions(chunk)[0].0, positions(chunk)[0].1),
        positions(chunk).no_duplicates(),
        forall|k: int|
            0 <= k < chunk.len() ==> live_at(s, w, h, #[trigger] positions(chunk)[k]) && !at(seen0, w, positions(chunk)[k]),
        grown_from_first(positions(chunk)),
        forall|p: (int, int)|
            in_bounds(w, h, p.0, p.1) ==> #[trigger] at(seen1, w, p) == (at(seen0, w, p) || position_set(chunk).contains(p)),
        forall|k: int, q: (int, int)|
            0 <= k < chunk.len() && live_at(s, w, h, q) && #[trigger] adjacent(positions(chunk)[k], q) ==> at(seen1, w, q),
    ensures
        scan_state(
            s,
            w,
            h,
            seen1,
            comps.push(position_set(chunk)),
            seeds.push(positions(chunk)[0]),
            scan_index(w, positions(chunk)[0]) + 1,
        ),
        is_component(s, w, h, position_set(chunk)),
        position_set(chunk).len() == chunk.len(),
{
    reveal(scan_state);
    let c = positions(chunk)[0];
    let i = scan_index(w, c);
    let cs = position_set(chunk);
    assert forall|p: (int, int), q: (int, int)|
        #![trigger at(seen0, w, p), adjacent(p, q)]
        in_bounds(w, h, p.0, p.1) && at(seen0, w, p) && live_at(s, w, h, q) && adjacent(p, q) implies at(seen0, w, q) by {}
    lemma_fill_is_component(s, w, h, seen0, seen1, chunk);
    positions(chunk).unique_seq_to_set();
    assert forall|q: (int, int)| cs.contains(q) implies scan_index(w, c) <= scan_index(w, q) by {
        let k = choose|k: int| 0 <= k < positions(chunk).len() && positions(chunk)[k] == q;
        assert(live_at(s, w, h, positions(chunk)[k]));
    }
    let ncomps = comps.push(cs);
    let nseeds = seeds.push(c);
    assert forall|p: (int, int)| in_bounds(w, h, p.0, p.1) implies #[trigger] at(seen1, w, p) == covered(ncomps, p) by {
        assert(at(seen0, w, p) == covered(comps, p));
        if covered(comps, p) {
            let j = choose|j: int| 0 <= j < comps.len() && #[trigger] comps[j].contains(p);
            assert(ncomps[j].contains(p));
        }
        if covered(ncomps, p) {
            let j = choose|j: int| 0 <= j < ncomps.len() && #[trigger] ncomps[j].contains(p);
            if j < comps.len() {
                assert(comps[j].contains(p));
            }
        }
        if cs.contains(p) {
            assert(ncomps[comps.len() as int].contains(p));
        }
    }
    assert forall|p: (int, int), q: (int, int)|
        #![trigger at(seen1, w, p), adjacent(p, q)]
        in_bounds(w, h, p.0, p.1) && at(seen1, w, p) && live_at(s, w, h, q) && adjacent(p, q) implies at(seen1, w, q) by {
        if at(seen0, w, p) {
            assert(at(seen0, w, q));
            crate::grid::lemma_idx_in_range(w, h, q.0, q.1);
        } else {
            assert(cs.contains(p));
            let k = choose|k: int| 0 <= k < positions(chunk).len() && positions(chunk)[k] == p;
            assert(adjacent(positions(chunk)[k], q));
        }
    }
    assert forall|p: (int, int)|
        #![trigger live_at(s, w, h, p)]
        live_at(s, w, h, p) && scan_index(w, p) < i + 1 implies at(seen1, w, p) by {
        if scan_index(w, p) < i {
            assert(at(seen0, w, p));
        } else {
            crate::grid::lemma_idx_injective(w, h, p.0, p.1, c.0, c.1);
            assert(cs.contains(p));
        }
    }
    assert forall|j: int|
        0 <= j < ncomps.len() implies is_component(s, w, h, #[trigger] ncomps[j]) && ncomps[j].contains(nseeds[j])
            && scan_index(w, nseeds[j]) < i + 1 && forall|q: (int, int)|
            ncomps[j].contains(q) ==> scan_index(w, nseeds[j]) <= scan_index(w, q) by {
        if j < comps.len() {
            assert(ncomps[j] == comps[j]);
            assert(nseeds[j] == seeds[j]);
        } else {
            assert(cs.contains(c));
        }
    }
    assert forall|j: int, k: int|
        0 <= j < k < ncomps.len() implies scan_index(w, #[trigger] nseeds[j]) < scan_index(w, #[trigger] nseeds[k]) by {
        if k < comps.len() {
            assert(nseeds[j] == seeds[j]);
            assert(nseeds[k] == seeds[k]);
        } else {
            assert(nseeds[j] == seeds[j]);
            assert(comps[j].contains(seeds[j]));
        }
    }
}

/// At the end of the scan every connected region has been found.
proof fn lemma_scan_found_all(
    s: Seq<bool>,
    w: int,
    h: int,
    seen: Seq<bool>,
    comps: Seq<Set<(int, int)>>,
    seeds: Seq<(int, int)>,
    cc: Set<(int, int)>,
) -> (j: int)
    requires
        dims_ok(w, h),
        scan_state(s, w, h, seen, comps, seeds, w * h),
        is_component(s, w, h, cc),
    ensures
        0 <= j < comps.len(),
        comps[j] == cc,
{
    reveal(scan_state);
    let q = choose|q: (int, int)| cc.contains(q);
    assert(live_at(s, w, h, q));
    crate::grid::lemma_idx_in_range(w, h, q.0, q.1);
    assert(at(seen, w, q));
    let j = choose|j: int| 0 <= j < comps.len() && #[trigger] comps[j].contains(q);
    assert(is_component(s, w, h, comps[j]));
    lemma_components_meeting_are_equal(s, w, h, comps[j], cc, q);
    j
}

/// At the end of the scan, the region found at index `bi`, the first of the
/// largest, is the largest connected region.
proof fn lemma_scan_finish(
    s: Seq<bool>,
    w: int,
    h: int,
    seen: Seq<bool>,
    comps: Seq<Set<(int, int)>>,
    seeds: Seq<(int, int)>,
    bi: int,
    big: Set<(int, int)>,
)
    requires
        dims_ok(w, h),
        scan_state(s, w, h, seen, comps, seeds, w * h),
        comps.len() == 0 ==> big == Set::<(int, int)>::empty(),
        comps.len() > 0 ==> {
            &&& 0 <= bi < comps.len()
            &&& big == comps[bi]
            &&& forall|j: int| 0 <= j < bi ==> (#[trigger] comps[j]).len() < comps[bi].len()
            &&& forall|j: int| 0 <= j < comps.len() ==> (#[trigger] comps[j]).len() <= comps[bi].len()
        },
    ensures
        is_largest_component(s, w, h, big),
{
    if any_live(s, w, h) {
        let p = choose|p: (int, int)| live_at(s, w, h, p);
        crate::grid::lemma_idx_in_range(w, h, p.0, p.1);
        assert(comps.len() > 0) by {
            reveal(scan_state);
            assert(at(seen, w, p));
        }
        assert(is_component(s, w, h, comps[bi]) && comps[bi].contains(seeds[bi])) by {
            reveal(scan_state);
        }
        assert forall|cc: Set<(int, int)>| #[trigger] is_component(s, w, h, cc) implies cc.len() <= big.len() by {
            let j = lemma_scan_found_all(s, w, h, seen, comps, seeds, cc);
        }
        assert forall|cc: Set<(int, int)>|
            #[trigger] is_component(s, w, h, cc) && cc.len() == big.len() implies exists|b: (int, int)|
                big.contains(b) && forall|q: (int, int)| cc.contains(q) ==> scan_index(w, b) <= scan_index(w, q) by {
            let j = lemma_scan_found_all(s, w, h, seen, comps, seeds, cc);
            let b = seeds[bi];
            reveal(scan_state);
            if j != bi {
                assert(j > bi);
                assert(scan_index(w, seeds[bi]) < scan_index(w, seeds[j]));
                assert(comps[j].contains(seeds[j]));
            }
            assert(forall|q: (int, int)| cc.contains(q) ==> scan_index(w, b) <= scan_index(w, q));
        }
    } else {
        if comps.len() > 0 {
            reveal(scan_state);
            assert(is_component(s, w, h, comps[0]));
            let q = choose|q: (int, int)| comps[0].contains(q);
            assert(live_at(s, w, h, q));
        }
    }
}

/// The largest connected region (cardinal steps) of live cells of `g`, the
/// first met in a row-major scan among equally large ones; empty when no cell
/// is live. Regions are found by scanning for unmarked live cells and filling
/// from each.
pub fn biggest_component(g: &grid_2d::Grid<bool>) -> (big: Vec<Coord>)
    requires
        bool_grid_wf(*g),
    ensures
        is_largest_component(bool_cells(*g), bool_size(*g).0 as int, bool_size(*g).1 as int, position_set(big@)),
        positions(big@).no_duplicates(),
        forall|k: int|
            0 <= k < big@.len() ==> live_at(bool_cells(*g), bool_size(*g).0 as int, bool_size(*g).1 as int, #[trigger] positions(big@)[k]),
{
    let ghost s = bool_cells(*g);
    let ghost w = bool_size(*g).0 as int;
    let ghost h = bool_size(*g).1 as int;
    let width = crate::grid::bool_grid_width(g);
    let height = crate::grid::bool_grid_height(g);
    let mut seen = crate::grid::bool_grid_new(width, height, false);
    let mut biggest: Vec<Coord> = Vec::new();
    let ghost mut comps: Seq<Set<(int, int)>> = Seq::empty();
    let ghost mut seeds: Seq<(int, int)> = Seq::empty();
    let ghost mut bi: int = 0;
    let total: usize = (width as usize) * (height as usize);
    let mut i: usize = 0;
    proof {
        lemma_scan_start(s, w, h);
        assert(position_set(biggest@) =~= Set::<(int, int)>::empty());
    }
    while i < total
        invariant
            bool_grid_wf(*g),
            bool_grid_wf(seen),
            bool_size(seen) == bool_size(*g),
            s == bool_cells(*g),
            w == width,
            h == height,
            w == bool_size(*g).0 as int,
            h == bool_size(*g).1 as int,
            total == w * h,
            i <= total,
            scan_state(s, w, h, bool_cells(seen), comps, seeds, i as int),
            comps.len() == 0 ==> biggest@.len() == 0,
            comps.len() > 0 ==> {
                &&& 0 <= bi < comps.len()
                &&& position_set(biggest@) == comps[bi]
                &&& forall|j: int| 0 <= j < bi ==> (#[trigger] comps[j]).len() < comps[bi].len()
                &&& forall|j: int| 0 <= j < comps.len() ==> (#[trigger] comps[j]).len() <= comps[bi].len()
            },
            positions(biggest@).no_duplicates(),
            biggest@.len() == position_set(biggest@).len(),
            forall|k: int| 0 <= k < biggest@.len() ==> live_at(s, w, h, #[trigger] positions(biggest@)[k]),
        decreases total - i,
    {
        proof {
            crate::grid::lemma_index_coord(i as int, w, h);
        }
        let x = (i % (width as usize)) as i32;
        let y = (i / (width as usize)) as i32;
        let c = Coord { x, y };
        let ghost seen_before = bool_cells(seen);
        let live = bool_grid_get_checked(g, c);
        let marked = bool_grid_get_checked(&seen, c);
        if live && !marked {
            assert(live_at(s, w, h, c.pos()));
            let chunk = flood_fill(g, &mut seen, c);
            proof {
                assert(positions(chunk@)[0] == c.pos());
                lemma_scan_record(s, w, h, seen_before, bool_cells(seen), comps, seeds, chunk@);
                let old_comps = comps;
                comps = comps.push(position_set(chunk@));
                seeds = seeds.push(c.pos());
                if old_comps.len() > 0 {
                    assert(forall|j: int| 0 <= j < old_comps.len() ==> comps[j] == old_comps[j]);
                }
            }
            if chunk.len() > biggest.len() {
                proof {
                    bi = (comps.len() - 1) as int;
                }
                biggest = chunk;
            }
        } else {
            proof {
                lemma_scan_skip(s, w, h, seen_before, comps, seeds, c.pos());
            }
        }
        i = i + 1;
    }
    proof {
        if comps.len() == 0 {
            assert(position_set(biggest@) =~= Set::<(int, int)>::empty());
        }
        lemma_scan_finish(s, w, h, bool_cells(seen), comps, seeds, bi, position_set(biggest@));
    }
    biggest
}

/// Only one set of cells is the largest connected region: it is the region of
/// greatest size, and a row-major scan meets it first among regions of that size.
pub proof fn lemma_largest_component_unique(s: Seq<bool>, w: int, h: int, a: Set<(int, int)>, b: Set<(int, int)>)
    requires
        is_largest_component(s, w, h, a),
        is_largest_component(s, w, h, b),
    ensures
        a == b,
{
    if any_live(s, w, h) {
        assert(a.len() <= b.len());
        assert(b.len() <= a.len());
        let bb = choose|bb: (int, int)| b.contains(bb) && forall|q: (int, int)| a.contains(q) ==> scan_index(w, bb) <= scan_index(w, q);
        let aa = choose|aa: (int, int)| a.contains(aa) && forall|q: (int, int)| b.contains(q) ==> scan_index(w, aa) <= scan_index(w, q);
        assert(live_at(s, w, h, aa));
        assert(live_at(s, w, h, bb));
        crate::grid::lemma_idx_injective(w, h, aa.0, aa.1, bb.0, bb.1);
        lemma_components_meeting_are_equal(s, w, h, a, b, aa);
    }
}

} // verus!
