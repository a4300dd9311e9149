use vstd::prelude::*;
use crate::geometry::{Coord, CardinalDirection, cardinal_offset, opposite};
use crate::grid::{
    bool_cells, bool_size, bool_grid_wf, cell_cells, cell_size, cell_grid_wf, in_bounds, idx,
    lemma_idx_in_range, lemma_idx_injective, lemma_index_coord, bool_grid_new, bool_grid_set,
    bool_grid_get_checked, cell_grid_new, cell_grid_get, cell_grid_set,
    cell_grid_width, cell_grid_height,
};
use crate::full_shape::{full_noise, corner_free, interior_grid, lemma_cave_shape_full, lemma_full_region, lemma_interior_open_cells};
use crate::cave::{largest_region, interior, open_positions, level_shape, open_cells_of, candidate_from_noise, open_cells, lemma_open_positions};
use crate::component::positions;
use crate::random::Generator;

verus! {

/// What occupies one square of a level.
#[derive(Clone, Copy, Debug, PartialEq, Eq, Structural)]
pub enum Cell {
    Floor,
    Wall,
    Stairs,
}

/// Width of every level.
pub const LEVEL_WIDTH: u32 = 16;

/// Height of every level.
pub const LEVEL_HEIGHT: u32 = 16;

/// A level made by the generator from some noise: its open cells (floor or
/// stairs) are the carved level shape of that noise, which has more than 64
/// cells; the stairs stand on one open cell and the player on another.
pub open spec fn is_generated_level(level: Seq<Cell>, w: int, h: int, player: (int, int)) -> bool {
    exists|noise: Seq<bool>, stairs: (int, int)|
        #![trigger level_shape(noise, w, h), in_bounds(w, h, stairs.0, stairs.1)]
        noise.len() == w * h && in_bounds(w, h, stairs.0, stairs.1) && level_made_from(
            level,
            level_shape(noise, w, h),
            w,
            h,
            player,
            stairs,
        )
}

/// `level` is painted from `shape` with the stairs at `stairs`, and the player
/// and the stairs stand on two different open cells of a shape with more than
/// 64 open cells.
pub open spec fn level_made_from(
    level: Seq<Cell>,
    shape: Seq<bool>,
    w: int,
    h: int,
    player: (int, int),
    stairs: (int, int),
) -> bool {
    &&& open_cells_of(shape, w).len() > 64
    &&& in_bounds(w, h, player.0, player.1)
    &&& shape[idx(w, player.0, player.1)]
    &&& shape[idx(w, stairs.0, stairs.1)]
    &&& player != stairs
    &&& level == painted(shape, w, stairs)
}

/// Floor where `shape` is set, wall elsewhere, and the stairs at `stairs`.
pub open spec fn painted(shape: Seq<bool>, w: int, stairs: (int, int)) -> Seq<Cell> {
    Seq::new(
        shape.len(),
        |i: int|
            if i == idx(w, stairs.0, stairs.1) {
                Cell::Stairs
            } else if shape[i] {
                Cell::Floor
            } else {
                Cell::Wall
            },
    )
}

/// The noise of attempt `j` among draws `d`: its `j`-th block of 256 booleans,
/// one per cell of a 16 by 16 grid in row-major order.
pub open spec fn attempt_noise(d: Seq<bool>, j: int) -> Seq<bool> {
    d.subrange(256 * j, 256 * j + 256)
}

/// A noise grid is thrown away when its level shape has 64 open cells or fewer.
pub open spec fn too_small(noise: Seq<bool>) -> bool {
    open_cells_of(level_shape(noise, 16, 16), 16).len() <= 64
}

/// `shape` is the level shape kept after drawing `d` in `k` attempts of 256
/// booleans each: every attempt before the last was too small, and `shape` is
/// the level shape of the last attempt's noise; only when all of `u64::MAX`
/// attempts were too small is it the level shape of the full noise grid.
pub open spec fn shape_from_draws(d: Seq<bool>, k: int, shape: Seq<bool>) -> bool {
    &&& 1 <= k <= u64::MAX
    &&& d.len() == 256 * k
    &&& forall|j: int| 0 <= j < k - 1 ==> #[trigger] too_small(attempt_noise(d, j))
    &&& if !too_small(attempt_noise(d, k - 1)) {
        shape == level_shape(attempt_noise(d, k - 1), 16, 16)
    } else {
        k == u64::MAX && shape == level_shape(full_noise(), 16, 16)
    }
}

/// `g`'s level and player came from its generator after the draws `d` and
/// the shuffles `s`: the draws since then hold attempts at a level shape
/// (see `shape_from_draws`) and exactly one shuffle was made since, of the
/// shape's open cells in row-major order; the player stands on the last cell
/// of the shuffled list, the stairs on the one before it, and the level is
/// the shape painted with those stairs.
pub open spec fn generated_from(d: Seq<bool>, s: Seq<(Seq<Coord>, Seq<Coord>)>, g: Game) -> bool {
    let e = g.shuffles().last();
    let order = e.1;
    &&& g.draws().take(d.len() as int) == d
    &&& g.shuffles() == s.push(e)
    &&& order.to_multiset() == e.0.to_multiset()
    &&& order.len() >= 2
    &&& g.player() == order[order.len() - 1].pos()
    &&& exists|k: int, shape: Seq<bool>|
        #[trigger] shape_from_draws(g.draws().skip(d.len() as int), k, shape) && positions(e.0) == open_cells_of(
            shape,
            16,
        ) && g.level() == painted(shape, 16, order[order.len() - 2].pos())
}

/// At most one cell holds stairs.
pub open spec fn at_most_one_stairs(level: Seq<Cell>) -> bool {
    forall|i: int, j: int|
        0 <= i < level.len() && 0 <= j < level.len() && level[i] == Cell::Stairs && level[j] == Cell::Stairs ==> i == j
}

/// What the screen shows in one square: a character, whether it is bold,
/// and the grey level of its background when it has one.
#[derive(Clone, Copy, Debug, PartialEq, Eq, Structural)]
pub struct Glyph {
    pub character: char,
    pub bold: bool,
    pub background_grey: Option<u8>,
}

/// How a square is drawn: the player as a bold '@'; otherwise floor as a
/// blank, wall as a blank on a mid-grey (127) background, stairs as a bold '>'.
pub open spec fn glyph_spec(cell: Cell, is_player: bool) -> Glyph {
    if is_player {
        Glyph { character: '@', bold: true, background_grey: None }
    } else {
        match cell {
            Cell::Floor => Glyph { character: ' ', bold: false, background_grey: None },
            Cell::Wall => Glyph { character: ' ', bold: false, background_grey: Some(127u8) },
            Cell::Stairs => Glyph { character: '>', bold: true, background_grey: None },
        }
    }
}

/// How a square is drawn (see `glyph_spec`).
pub fn glyph(cell: Cell, is_player: bool) -> (g: Glyph)
    ensures
        g == glyph_spec(cell, is_player),
{
    if is_player {
        Glyph { character: '@', bold: true, background_grey: None }
    } else {
        match cell {
            Cell::Floor => Glyph { character: ' ', bold: false, background_grey: None },
            Cell::Wall => Glyph { character: ' ', bold: false, background_grey: Some(127u8) },
            Cell::Stairs => Glyph { character: '>', bold: true, background_grey: None },
        }
    }
}

/// The cave game: a 16 by 16 level, the player's position, and the random
/// number generator that makes new levels.
pub struct Game {
    rng: Generator,
    world: grid_2d::Grid<Cell>,
    player_coord: Coord,
}

/// What a step in direction `d` does to a game: onto floor the player moves
/// and nothing else changes, the random number generator included; onto the
/// stairs a new level is made from the generator's next draws and shuffle
/// (see `generated_from`); into a wall or off the level the whole game stays
/// as it was.
pub open spec fn walk_outcome(before: Game, after: Game, d: CardinalDirection) -> bool {
    let t = (before.player().0 + cardinal_offset(d).0, before.player().1 + cardinal_offset(d).1);
    if in_bounds(16, 16, t.0, t.1) && before.level()[idx(16, t.0, t.1)] == Cell::Floor {
        after.same_but_player(before) && after.player() == t
    } else if in_bounds(16, 16, t.0, t.1) && before.level()[idx(16, t.0, t.1)] == Cell::Stairs {
        &&& is_generated_level(after.level(), 16, 16, after.player())
        &&& generated_from(before.draws(), before.shuffles(), after)
    } else {
        after == before
    }
}

/// The number of cells among the first `n` of `level` that are not wall.
pub open spec fn open_count(level: Seq<Cell>, n: nat) -> nat
    decreases n,
{
    if n == 0 {
        0
    } else {
        open_count(level, (n - 1) as nat) + if level[n - 1] != Cell::Wall { 1nat } else { 0nat }
    }
}

/// What every generated level satisfies with its player: 16 by 16, exactly
/// one staircase, the player on floor, a walled outer ring, and more than 64
/// cells that are not wall.
pub open spec fn level_invariant(level: Seq<Cell>, player: (int, int)) -> bool {
    &&& level.len() == 256
    &&& in_bounds(16, 16, player.0, player.1)
    &&& level[idx(16, player.0, player.1)] == Cell::Floor
    &&& exists|s: (int, int)| in_bounds(16, 16, s.0, s.1) && #[trigger] level[idx(16, s.0, s.1)] == Cell::Stairs
    &&& at_most_one_stairs(level)
    &&& forall|p: (int, int)|
        in_bounds(16, 16, p.0, p.1) && !interior(16, 16, p) ==> #[trigger] level[idx(16, p.0, p.1)] == Cell::Wall
    &&& open_count(level, 256) > 64
}

/// A game as `Game::new` makes it: on a generated level, made from the first
/// draws and the first shuffle of a fresh generator.
pub open spec fn is_new_game(g: Game) -> bool {
    &&& g.wf()
    &&& is_generated_level(g.level(), 16, 16, g.player())
    &&& generated_from(Seq::empty(), Seq::empty(), g)
}

impl Game {
    /// The level's cells, in row-major order.
    pub closed spec fn level(self) -> Seq<Cell> {
        cell_cells(self.world)
    }

    /// The player's position.
    pub closed spec fn player(self) -> (int, int) {
        self.player_coord.pos()
    }

    /// `self` and `other` have the same level and the same random number
    /// generator state; only the player may differ.
    pub closed spec fn same_but_player(self, other: Game) -> bool {
        &&& self.world == other.world
        &&& self.rng == other.rng
    }

    /// Every boolean drawn from the generator for this game, in order.
    pub closed spec fn draws(self) -> Seq<bool> {
        self.rng.draws()
    }

    /// Every shuffle made with this game's generator: the list before and after.
    pub closed spec fn shuffles(self) -> Seq<(Seq<Coord>, Seq<Coord>)> {
        self.rng.shuffles()
    }

    /// Games with the same level, generator state and player are equal.
    pub proof fn lemma_same_but_player(self, other: Game)
        requires
            self.same_but_player(other),
        ensures
            self.level() == other.level(),
            self.player() == other.player() ==> self == other,
    {
    }

    /// A 16 by 16 level with the player on a floor cell and at most one
    /// staircase.
    pub closed spec fn wf(self) -> bool {
        &&& cell_grid_wf(self.world)
        &&& cell_size(self.world) == (16nat, 16nat)
        &&& in_bounds(16, 16, self.player_coord.x as int, self.player_coord.y as int)
        &&& cell_cells(self.world)[idx(16, self.player_coord.x as int, self.player_coord.y as int)] == Cell::Floor
        &&& at_most_one_stairs(cell_cells(self.world))
    }

    /// The level has 256 cells and the player stands on floor inside it.
    pub proof fn lemma_wf_facts(self)
        requires
            self.wf(),
        ensures
            self.level().len() == 256,
            in_bounds(16, 16, self.player().0, self.player().1),
            self.level()[idx(16, self.player().0, self.player().1)] == Cell::Floor,
            at_most_one_stairs(self.level()),
    {
        assert(cell_size(self.world).0 * cell_size(self.world).1 == 256);
    }

    /// A new game on a freshly generated level.
    pub fn new() -> (g: Game)
        ensures
            is_new_game(g),
            level_invariant(g.level(), g.player()),
    {
        let rng = Generator::from_entropy();
        let world = cell_grid_new(LEVEL_WIDTH, LEVEL_HEIGHT, Cell::Floor);
        let player_coord = Coord { x: 0, y: 0 };
        let mut s = Game { rng, world, player_coord };
        proof {
            assert(cell_cells(s.world)[0] == Cell::Floor);
            assert(at_most_one_stairs(cell_cells(s.world)));
        }
        s.generate();
        proof {
            lemma_generated_level_facts(s.level(), s.player());
        }
        s
    }

    /// A level shape made from fresh random noise of the level's size.
    fn generate_candidate(&mut self) -> (r: grid_2d::Grid<bool>)
        requires
            old(self).wf(),
        ensures
            final(self).world == old(self).world,
            final(self).player_coord == old(self).player_coord,
            bool_grid_wf(r),
            bool_size(r) == (16nat, 16nat),
            final(self).shuffles() == old(self).shuffles(),
            final(self).draws().len() == old(self).draws().len() + 256,
            final(self).draws().take(old(self).draws().len() as int) == old(self).draws(),
            level_shape(final(self).draws().skip(old(self).draws().len() as int), 16, 16) == bool_cells(r),
    {
        let ghost start = self.draws();
        let w = cell_grid_width(&self.world);
        let h = cell_grid_height(&self.world);
        let mut noise = bool_grid_new(w, h, false);
        let total: usize = (w as usize) * (h as usize);
        let mut i: usize = 0;
        while i < total
            invariant
                self.world == old(self).world,
                self.player_coord == old(self).player_coord,
                self.shuffles() == old(self).shuffles(),
                start == old(self).draws(),
                self.draws().len() == start.len() + i,
                self.draws().take(start.len() as int) == start,
                forall|j: int| 0 <= j < i ==> #[trigger] bool_cells(noise)[j] == self.draws()[start.len() + j],
                w == 16,
                h == 16,
                total == 256,
                i <= total,
                bool_grid_wf(noise),
                bool_size(noise) == (16nat, 16nat),
            decreases total - i,
        {
            proof {
                lemma_index_coord(i as int, 16, 16);
            }
            let c = Coord { x: (i % (w as usize)) as i32, y: (i / (w as usize)) as i32 };
            let ghost before = self.draws();
            let b = self.rng.gen_bool();
            bool_grid_set(&mut noise, c, b);
            assert(self.draws().take(start.len() as int) =~= before.take(start.len() as int));
            i = i + 1;
        }
        let ghost n = bool_cells(noise);
        assert(bool_cells(noise).len() == 256) by {
            let (w, h) = bool_size(noise);
            assert(w * h == 256) by (nonlinear_arith) requires w == 16, h == 16;
        }
        assert(n =~= self.draws().skip(start.len() as int));
        let r = candidate_from_noise(noise);
        assert(level_shape(n, 16, 16) == bool_cells(r));
        r
    }

    /// Keeps a drawn level shape when it has more than 64 open cells, with
    /// those cells in row-major order.
    fn accept_shape(shape: grid_2d::Grid<bool>) -> (r: Option<(grid_2d::Grid<bool>, Vec<Coord>)>)
        requires
            bool_grid_wf(shape),
            bool_size(shape) == (16nat, 16nat),
        ensures
            (r is Some) == (open_cells_of(bool_cells(shape), 16).len() > 64),
            r matches Some((g, v)) ==> {
                &&& bool_cells(g) == bool_cells(shape)
                &&& bool_size(g) == bool_size(shape)
                &&& positions(v@) == open_cells_of(bool_cells(g), 16)
            },
    {
        let open = open_cells(&shape);
        if open.len() > 64 {
            Some((shape, open))
        } else {
            None
        }
    }

    /// The level shape of the full noise grid, with its open cells: the
    /// interior of the 16 by 16 grid.
    fn full_shape() -> (r: (grid_2d::Grid<bool>, Vec<Coord>))
        ensures
            bool_grid_wf(r.0),
            bool_size(r.0) == (16nat, 16nat),
            bool_cells(r.0) == level_shape(full_noise(), 16, 16),
            bool_cells(r.0) == interior_grid(),
            positions(r.1@) == open_cells_of(bool_cells(r.0), 16),
            r.1@.len() == 196,
    {
        let noise = bool_grid_new(LEVEL_WIDTH, LEVEL_HEIGHT, true);
        assert(bool_cells(noise) =~= full_noise());
        let shape = candidate_from_noise(noise);
        proof {
            lemma_cave_shape_full();
            lemma_full_region(largest_region(corner_free(), 16, 16));
            lemma_interior_open_cells();
        }
        let open = open_cells(&shape);
        (shape, open)
    }

    /// Draws level shapes until one has more than 64 open cells and gives it
    /// with its open cells in row-major order. Should all of `u64::MAX` shapes
    /// drawn be too small, it gives the shape of the full noise grid instead.
    fn find_candidate(&mut self) -> (r: (grid_2d::Grid<bool>, Vec<Coord>))
        requires
            old(self).wf(),
        ensures
            final(self).world == old(self).world,
            final(self).player_coord == old(self).player_coord,
            bool_grid_wf(r.0),
            bool_size(r.0) == (16nat, 16nat),
            positions(r.1@) == open_cells_of(bool_cells(r.0), 16),
            r.1@.len() > 64,
            exists|noise: Seq<bool>| noise.len() == 256 && #[trigger] level_shape(noise, 16, 16) == bool_cells(r.0),
            final(self).shuffles() == old(self).shuffles(),
            final(self).draws().take(old(self).draws().len() as int) == old(self).draws(),
            exists|k: int|
                #[trigger] shape_from_draws(final(self).draws().skip(old(self).draws().len() as int), k, bool_cells(r.0)),
    {
        let ghost l0 = self.draws().len() as int;
        let mut attempt: u64 = 0;
        while attempt < u64::MAX
            invariant
                self.wf(),
                self.world == old(self).world,
                self.player_coord == old(self).player_coord,
                l0 == old(self).draws().len(),
                self.shuffles() == old(self).shuffles(),
                self.draws().len() == l0 + 256 * attempt,
                self.draws().take(l0) == old(self).draws(),
                forall|j: int| 0 <= j < attempt ==> #[trigger] too_small(attempt_noise(self.draws().skip(l0), j)),
            decreases u64::MAX - attempt,
        {
            let ghost d0 = self.draws();
            let candidate = self.generate_candidate();
            proof {
                lemma_extend_attempts(d0, self.draws(), l0, attempt as int);
            }
            if let Some(found) = Self::accept_shape(candidate) {
                assert(shape_from_draws(self.draws().skip(l0), attempt + 1, bool_cells(found.0)));
                return found;
            }
            attempt = attempt + 1;
        }
        let r = Self::full_shape();
        assert(full_noise().len() == 256 && level_shape(full_noise(), 16, 16) == bool_cells(r.0));
        assert(shape_from_draws(self.draws().skip(l0), u64::MAX as int, bool_cells(r.0)));
        r
    }

    /// Puts the player on the last cell of `order` and the stairs on the one
    /// before, and paints the level from `shape`; the generator is not used.
    fn place(&mut self, shape: &grid_2d::Grid<bool>, order: Vec<Coord>)
        requires
            old(self).wf(),
            bool_grid_wf(*shape),
            bool_size(*shape) == (16nat, 16nat),
            order@.len() >= 2,
            order@.no_duplicates(),
            forall|k: int|
                0 <= k < order@.len() ==> in_bounds(16, 16, (#[trigger] order@[k]).x as int, order@[k].y as int)
                    && bool_cells(*shape)[idx(16, order@[k].x as int, order@[k].y as int)],
        ensures
            final(self).wf(),
            final(self).rng == old(self).rng,
            final(self).player() == order@[order@.len() - 1].pos(),
            final(self).level() == painted(bool_cells(*shape), 16, order@[order@.len() - 2].pos()),
    {
        let ghost o = order@;
        let mut order = order;
        let player = order.pop().unwrap();
        let stairs = order.pop().unwrap();
        proof {
            assert(o[o.len() - 1] == player);
            assert(o[o.len() - 2] == stairs);
            assert(player != stairs);
            lemma_idx_in_range(16, 16, player.x as int, player.y as int);
            lemma_idx_in_range(16, 16, stairs.x as int, stairs.y as int);
            if idx(16, player.x as int, player.y as int) == idx(16, stairs.x as int, stairs.y as int) {
                lemma_idx_injective(16, 16, player.x as int, player.y as int, stairs.x as int, stairs.y as int);
            }
        }
        Self::paint(&mut self.world, shape, stairs);
        self.player_coord = player;
        proof {
            assert(bool_cells(*shape).len() == 256) by {
                let (w, h) = bool_size(*shape);
                assert(w * h == 256) by (nonlinear_arith) requires w == 16, h == 16;
            }
        }
    }

    /// Writes floor where `shape` is set and wall elsewhere, then the stairs.
    fn paint(world: &mut grid_2d::Grid<Cell>, shape: &grid_2d::Grid<bool>, stairs: Coord)
        requires
            cell_grid_wf(*old(world)),
            cell_size(*old(world)) == (16nat, 16nat),
            bool_grid_wf(*shape),
            bool_size(*shape) == (16nat, 16nat),
            in_bounds(16, 16, stairs.x as int, stairs.y as int),
        ensures
            cell_grid_wf(*final(world)),
            cell_size(*final(world)) == (16nat, 16nat),
            cell_cells(*final(world)) == painted(bool_cells(*shape), 16, stairs.pos()),
    {
        let total: usize = 256;
        let mut i: usize = 0;
        while i < total
            invariant
                cell_grid_wf(*world),
                cell_size(*world) == (16nat, 16nat),
                bool_grid_wf(*shape),
                bool_size(*shape) == (16nat, 16nat),
                total == 256,
                i <= total,
                forall|j: int|
                    0 <= j < i ==> cell_cells(*world)[j] == (if bool_cells(*shape)[j] {
                        Cell::Floor
                    } else {
                        Cell::Wall
                    }),
            decreases total - i,
        {
            proof {
                lemma_index_coord(i as int, 16, 16);
            }
            let c = Coord { x: (i % 16) as i32, y: (i / 16) as i32 };
            let open = bool_grid_get_checked(shape, c);
            if open {
                cell_grid_set(world, c, Cell::Floor);
            } else {
                cell_grid_set(world, c, Cell::Wall);
            }
            i = i + 1;
        }
        proof {
            lemma_idx_in_range(16, 16, stairs.x as int, stairs.y as int);
            let (w, h) = bool_size(*shape);
            assert(w * h == 256) by (nonlinear_arith) requires w == 16, h == 16;
            let (w2, h2) = cell_size(*world);
            assert(w2 * h2 == 256) by (nonlinear_arith) requires w2 == 16, h2 == 16;
        }
        cell_grid_set(world, stairs, Cell::Stairs);
        assert(cell_cells(*world) =~= painted(bool_cells(*shape), 16, stairs.pos()));
    }

    /// Makes a new level: a shape with more than 64 open cells (see
    /// `find_candidate`), painted with floor and wall, the player and the
    /// stairs on two of its open cells picked at random.
    fn generate(&mut self)
        requires
            old(self).wf(),
        ensures
            final(self).wf(),
            is_generated_level(final(self).level(), 16, 16, final(self).player()),
            generated_from(old(self).draws(), old(self).shuffles(), *final(self)),
    {
        let (shape, open) = self.find_candidate();
        let ghost d1 = self.draws();
        let mut open = open;
        let ghost listed = open@;
        proof {
            assert(bool_size(shape) == (16nat, 16nat));
            assert(bool_cells(shape).len() == 256) by {
                let (w, h) = bool_size(shape);
                assert(w * h == 256) by (nonlinear_arith) requires w == 16, h == 16;
            }
            lemma_open_positions(bool_cells(shape), 16, 16, 256);
            assert(listed.no_duplicates()) by {
                assert forall|a: int, b: int| 0 <= a < listed.len() && 0 <= b < listed.len() && a != b
                    implies listed[a] != listed[b] by {
                    assert(positions(listed)[a] != positions(listed)[b]);
                }
            }
            listed.lemma_multiset_has_no_duplicates();
        }
        self.rng.shuffle(&mut open);
        let ghost shuffled = open@;
        proof {
            broadcast use vstd::seq_lib::group_to_multiset_ensures;
            shuffled.lemma_multiset_has_no_duplicates_conv();
            assert forall|k: int|
                0 <= k < shuffled.len() implies in_bounds(16, 16, (#[trigger] shuffled[k]).x as int, shuffled[k].y as int)
                    && bool_cells(shape)[idx(16, shuffled[k].x as int, shuffled[k].y as int)] by {
                assert(shuffled.to_multiset().count(shuffled[k]) > 0);
                assert(listed.to_multiset().count(shuffled[k]) > 0);
                assert(listed.contains(shuffled[k]));
                let a = choose|a: int| 0 <= a < listed.len() && listed[a] == shuffled[k];
                assert(positions(listed)[a] == shuffled[k].pos());
            }
        }
        self.place(&shape, open);
        proof {
            let player = shuffled[shuffled.len() - 1];
            let stairs = shuffled[shuffled.len() - 2];
            let noise = choose|noise: Seq<bool>| noise.len() == 256 && #[trigger] level_shape(noise, 16, 16) == bool_cells(shape);
            assert(level_made_from(self.level(), level_shape(noise, 16, 16), 16, 16, player.pos(), stairs.pos()));
            assert(is_generated_level(self.level(), 16, 16, self.player()));
            let k = choose|k: int| #[trigger] shape_from_draws(d1.skip(old(self).draws().len() as int), k, bool_cells(shape));
            assert(self.shuffles().last() == (listed, shuffled));
            assert(shape_from_draws(self.draws().skip(old(self).draws().len() as int), k, bool_cells(shape)));
        }
    }

    /// Moves the player one step in `direction` onto floor; a wall or the
    /// edge of the level stops it, and stepping onto the stairs makes a new
    /// level instead of moving.
    pub fn player_walk(&mut self, direction: CardinalDirection)
        requires
            old(self).wf(),
        ensures
            final(self).wf(),
            walk_outcome(*old(self), *final(self), direction),
    {
        let d = direction.coord();
        let dest = Coord { x: self.player_coord.x + d.x, y: self.player_coord.y + d.y };
        match cell_grid_get(&self.world, dest) {
            Some(Cell::Wall) => {},
            Some(Cell::Floor) => {
                self.player_coord = dest;
            },
            Some(Cell::Stairs) => {
                self.generate();
            },
            None => {},
        }
    }

    /// The glyph of every square of the level in row-major order, with its
    /// position.
    pub fn render(&self) -> (r: Vec<(Coord, Glyph)>)
        requires
            self.wf(),
        ensures
            r@.len() == 256,
            forall|i: int|
                0 <= i < 256 ==> (#[trigger] r@[i]).0.pos() == (i % 16, i / 16) && r@[i].1 == glyph_spec(
                    self.level()[i],
                    (i % 16, i / 16) == self.player(),
                ),
    {
        proof {
            self.lemma_wf_facts();
        }
        let mut r: Vec<(Coord, Glyph)> = Vec::new();
        let mut i: usize = 0;
        while i < 256
            invariant
                self.wf(),
                self.level().len() == 256,
                i <= 256,
                r@.len() == i,
                forall|j: int|
                    0 <= j < i ==> (#[trigger] r@[j]).0.pos() == (j % 16, j / 16) && r@[j].1 == glyph_spec(
                        self.level()[j],
                        (j % 16, j / 16) == self.player(),
                    ),
            decreases 256 - i,
        {
            proof {
                lemma_index_coord(i as int, 16, 16);
            }
            let c = Coord { x: (i % 16) as i32, y: (i / 16) as i32 };
            let cell = match cell_grid_get(&self.world, c) {
                Some(cell) => cell,
                None => Cell::Floor,
            };
            let is_player = c.x == self.player_coord.x && c.y == self.player_coord.y;
            r.push((c, glyph(cell, is_player)));
            i = i + 1;
        }
        r
    }
}

/// A step onto floor followed by a step back the opposite way returns the
/// player to where it started, on the same level.
pub proof fn lemma_step_back(g0: Game, g1: Game, g2: Game, d: CardinalDirection)
    requires
        g0.wf(),
        g1.wf(),
        ({
            let t = (g0.player().0 + cardinal_offset(d).0, g0.player().1 + cardinal_offset(d).1);
            in_bounds(16, 16, t.0, t.1) && g0.level()[idx(16, t.0, t.1)] == Cell::Floor
        }),
        walk_outcome(g0, g1, d),
        walk_outcome(g1, g2, opposite(d)),
    ensures
        g2 == g0,
{
    g0.lemma_wf_facts();
    g1.lemma_wf_facts();
    g1.lemma_same_but_player(g0);
    g2.lemma_same_but_player(g1);
    assert(g2.same_but_player(g0));
    g2.lemma_same_but_player(g0);
}

/// A new level is the level of the first noise grid drawn for it whose level
/// shape has more than 64 open cells: if the first `k - 1` attempts among the
/// new draws were too small and attempt `k` was not, then exactly `k`
/// attempts were drawn, the level is that attempt's level shape painted with
/// stairs, and the player and the stairs stand on the last two cells of the
/// shuffled list of that shape's open cells.
pub proof fn lemma_level_from_first_large_attempt(
    d: Seq<bool>,
    s: Seq<(Seq<Coord>, Seq<Coord>)>,
    g: Game,
    k: int,
)
    requires
        generated_from(d, s, g),
        1 <= k,
        g.draws().len() >= d.len() + 256 * k,
        forall|j: int| 0 <= j < k - 1 ==> #[trigger] too_small(attempt_noise(g.draws().skip(d.len() as int), j)),
        !too_small(attempt_noise(g.draws().skip(d.len() as int), k - 1)),
    ensures
        g.draws().len() == d.len() + 256 * k,
        ({
            let shape = level_shape(attempt_noise(g.draws().skip(d.len() as int), k - 1), 16, 16);
            let e = g.shuffles().last();
            &&& g.shuffles() == s.push(e)
            &&& e.1.to_multiset() == e.0.to_multiset()
            &&& positions(e.0) == open_cells_of(shape, 16)
            &&& e.1.len() >= 2
            &&& g.player() == e.1[e.1.len() - 1].pos()
            &&& g.level() == painted(shape, 16, e.1[e.1.len() - 2].pos())
        }),
{
    let dd = g.draws().skip(d.len() as int);
    let (k2, shape) = choose|k2: int, shape: Seq<bool>|
        #[trigger] shape_from_draws(dd, k2, shape) && positions(g.shuffles().last().0) == open_cells_of(shape, 16)
            && g.level() == painted(
            shape,
            16,
            g.shuffles().last().1[g.shuffles().last().1.len() - 2].pos(),
        );
    if k2 < k {
        assert(too_small(attempt_noise(dd, k2 - 1)));
        assert(false);
    }
    if k2 > k {
        assert(too_small(attempt_noise(dd, k - 1)));
        assert(false);
    }
}

/// Appending one more attempt of 256 draws keeps the earlier attempts and
/// makes the new block the next attempt.
proof fn lemma_extend_attempts(d0: Seq<bool>, d1: Seq<bool>, l0: int, k: int)
    requires
        0 <= l0,
        0 <= k,
        d0.len() == l0 + 256 * k,
        d1.len() == d0.len() + 256,
        d1.take(d0.len() as int) == d0,
    ensures
        forall|j: int| 0 <= j < k ==> #[trigger] attempt_noise(d1.skip(l0), j) == attempt_noise(d0.skip(l0), j),
        attempt_noise(d1.skip(l0), k) == d1.skip(d0.len() as int),
        d1.take(l0) == d0.take(l0),
        d1.skip(l0).len() == 256 * (k + 1),
{
    assert forall|j: int| 0 <= j < k implies #[trigger] attempt_noise(d1.skip(l0), j) == attempt_noise(d0.skip(l0), j) by {
        assert forall|i: int| 0 <= i < 256 implies attempt_noise(d1.skip(l0), j)[i] == attempt_noise(d0.skip(l0), j)[i] by {
            assert(d1.take(d0.len() as int)[l0 + 256 * j + i] == d1[l0 + 256 * j + i]);
        }
        assert(attempt_noise(d1.skip(l0), j) =~= attempt_noise(d0.skip(l0), j));
    }
    assert(attempt_noise(d1.skip(l0), k) =~= d1.skip(d0.len() as int));
    assert forall|i: int| 0 <= i < l0 implies d1.take(l0)[i] == d0.take(l0)[i] by {
        assert(d1.take(d0.len() as int)[i] == d1[i]);
    }
    assert(d1.take(l0) =~= d0.take(l0));
}

/// Painting a shape keeps its number of open cells: the stairs stand on an
/// open cell of the shape.
proof fn lemma_open_count_painted(shape: Seq<bool>, stairs: (int, int), n: nat)
    requires
        shape.len() == 256,
        n <= 256,
        0 <= idx(16, stairs.0, stairs.1) < 256,
        shape[idx(16, stairs.0, stairs.1)],
    ensures
        open_count(painted(shape, 16, stairs), n) == open_positions(shape, 16, n).len(),
    decreases n,
{
    if n > 0 {
        lemma_open_count_painted(shape, stairs, (n - 1) as nat);
    }
}

/// Every generated level is 16 by 16, walls its whole outer ring, has exactly
/// one staircase, which is not under the player, puts the player on floor and
/// has more than 64 cells that are not wall.
pub proof fn lemma_generated_level_facts(level: Seq<Cell>, player: (int, int))
    requires
        is_generated_level(level, 16, 16, player),
    ensures
        level.len() == 256,
        forall|p: (int, int)|
            in_bounds(16, 16, p.0, p.1) && !interior(16, 16, p) ==> #[trigger] level[idx(16, p.0, p.1)] == Cell::Wall,
        in_bounds(16, 16, player.0, player.1),
        level[idx(16, player.0, player.1)] == Cell::Floor,
        exists|s: (int, int)|
            in_bounds(16, 16, s.0, s.1) && level[idx(16, s.0, s.1)] == Cell::Stairs && s != player,
        at_most_one_stairs(level),
        open_count(level, 256) > 64,
        level_invariant(level, player),
{
    let (noise, stairs) = choose|noise: Seq<bool>, stairs: (int, int)|
        #![trigger level_shape(noise, 16, 16), in_bounds(16, 16, stairs.0, stairs.1)]
        noise.len() == 256 && in_bounds(16, 16, stairs.0, stairs.1) && level_made_from(
            level,
            level_shape(noise, 16, 16),
            16,
            16,
            player,
            stairs,
        );
    let shape = level_shape(noise, 16, 16);
    assert(shape.len() == 256);
    lemma_idx_in_range(16, 16, stairs.0, stairs.1);
    lemma_idx_in_range(16, 16, player.0, player.1);
    assert(interior(16, 16, stairs)) by {
        assert(shape[idx(16, stairs.0, stairs.1)]);
    }
    assert forall|p: (int, int)|
        in_bounds(16, 16, p.0, p.1) && !interior(16, 16, p) implies #[trigger] level[idx(16, p.0, p.1)] == Cell::Wall by {
        lemma_idx_in_range(16, 16, p.0, p.1);
        if idx(16, p.0, p.1) == idx(16, stairs.0, stairs.1) {
            lemma_idx_injective(16, 16, p.0, p.1, stairs.0, stairs.1);
        }
        assert(!shape[idx(16, p.0, p.1)]);
    }
    if idx(16, player.0, player.1) == idx(16, stairs.0, stairs.1) {
        lemma_idx_injective(16, 16, player.0, player.1, stairs.0, stairs.1);
    }
    assert(level[idx(16, stairs.0, stairs.1)] == Cell::Stairs);
    lemma_open_count_painted(shape, stairs, 256);
}

/// Walking keeps a generated level's invariant: a step onto floor or into a
/// wall keeps the level and leaves the player on floor, and a step onto the
/// stairs makes a new generated level (or changes nothing).
pub proof fn lemma_walk_keeps_level_invariant(g0: Game, g1: Game, d: CardinalDirection)
    requires
        g0.wf(),
        level_invariant(g0.level(), g0.player()),
        walk_outcome(g0, g1, d),
    ensures
        level_invariant(g1.level(), g1.player()),
{
    let t = (g0.player().0 + cardinal_offset(d).0, g0.player().1 + cardinal_offset(d).1);
    if in_bounds(16, 16, t.0, t.1) && g0.level()[idx(16, t.0, t.1)] == Cell::Floor {
        g1.lemma_same_but_player(g0);
    } else if in_bounds(16, 16, t.0, t.1) && g0.level()[idx(16, t.0, t.1)] == Cell::Stairs {
        lemma_generated_level_facts(g1.level(), g1.player());
    }
}

} // verus!
