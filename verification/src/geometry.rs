use vstd::prelude::*;

verus! {

/// A position on a grid; `x` grows to the east and `y` grows to the south.
#[derive(Clone, Copy, Debug, PartialEq, Eq, Structural)]
pub struct Coord {
    pub x: i32,
    pub y: i32,
}

impl Coord {
    pub fn new(x: i32, y: i32) -> (c: Coord)
        ensures
            c.x == x,
            c.y == y,
    {
        Coord { x, y }
    }

    /// The position as a pair of mathematical integers.
    pub open spec fn pos(self) -> (int, int) {
        (self.x as int, self.y as int)
    }
}

/// The four directions of movement on the grid.
#[derive(Clone, Copy, Debug, PartialEq, Eq, Structural)]
pub enum CardinalDirection {
    North,
    East,
    South,
    West,
}

/// The eight directions to the cells that surround a cell.
#[derive(Clone, Copy, Debug, PartialEq, Eq, Structural)]
pub enum Direction {
    North,
    NorthEast,
    East,
    SouthEast,
    South,
    SouthWest,
    West,
    NorthWest,
}

/// The unit step of a cardinal direction.
pub open spec fn cardinal_offset(d: CardinalDirection) -> (int, int) {
    match d {
        CardinalDirection::North => (0, -1),
        CardinalDirection::East => (1, 0),
        CardinalDirection::South => (0, 1),
        CardinalDirection::West => (-1, 0),
    }
}

/// The cardinal direction pointing the other way.
pub open spec fn opposite(d: CardinalDirection) -> CardinalDirection {
    match d {
        CardinalDirection::North => CardinalDirection::South,
        CardinalDirection::East => CardinalDirection::West,
        CardinalDirection::South => CardinalDirection::North,
        CardinalDirection::West => CardinalDirection::East,
    }
}

/// The unit step of one of the eight directions.
pub open spec fn direction_offset(d: Direction) -> (int, int) {
    match d {
        Direction::North => (0, -1),
        Direction::NorthEast => (1, -1),
        Direction::East => (1, 0),
        Direction::SouthEast => (1, 1),
        Direction::South => (0, 1),
        Direction::SouthWest => (-1, 1),
        Direction::West => (-1, 0),
        Direction::NorthWest => (-1, -1),
    }
}

/// The cardinal directions in the order in which they are enumerated.
pub open spec fn all_cardinal_spec() -> Seq<CardinalDirection> {
    seq![CardinalDirection::North, CardinalDirection::East, CardinalDirection::South, CardinalDirection::West]
}

/// The eight directions in the order in which they are enumerated.
pub open spec fn all_directions_spec() -> Seq<Direction> {
    seq![
        Direction::North,
        Direction::NorthEast,
        Direction::East,
        Direction::SouthEast,
        Direction::South,
        Direction::SouthWest,
        Direction::West,
        Direction::NorthWest,
    ]
}

/// Unit step of a cardinal direction, as `direction::CardinalDirection::coord`
/// computes it: the crate maps North to (0, -1), East to (1, 0), South to (0, 1)
/// and West to (-1, 0).
#[verifier::external_body]
fn cardinal_coord(d: CardinalDirection) -> (r: (i32, i32))
    ensures
        (r.0 as int, r.1 as int) == cardinal_offset(d),
{
    let c = match d {
        CardinalDirection::North => direction::CardinalDirection::North,
        CardinalDirection::East => direction::CardinalDirection::East,
        CardinalDirection::South => direction::CardinalDirection::South,
        CardinalDirection::West => direction::CardinalDirection::West,
    }.coord();
    (c.x, c.y)
}

/// Unit step of one of the eight directions, as `direction::Direction::coord`
/// computes it: the crate's table of the eight unit steps, (0, -1) for North
/// and clockwise from there.
#[verifier::external_body]
fn direction_coord(d: Direction) -> (r: (i32, i32))
    ensures
        (r.0 as int, r.1 as int) == direction_offset(d),
{
    let c = match d {
        Direction::North => direction::Direction::North,
        Direction::NorthEast => direction::Direction::NorthEast,
        Direction::East => direction::Direction::East,
        Direction::SouthEast => direction::Direction::SouthEast,
        Direction::South => direction::Direction::South,
        Direction::SouthWest => direction::Direction::SouthWest,
        Direction::West => direction::Direction::West,
        Direction::NorthWest => direction::Direction::NorthWest,
    }.coord();
    (c.x, c.y)
}

impl CardinalDirection {
    /// The unit step of this direction.
    pub fn coord(self) -> (c: Coord)
        ensures
            c.pos() == cardinal_offset(self),
    {
        let (x, y) = cardinal_coord(self);
        Coord { x, y }
    }

    /// All four cardinal directions: North, East, South, West.
    pub fn all() -> (v: Vec<CardinalDirection>)
        ensures
            v@ == all_cardinal_spec(),
    {
        let v = vec![CardinalDirection::North, CardinalDirection::East, CardinalDirection::South, CardinalDirection::West];
        assert(v@ =~= all_cardinal_spec());
        v
    }
}

impl Direction {
    /// The unit step of this direction.
    pub fn coord(self) -> (c: Coord)
        ensures
            c.pos() == direction_offset(self),
    {
        let (x, y) = direction_coord(self);
        Coord { x, y }
    }

    /// All eight directions, clockwise from North.
    pub fn all() -> (v: Vec<Direction>)
        ensures
            v@ == all_directions_spec(),
    {
        let v = vec![
            Direction::North,
            Direction::NorthEast,
            Direction::East,
            Direction::SouthEast,
            Direction::South,
            Direction::SouthWest,
            Direction::West,
            Direction::NorthWest,
        ];
        assert(v@ =~= all_directions_spec());
        v
    }
}

} // verus!
