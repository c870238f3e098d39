use vstd::prelude::*;

verus! {

/// A grid coordinate inside the maze, measured in cells. `x` counts columns
/// from the left, `y` counts rows from the top.
#[derive(Debug, Copy, Clone, PartialEq, Eq, Hash, Structural)]
pub struct Position {
    pub x: u32,
    pub y: u32,
}

/// The coordinates directly bordering `p`, in the fixed order top, right,
/// bottom, left, leaving out any that would fall off the grid's edge.
pub open spec fn spec_neighbours(p: Position) -> Seq<Position> {
    let top = if p.y > 0 {
        seq![Position { x: p.x, y: (p.y - 1) as u32 }]
    } else {
        Seq::<Position>::empty()
    };
    let left = if p.x > 0 {
        seq![Position { x: (p.x - 1) as u32, y: p.y }]
    } else {
        Seq::<Position>::empty()
    };
    top + seq![Position { x: (p.x + 1) as u32, y: p.y }]
        + seq![Position { x: p.x, y: (p.y + 1) as u32 }] + left
}

impl Position {
    pub fn new(x: u32, y: u32) -> (r: Self)
        ensures
            r.x == x,
            r.y == y,
    {
        Position { x, y }
    }

    /// Component-wise translation: the coordinate moved right by `other.x`
    /// and down by `other.y`.
    pub fn add(self, other: Position) -> (r: Self)
        requires
            self.x + other.x <= u32::MAX,
            self.y + other.y <= u32::MAX,
        ensures
            r.x == self.x + other.x,
            r.y == self.y + other.y,
    {
        Position { x: self.x + other.x, y: self.y + other.y }
    }

    /// The positions of the direct neighbours, ordered as the compass
    /// directions are: top, right, bottom, left.
    pub fn get_neighbours_positions(&self) -> (r: Vec<Position>)
        requires
            self.x < u32::MAX,
            self.y < u32::MAX,
        ensures
            r@ == spec_neighbours(*self),
    {
        let mut r: Vec<Position> = Vec::new();
        if self.y > 0 {
            r.push(Position { x: self.x, y: self.y - 1 });
        }
        r.push(Position { x: self.x + 1, y: self.y });
        r.push(Position { x: self.x, y: self.y + 1 });
        if self.x > 0 {
            r.push(Position { x: self.x - 1, y: self.y });
        }
        proof {
            assert(r@ =~= spec_neighbours(*self));
        }
        r
    }
}

impl Default for Position {
    /// The origin: column 0, row 0.
    fn default() -> (r: Self)
        ensures
            r.x == 0,
            r.y == 0,
    {
        Position { x: 0, y: 0 }
    }
}

} // verus!
