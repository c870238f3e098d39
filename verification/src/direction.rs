use vstd::prelude::*;

verus! {

/// The compass direction from one placed tile to an adjacent one.
#[derive(Debug, Copy, Clone, PartialEq, Eq, Structural)]
pub enum Direction {
    Top,
    Right,
    Bottom,
    Left,
}

impl Direction {
    /// All four directions, in the fixed order top, right, bottom, left.
    pub fn get_directions() -> (r: Vec<Direction>)
        ensures
            r@ == seq![Direction::Top, Direction::Right, Direction::Bottom, Direction::Left],
    {
        let mut r: Vec<Direction> = Vec::new();
        r.push(Direction::Top);
        r.push(Direction::Right);
        r.push(Direction::Bottom);
        r.push(Direction::Left);
        proof {
            assert(r@ =~= seq![
                Direction::Top,
                Direction::Right,
                Direction::Bottom,
                Direction::Left,
            ]);
        }
        r
    }
}

} // verus!
