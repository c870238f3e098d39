use vstd::prelude::*;

verus! {

/// One cell of a field grid: unoccupied background, solid ground that cannot
/// be walked on, or a walkable piece of path.
#[derive(Debug, Copy, Clone, PartialEq, Eq, Structural)]
pub enum Field {
    Empty,
    Ground,
    Path,
}

impl Field {
    /// A cell can be walked on exactly when it is part of a path.
    pub open spec fn spec_is_walkable(self) -> bool {
        self == Field::Path
    }

    /// Whether this cell is a walkable path cell.
    pub fn is_walkable(self) -> (r: bool)
        ensures
            r == self.spec_is_walkable(),
    {
        matches!(self, Field::Path)
    }
}

} // verus!
