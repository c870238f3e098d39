use vstd::prelude::*;

use crate::field::Field;
use crate::position::Position;
use crate::rotation::{rotated_copy, rotated_cw};
use crate::size::Size;

verus! {

/// A rectangular batch of fields, stored row-major, that is stamped into a
/// maze as many single-cell tiles starting at `origin`.
#[derive(Debug, Clone, PartialEq)]
pub struct TileGroup {
    pub origin: Position,
    pub size: Size,
    pub fields: Vec<Field>,
}

impl TileGroup {
    /// The field buffer matches the declared size.
    pub open spec fn wf(self) -> bool {
        self.fields@.len() == self.size.area()
    }

    pub fn new(origin: Position, size: Size, fields: Vec<Field>) -> (r: Self)
        requires
            fields@.len() == size.area(),
        ensures
            r.origin == origin,
            r.size == size,
            r.fields == fields,
            r.wf(),
    {
        TileGroup { origin, size, fields }
    }

    /// Rotates the group's field grid 90 degrees clockwise in place. The
    /// origin and the size stay as they are; only square grids rotate.
    pub fn rotate(&mut self)
        requires
            old(self).wf(),
            old(self).size.width == old(self).size.height,
        ensures
            final(self).origin == old(self).origin,
            final(self).size == old(self).size,
            final(self).fields@ == rotated_cw(old(self).fields@, old(self).size.width as int),
            final(self).wf(),
    {
        self.fields = rotated_copy(&self.fields, self.size.width);
    }
}

} // verus!
