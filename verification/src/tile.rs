use vstd::prelude::*;

use crate::direction::Direction;
use crate::field::Field;
use crate::position::Position;
use crate::rotation::{rotated_copy, rotated_cw};
use crate::size::Size;

verus! {

/// A small rectangular grid of fields, stored row-major, anchored at a grid
/// coordinate inside the maze.
#[derive(Debug, Clone, PartialEq)]
pub struct Tile {
    pub position: Position,
    pub size: Size,
    pub fields: Vec<Field>,
}

/// The fixed row-major pattern of the canonical path tile: a walkable column
/// through the centre of a 3 by 3 grid.
pub open spec fn path_tile_fields() -> Seq<Field> {
    seq![
        Field::Ground, Field::Path, Field::Ground,
        Field::Ground, Field::Path, Field::Ground,
        Field::Ground, Field::Path, Field::Ground,
    ]
}

/// Where `b` sits relative to `a`: directly above, to the right, below or to
/// the left of it; any other offset (the same cell, a diagonal, or further
/// than one cell away) has no direction.
pub open spec fn spec_neighbour_at(a: Position, b: Position) -> Option<Direction> {
    if b.x == a.x && b.y + 1 == a.y {
        Some(Direction::Top)
    } else if b.y == a.y && b.x == a.x + 1 {
        Some(Direction::Right)
    } else if b.x == a.x && b.y == a.y + 1 {
        Some(Direction::Bottom)
    } else if b.y == a.y && b.x + 1 == a.x {
        Some(Direction::Left)
    } else {
        None
    }
}

/// For two 3 by 3 field grids lying side by side in direction `d`, whether at
/// least one of the three aligned pairs of cells on the shared edge is
/// walkable on both sides.
pub open spec fn spec_edge_walkable(a: Seq<Field>, b: Seq<Field>, d: Direction) -> bool {
    match d {
        Direction::Top => (a[0].spec_is_walkable() && b[6].spec_is_walkable()) || (
        a[1].spec_is_walkable() && b[7].spec_is_walkable()) || (a[2].spec_is_walkable()
            && b[8].spec_is_walkable()),
        Direction::Bottom => (a[6].spec_is_walkable() && b[0].spec_is_walkable()) || (
        a[7].spec_is_walkable() && b[1].spec_is_walkable()) || (a[8].spec_is_walkable()
            && b[2].spec_is_walkable()),
        Direction::Left => (a[0].spec_is_walkable() && b[2].spec_is_walkable()) || (
        a[3].spec_is_walkable() && b[5].spec_is_walkable()) || (a[6].spec_is_walkable()
            && b[8].spec_is_walkable()),
        Direction::Right => (a[2].spec_is_walkable() && b[0].spec_is_walkable()) || (
        a[5].spec_is_walkable() && b[3].spec_is_walkable()) || (a[8].spec_is_walkable()
            && b[6].spec_is_walkable()),
    }
}

/// Two tiles connect walkably when one lies directly beside the other and
/// their shared edge has a cell pair that is walkable on both tiles.
pub open spec fn spec_has_walkable_neighbour(a: Tile, b: Tile) -> bool {
    match spec_neighbour_at(a.position, b.position) {
        Some(d) => spec_edge_walkable(a.fields@, b.fields@, d),
        None => false,
    }
}

impl Tile {
    /// The field buffer matches the declared size.
    pub open spec fn wf(self) -> bool {
        self.fields@.len() == self.size.area()
    }

    pub fn new(position: Position, size: Size, fields: Vec<Field>) -> (r: Self)
        requires
            fields@.len() == size.area(),
        ensures
            r.position == position,
            r.size == size,
            r.fields == fields,
            r.wf(),
    {
        Tile { position, size, fields }
    }

    /// A tile covering a single cell.
    pub fn new_unit(position: Position, field: Field) -> (r: Self)
        ensures
            r.position == position,
            r.size == (Size { width: 1, height: 1 }),
            r.fields@ == seq![field],
            r.wf(),
    {
        let mut fields: Vec<Field> = Vec::new();
        fields.push(field);
        proof {
            assert(fields@ =~= seq![field]);
        }
        Tile { position, size: Size { width: 1, height: 1 }, fields }
    }

    /// The canonical 3 by 3 tile at the origin whose centre column is a
    /// vertical walkable path.
    pub fn new_path() -> (r: Self)
        ensures
            r.position == (Position { x: 0, y: 0 }),
            r.size == (Size { width: 3, height: 3 }),
            r.fields@ == path_tile_fields(),
            r.wf(),
    {
        let mut fields: Vec<Field> = Vec::new();
        fields.push(Field::Ground);
        fields.push(Field::Path);
        fields.push(Field::Ground);
        fields.push(Field::Ground);
        fields.push(Field::Path);
        fields.push(Field::Ground);
        fields.push(Field::Ground);
        fields.push(Field::Path);
        fields.push(Field::Ground);
        proof {
            assert(fields@ =~= path_tile_fields());
            assert(fields@.len() == 9);
        }
        let r = Tile {
            position: Position { x: 0, y: 0 },
            size: Size { width: 3, height: 3 },
            fields,
        };
        proof {
            assert(r.fields@.len() == 9);
            assert(r.size.width == 3 && r.size.height == 3);
            assert(r.size.area() == r.size.width * r.size.height);
            assert(r.wf());
        }
        r
    }

    /// An independent copy of this tile with its own field buffer.
    pub fn duplicate(&self) -> (r: Tile)
        ensures
            r.position == self.position,
            r.size == self.size,
            r.fields@ == self.fields@,
    {
        let mut fields: Vec<Field> = Vec::new();
        let n = self.fields.len();
        let mut i: usize = 0;
        while i < n
            invariant
                0 <= i <= n,
                n == self.fields@.len(),
                fields@.len() == i,
                forall|j: int| 0 <= j < i ==> fields@[j] == self.fields@[j],
            decreases n - i,
        {
            fields.push(self.fields[i]);
            i += 1;
        }
        proof {
            assert(fields@ =~= self.fields@);
        }
        Tile { position: self.position, size: self.size, fields }
    }

    /// Rotates the field grid 90 degrees clockwise in place. The anchor
    /// position and the size stay as they are; only square grids rotate.
    pub fn rotate(&mut self)
        requires
            old(self).wf(),
            old(self).size.width == old(self).size.height,
        ensures
            final(self).position == old(self).position,
            final(self).size == old(self).size,
            final(self).fields@ == rotated_cw(old(self).fields@, old(self).size.width as int),
            final(self).wf(),
    {
        self.fields = rotated_copy(&self.fields, self.size.width);
    }

    /// The compass direction from this tile to `other`, if `other` is
    /// anchored exactly one cell above, right of, below or left of it.
    pub fn neighbour_at(&self, other: &Tile) -> (r: Option<Direction>)
        ensures
            r == spec_neighbour_at(self.position, other.position),
    {
        let a = self.position;
        let b = other.position;
        if b.x == a.x && b.y < u32::MAX && b.y + 1 == a.y {
            Some(Direction::Top)
        } else if b.y == a.y && a.x < u32::MAX && b.x == a.x + 1 {
            Some(Direction::Right)
        } else if b.x == a.x && a.y < u32::MAX && b.y == a.y + 1 {
            Some(Direction::Bottom)
        } else if b.y == a.y && b.x < u32::MAX && b.x + 1 == a.x {
            Some(Direction::Left)
        } else {
            None
        }
    }

    /// Whether `other` lies directly beside this tile and the shared edge has
    /// at least one aligned cell pair that is walkable on both tiles.
    pub fn has_walkable_neighbour(&self, other: &Tile) -> (r: bool)
        requires
            self.wf(),
            other.wf(),
            self.size == (Size { width: 3, height: 3 }),
            other.size == (Size { width: 3, height: 3 }),
        ensures
            r == spec_has_walkable_neighbour(*self, *other),
    {
        match self.neighbour_at(other) {
            None => false,
            Some(d) => {
                let a = &self.fields;
                let b = &other.fields;
                match d {
                    Direction::Top => (a[0].is_walkable() && b[6].is_walkable()) || (a[1]
                        .is_walkable() && b[7].is_walkable()) || (a[2].is_walkable() && b[8]
                        .is_walkable()),
                    Direction::Bottom => (a[6].is_walkable() && b[0].is_walkable()) || (a[7]
                        .is_walkable() && b[1].is_walkable()) || (a[8].is_walkable() && b[2]
                        .is_walkable()),
                    Direction::Left => (a[0].is_walkable() && b[2].is_walkable()) || (a[3]
                        .is_walkable() && b[5].is_walkable()) || (a[6].is_walkable() && b[8]
                        .is_walkable()),
                    Direction::Right => (a[2].is_walkable() && b[0].is_walkable()) || (a[5]
                        .is_walkable() && b[3].is_walkable()) || (a[8].is_walkable() && b[6]
                        .is_walkable()),
                }
            },
        }
    }
}

} // verus!
