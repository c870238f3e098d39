use vstd::prelude::*;

use vstd::arithmetic::div_mod::{
    lemma_fundamental_div_mod, lemma_fundamental_div_mod_converse,
    lemma_mod_division_less_than_divisor,
};

use crate::field::Field;
use crate::position::Position;
use crate::size::Size;
use crate::tile::Tile;
use crate::tile_group::TileGroup;

verus! {

/// A coordinate lies inside a grid of the given size.
pub open spec fn spec_in_bounds(p: Position, s: Size) -> bool {
    p.x < s.width && p.y < s.height
}

/// Some placed tile is anchored exactly at `p`.
pub open spec fn has_tile_at(tiles: Seq<Tile>, p: Position) -> bool {
    exists|i: int| 0 <= i < tiles.len() && (#[trigger] tiles[i]).position == p
}

/// The index of the placed tile anchored at `p`; meaningful only when the
/// anchor positions are unique and some tile is anchored there.
pub open spec fn tile_index_at(tiles: Seq<Tile>, p: Position) -> int {
    choose|i: int| 0 <= i < tiles.len() && (#[trigger] tiles[i]).position == p
}

/// The placed tile anchored at `p`, if any.
pub open spec fn spec_tile_at(tiles: Seq<Tile>, p: Position) -> Option<Tile> {
    if has_tile_at(tiles, p) {
        Some(tiles[tile_index_at(tiles, p)])
    } else {
        None
    }
}

/// Two tiles carry the same anchor, the same size and the same fields.
pub open spec fn tile_like(a: Tile, b: Tile) -> bool {
    a.position == b.position && a.size == b.size && a.fields@ == b.fields@
}

/// Every placed tile is well formed and anchored inside the maze, and no two
/// placed tiles share an anchor position.
pub open spec fn wf_tiles(tiles: Seq<Tile>, s: Size) -> bool {
    &&& forall|i: int| 0 <= i < tiles.len() ==> (#[trigger] tiles[i]).wf()
    &&& forall|i: int|
        0 <= i < tiles.len() ==> spec_in_bounds((#[trigger] tiles[i]).position, s)
    &&& forall|i: int, j: int|
        0 <= i < tiles.len() && 0 <= j < tiles.len() && i != j ==> (#[trigger] tiles[i]).position
            != (#[trigger] tiles[j]).position
}

/// How adding a tile changes the placed tiles: a tile anchored outside the
/// maze is dropped; one anchored where a tile already sits replaces that
/// tile; any other tile is appended.
pub open spec fn spec_add_tile(tiles: Seq<Tile>, t: Tile, s: Size) -> Seq<Tile> {
    if !spec_in_bounds(t.position, s) {
        tiles
    } else if has_tile_at(tiles, t.position) {
        tiles.update(tile_index_at(tiles, t.position), t)
    } else {
        tiles.push(t)
    }
}

/// The tile anchored at `tiles[i]`'s position is `tiles[i]` itself when the
/// anchors are unique.
proof fn lemma_tile_index_of_member(tiles: Seq<Tile>, s: Size, i: int)
    requires
        wf_tiles(tiles, s),
        0 <= i < tiles.len(),
    ensures
        has_tile_at(tiles, tiles[i].position),
        tile_index_at(tiles, tiles[i].position) == i,
{
    let p = tiles[i].position;
    assert(has_tile_at(tiles, p));
    let j = tile_index_at(tiles, p);
    assert(0 <= j < tiles.len() && tiles[j].position == p);
    if j != i {
        assert(tiles[i].position != tiles[j].position);
    }
}

/// Law of the overwrite policy: after adding a tile that lies inside the
/// maze, the tile found at its anchor is exactly that tile; every other
/// anchor position resolves as before; a tile outside the maze changes
/// nothing; and the collection stays well formed.
pub proof fn lemma_add_tile_lookup(tiles: Seq<Tile>, t: Tile, s: Size)
    requires
        wf_tiles(tiles, s),
        t.wf(),
    ensures
        wf_tiles(spec_add_tile(tiles, t, s), s),
        spec_in_bounds(t.position, s) ==> spec_tile_at(spec_add_tile(tiles, t, s), t.position)
            == Some(t),
        forall|p: Position|
            p != t.position ==> #[trigger] spec_tile_at(spec_add_tile(tiles, t, s), p)
                == spec_tile_at(tiles, p),
        !spec_in_bounds(t.position, s) ==> spec_add_tile(tiles, t, s) == tiles,
{
    let new = spec_add_tile(tiles, t, s);
    if !spec_in_bounds(t.position, s) {
    } else if has_tile_at(tiles, t.position) {
        let i = tile_index_at(tiles, t.position);
        assert(0 <= i < tiles.len() && tiles[i].position == t.position);
        assert(new == tiles.update(i, t));
        assert forall|k: int| 0 <= k < new.len() implies (#[trigger] new[k]).position
            == tiles[k].position by {
            if k != i {
                assert(new[k] == tiles[k]);
            }
        }
        assert(wf_tiles(new, s));
        lemma_tile_index_of_member(new, s, i);
        assert(spec_tile_at(new, t.position) == Some(t));
        assert forall|p: Position| p != t.position implies #[trigger] spec_tile_at(new, p)
            == spec_tile_at(tiles, p) by {
            if has_tile_at(tiles, p) {
                let k = tile_index_at(tiles, p);
                assert(0 <= k < tiles.len() && tiles[k].position == p);
                assert(k != i);
                assert(new[k] == tiles[k]);
                lemma_tile_index_of_member(new, s, k);
                lemma_tile_index_of_member(tiles, s, k);
            } else {
                if has_tile_at(new, p) {
                    let k = tile_index_at(new, p);
                    assert(0 <= k < new.len() && new[k].position == p);
                    assert(tiles[k].position == p);
                    assert(has_tile_at(tiles, p));
                }
            }
        }
    } else {
        assert(new == tiles.push(t));
        assert forall|k: int| 0 <= k < new.len() implies ((k < tiles.len() ==> (
        #[trigger] new[k]) == tiles[k]) && (k == tiles.len() ==> new[k] == t)) by {}
        assert forall|a: int, b: int|
            0 <= a < new.len() && 0 <= b < new.len() && a != b implies (#[trigger] new[a]).position
            != (#[trigger] new[b]).position by {
            if a < tiles.len() && b < tiles.len() {
            } else if a < tiles.len() {
                assert(new[b] == t);
                assert(!(tiles[a].position == t.position));
            } else {
                assert(new[a] == t);
                assert(!(tiles[b].position == t.position));
            }
        }
        assert(wf_tiles(new, s));
        lemma_tile_index_of_member(new, s, tiles.len() as int);
        assert(spec_tile_at(new, t.position) == Some(t));
        assert forall|p: Position| p != t.position implies #[trigger] spec_tile_at(new, p)
            == spec_tile_at(tiles, p) by {
            if has_tile_at(tiles, p) {
                let k = tile_index_at(tiles, p);
                assert(0 <= k < tiles.len() && tiles[k].position == p);
                assert(new[k] == tiles[k]);
                lemma_tile_index_of_member(new, s, k);
                lemma_tile_index_of_member(tiles, s, k);
            } else {
                if has_tile_at(new, p) {
                    let k = tile_index_at(new, p);
                    assert(0 <= k < new.len() && new[k].position == p);
                    assert(k < tiles.len());
                    assert(has_tile_at(tiles, p));
                }
            }
        }
    }
}

/// Tile `t`'s grid covers the maze cell at column `gx`, row `gy`.
pub open spec fn tile_covers(t: Tile, gx: int, gy: int) -> bool {
    t.position.x <= gx < t.position.x + t.size.width && t.position.y <= gy < t.position.y
        + t.size.height
}

/// The row-major index inside `t`'s field buffer of the maze cell at column
/// `gx`, row `gy`.
pub open spec fn tile_local_index(t: Tile, gx: int, gy: int) -> int {
    (gy - t.position.y) * t.size.width + (gx - t.position.x)
}

/// The field of maze cell `k` after tile `t` paints its grid over `grid`:
/// the cell takes the tile's local field when the tile covers it and keeps
/// its old value otherwise.
pub open spec fn paint_cell(grid: Seq<Field>, t: Tile, s: Size, k: int) -> Field {
    let gx = k % (s.width as int);
    let gy = k / (s.width as int);
    if tile_covers(t, gx, gy) {
        t.fields@[tile_local_index(t, gx, gy)]
    } else {
        grid[k]
    }
}

/// The whole maze-wide field array after tile `t` paints its grid over
/// `grid`; cells of the tile that stick out past the maze's edge are
/// clipped.
pub open spec fn paint_tile(grid: Seq<Field>, t: Tile, s: Size) -> Seq<Field> {
    Seq::new(grid.len(), |k: int| paint_cell(grid, t, s, k))
}

/// The flattened walkable grid of a sequence of placed tiles: every cell
/// starts as background, and each tile in turn paints its fields at its
/// anchor position.
pub open spec fn spec_path(tiles: Seq<Tile>, s: Size) -> Seq<Field>
    decreases tiles.len(),
{
    if tiles.len() == 0 {
        Seq::new((s.width * s.height) as nat, |k: int| Field::Empty)
    } else {
        paint_tile(spec_path(tiles.drop_last(), s), tiles.last(), s)
    }
}

/// The flattened grid always has one entry per maze cell.
proof fn lemma_spec_path_len(tiles: Seq<Tile>, s: Size)
    ensures
        spec_path(tiles, s).len() == s.area(),
    decreases tiles.len(),
{
    assert(s.width * s.height >= 0) by (nonlinear_arith);
    if tiles.len() > 0 {
        lemma_spec_path_len(tiles.drop_last(), s);
    }
}

/// Row-major flattening: the flat index of column `gx`, row `gy` lies inside
/// the buffer and decomposes back into the same coordinates.
proof fn lemma_row_major(gx: int, gy: int, w: int, h: int)
    requires
        0 <= gx < w,
        0 <= gy < h,
    ensures
        0 <= gy * w + gx < w * h,
        (gy * w + gx) % w == gx,
        (gy * w + gx) / w == gy,
{
    assert(0 <= gy * w + gx < w * h) by (nonlinear_arith)
        requires
            0 <= gx < w,
            0 <= gy < h,
    ;
    lemma_fundamental_div_mod_converse(gy * w + gx, w, gy, gx);
}

/// The column and row of flat index `k` in a `w`-wide buffer of `h` rows.
proof fn lemma_flat_coords(k: int, w: int, h: int)
    requires
        0 < w,
        0 <= k < w * h,
    ensures
        0 <= k % w < w,
        0 <= k / w < h,
        k == (k / w) * w + (k % w),
{
    lemma_mod_division_less_than_divisor(k, w);
    lemma_fundamental_div_mod(k, w);
    assert(0 <= k / w < h) by (nonlinear_arith)
        requires
            0 < w,
            0 <= k < w * h,
            k == w * (k / w) + k % w,
            0 <= k % w < w,
    ;
    assert(k == (k / w) * w + (k % w)) by (nonlinear_arith)
        requires
            k == w * (k / w) + k % w,
    ;
}

/// The maze position that cell `i` (row-major) of the group is stamped at:
/// the cell's local coordinate translated by the group's origin.
pub open spec fn group_cell_position(g: TileGroup, i: int) -> Position {
    Position {
        x: (g.origin.x + i % (g.size.width as int)) as u32,
        y: (g.origin.y + i / (g.size.width as int)) as u32,
    }
}

/// `p` lies inside the rectangle that the group stamps.
pub open spec fn group_covers(g: TileGroup, p: Position) -> bool {
    g.origin.x <= p.x < g.origin.x + g.size.width && g.origin.y <= p.y < g.origin.y
        + g.size.height
}

/// A single-cell tile carrying field `f` is anchored at `p`.
pub open spec fn unit_tile_at(tiles: Seq<Tile>, p: Position, f: Field) -> bool {
    match spec_tile_at(tiles, p) {
        Some(t) => t.position == p && t.size == (Size { width: 1, height: 1 }) && t.fields@
            == seq![f],
        None => false,
    }
}

/// Distinct cells of a group are stamped at distinct maze positions.
proof fn lemma_group_cells_distinct(g: TileGroup, a: int, b: int)
    requires
        g.size.width > 0,
        g.origin.x + g.size.width <= u32::MAX,
        g.origin.y + g.size.height <= u32::MAX,
        0 <= a < g.size.area(),
        0 <= b < g.size.area(),
        a != b,
    ensures
        group_cell_position(g, a) != group_cell_position(g, b),
{
    let w = g.size.width as int;
    let h = g.size.height as int;
    assert(g.size.area() == w * h);
    lemma_flat_coords(a, w, h);
    lemma_flat_coords(b, w, h);
    if group_cell_position(g, a) == group_cell_position(g, b) {
        assert(a % w == b % w && a / w == b / w);
        assert(a == b);
    }
}

/// Every cell of a group is stamped inside the rectangle the group covers.
proof fn lemma_group_cell_covered(g: TileGroup, i: int)
    requires
        g.size.width > 0,
        g.origin.x + g.size.width <= u32::MAX,
        g.origin.y + g.size.height <= u32::MAX,
        0 <= i < g.size.area(),
    ensures
        group_covers(g, group_cell_position(g, i)),
{
    let w = g.size.width as int;
    let h = g.size.height as int;
    assert(g.size.area() == w * h);
    lemma_flat_coords(i, w, h);
}

/// The field of maze cell `k` once the first `i` cells of tile `t`'s buffer
/// have been painted over `entry`.
spec fn painted_up_to(entry: Seq<Field>, t: Tile, s: Size, i: int, k: int) -> Field {
    let gx = k % (s.width as int);
    let gy = k / (s.width as int);
    if tile_covers(t, gx, gy) && tile_local_index(t, gx, gy) < i {
        t.fields@[tile_local_index(t, gx, gy)]
    } else {
        entry[k]
    }
}

/// A maze: a grid of `size` cells that tiles are placed into, keyed by their
/// anchor position, together with the fixed footprint used when a flat cell
/// index is resolved to the tile grid.
#[derive(Debug, Clone, PartialEq)]
pub struct Maze {
    pub size: Size,
    pub tile_size: Size,
    pub tiles: Vec<Tile>,
}

/// The index in `tiles` of the tile anchored at `position`, if any.
fn find_tile_index(tiles: &Vec<Tile>, position: Position) -> (r: Option<usize>)
    ensures
        match r {
            Some(i) => 0 <= i < tiles@.len() && tiles@[i as int].position == position,
            None => !has_tile_at(tiles@, position),
        },
{
    let n = tiles.len();
    let mut i: usize = 0;
    while i < n
        invariant
            0 <= i <= n,
            n == tiles@.len(),
            forall|j: int| 0 <= j < i ==> (#[trigger] tiles@[j]).position != position,
        decreases n - i,
    {
        if tiles[i].position == position {
            return Some(i);
        }
        i += 1;
    }
    None
}

impl Maze {
    /// The maze's cell count fits the backing buffer, the tile footprint is
    /// non-degenerate, and the placed tiles are well formed.
    pub open spec fn wf(self) -> bool {
        &&& self.size.area() <= u32::MAX
        &&& 0 < self.tile_size.width
        &&& 0 < self.tile_size.height
        &&& wf_tiles(self.tiles@, self.size)
    }

    /// An empty maze of `width` by `height` cells, resolving flat indices
    /// through the canonical 3 by 3 tile footprint.
    pub fn new(width: u32, height: u32) -> (r: Self)
        requires
            width * height <= u32::MAX,
        ensures
            r.size == (Size { width, height }),
            r.tile_size == (Size { width: 3, height: 3 }),
            r.tiles@ == Seq::<Tile>::empty(),
            r.wf(),
    {
        let r = Maze {
            size: Size::new(width, height),
            tile_size: Size::new(3, 3),
            tiles: Vec::new(),
        };
        proof {
            assert(r.tiles@ =~= Seq::<Tile>::empty());
            assert(r.size.width == width && r.size.height == height);
            assert(r.size.area() == r.size.width * r.size.height);
            assert(r.wf());
        }
        r
    }

    /// A copy of the tile anchored exactly at `position`, or nothing.
    pub fn get_tile_at_position(&self, position: Position) -> (r: Option<Tile>)
        requires
            self.wf(),
        ensures
            r is Some <==> has_tile_at(self.tiles@, position),
            r matches Some(t) ==> tile_like(t, self.tiles@[tile_index_at(self.tiles@, position)])
                && t.position == position,
    {
        match find_tile_index(&self.tiles, position) {
            Some(i) => {
                proof {
                    lemma_tile_index_of_member(self.tiles@, self.size, i as int);
                }
                Some(self.tiles[i].duplicate())
            },
            None => None,
        }
    }

    /// The flat row-major index of `position` in the maze-wide field array.
    pub fn get_index(&self, position: Position) -> (r: usize)
        requires
            position.y * self.size.width + position.x <= u32::MAX,
        ensures
            r == position.y * self.size.width + position.x,
    {
        (position.y * self.size.width + position.x) as usize
    }

    /// The anchor position on the tile grid that flat maze cell `index`
    /// falls into: the cell's column and row, each divided by the tile
    /// footprint.
    pub open spec fn spec_index_tile_position(self, index: u32) -> Position
        recommends
            self.size.width > 0,
            self.tile_size.width > 0,
            self.tile_size.height > 0,
    {
        Position {
            x: (((index % self.size.width) / self.tile_size.width) as u32),
            y: (((index / self.size.width) / self.tile_size.height) as u32),
        }
    }

    /// A copy of the tile whose anchor is the tile-grid position containing
    /// flat maze cell `index`, or nothing.
    pub fn get_tile_at_index(&self, index: u32) -> (r: Option<Tile>)
        requires
            self.wf(),
            self.size.width > 0,
        ensures
            r is Some <==> has_tile_at(self.tiles@, self.spec_index_tile_position(index)),
            r matches Some(t) ==> tile_like(
                t,
                self.tiles@[tile_index_at(self.tiles@, self.spec_index_tile_position(index))],
            ) && t.position == self.spec_index_tile_position(index),
    {
        let row = index / self.size.width;
        let col = index % self.size.width;
        let tile_row = row / self.tile_size.height;
        let tile_col = col / self.tile_size.width;
        self.get_tile_at_position(Position::new(tile_col, tile_row))
    }

    /// Places a tile, keyed by its anchor position. A tile anchored outside
    /// the maze is silently dropped; a tile anchored where one already sits
    /// replaces it (the later insertion wins).
    pub fn add_tile(&mut self, tile: Tile)
        requires
            old(self).wf(),
            tile.wf(),
        ensures
            final(self).size == old(self).size,
            final(self).tile_size == old(self).tile_size,
            final(self).tiles@ == spec_add_tile(old(self).tiles@, tile, old(self).size),
            final(self).wf(),
    {
        let ghost orig = self.tiles@;
        if tile.position.x < self.size.width && tile.position.y < self.size.height {
            match find_tile_index(&self.tiles, tile.position) {
                Some(i) => {
                    proof {
                        lemma_tile_index_of_member(orig, self.size, i as int);
                    }
                    self.tiles[i] = tile;
                },
                None => {
                    self.tiles.push(tile);
                },
            }
        }
        proof {
            assert(self.tiles@ == spec_add_tile(orig, tile, old(self).size));
            lemma_add_tile_lookup(orig, tile, old(self).size);
        }
    }

    /// Stamps a group into the maze: each field of the group's grid becomes
    /// a single-cell tile at the group's origin translated by the field's
    /// local coordinate, placed through `add_tile` (so cells landing outside
    /// the maze are dropped, and a cell landing on an existing anchor
    /// replaces that tile). Positions the group does not cover keep exactly
    /// the tile they had.
    pub fn add_tile_group(&mut self, tile_group: TileGroup)
        requires
            old(self).wf(),
            tile_group.wf(),
            tile_group.size.width > 0,
            tile_group.origin.x + tile_group.size.width <= u32::MAX,
            tile_group.origin.y + tile_group.size.height <= u32::MAX,
        ensures
            final(self).size == old(self).size,
            final(self).tile_size == old(self).tile_size,
            final(self).wf(),
            forall|i: int|
                0 <= i < tile_group.fields@.len() && spec_in_bounds(
                    #[trigger] group_cell_position(tile_group, i),
                    old(self).size,
                ) ==> unit_tile_at(
                    final(self).tiles@,
                    group_cell_position(tile_group, i),
                    tile_group.fields@[i],
                ),
            forall|p: Position|
                !group_covers(tile_group, p) ==> #[trigger] spec_tile_at(final(self).tiles@, p)
                    == spec_tile_at(old(self).tiles@, p),
    {
        let ghost orig = self.tiles@;
        let ghost msize = self.size;
        let ghost mtile_size = self.tile_size;
        let gw = tile_group.size.width;
        let n = tile_group.fields.len();
        proof {
            assert(tile_group.size.area() == tile_group.size.width * tile_group.size.height);
        }
        let mut i: usize = 0;
        while i < n
            invariant
                self.wf(),
                self.size == msize,
                self.tile_size == mtile_size,
                0 <= i <= n,
                n == tile_group.fields@.len(),
                tile_group.wf(),
                tile_group.size.width > 0,
                tile_group.origin.x + tile_group.size.width <= u32::MAX,
                tile_group.origin.y + tile_group.size.height <= u32::MAX,
                tile_group.size.area() == tile_group.size.width * tile_group.size.height,
                gw == tile_group.size.width,
                forall|k: int|
                    0 <= k < i && spec_in_bounds(
                        #[trigger] group_cell_position(tile_group, k),
                        msize,
                    ) ==> unit_tile_at(
                        self.tiles@,
                        group_cell_position(tile_group, k),
                        tile_group.fields@[k],
                    ),
                forall|p: Position|
                    !group_covers(tile_group, p) ==> #[trigger] spec_tile_at(self.tiles@, p)
                        == spec_tile_at(orig, p),
            decreases n - i,
        {
            proof {
                lemma_flat_coords(i as int, gw as int, tile_group.size.height as int);
            }
            let lx = (i % (gw as usize)) as u32;
            let ly = (i / (gw as usize)) as u32;
            let position = Position::new(lx, ly).add(tile_group.origin);
            let tile = Tile::new_unit(position, tile_group.fields[i]);
            let ghost prev = self.tiles@;
            self.add_tile(tile);
            proof {
                lemma_add_tile_lookup(prev, tile, msize);
                assert(position == group_cell_position(tile_group, i as int));
                lemma_group_cell_covered(tile_group, i as int);
                assert forall|k: int|
                    0 <= k < i + 1 && spec_in_bounds(
                        #[trigger] group_cell_position(tile_group, k),
                        msize,
                    ) implies unit_tile_at(
                    self.tiles@,
                    group_cell_position(tile_group, k),
                    tile_group.fields@[k],
                ) by {
                    if k < i {
                        lemma_group_cells_distinct(tile_group, k, i as int);
                    } else {
                        assert(spec_tile_at(self.tiles@, position) == Some(tile));
                    }
                }
                assert forall|p: Position| !group_covers(tile_group, p) implies #[trigger]
                spec_tile_at(self.tiles@, p) == spec_tile_at(orig, p) by {
                    assert(p != position);
                }
            }
            i += 1;
        }
    }

    /// The maze flattened to one field per cell: every placed tile's grid,
    /// written at its anchor position and clipped to the maze, over a
    /// background of empty cells.
    pub fn get_path(&self) -> (r: Vec<Field>)
        requires
            self.wf(),
        ensures
            r@ == spec_path(self.tiles@, self.size),
            r@.len() == self.size.area(),
    {
        let len = self.size.len();
        let mut fields: Vec<Field> = Vec::new();
        let mut k: usize = 0;
        while k < len
            invariant
                0 <= k <= len,
                fields@.len() == k,
                forall|j: int| 0 <= j < k ==> fields@[j] == Field::Empty,
            decreases len - k,
        {
            fields.push(Field::Empty);
            k += 1;
        }
        proof {
            assert(self.tiles@.take(0) =~= Seq::<Tile>::empty());
            assert(fields@ =~= spec_path(self.tiles@.take(0), self.size));
        }
        let tn = self.tiles.len();
        let mut ti: usize = 0;
        while ti < tn
            invariant
                self.wf(),
                0 <= ti <= tn,
                tn == self.tiles@.len(),
                fields@.len() == self.size.area(),
                fields@ == spec_path(self.tiles@.take(ti as int), self.size),
            decreases tn - ti,
        {
            let t = &self.tiles[ti];
            let ghost entry = fields@;
            proof {
                assert(self.tiles@[ti as int].wf());
                assert(spec_in_bounds(self.tiles@[ti as int].position, self.size));
                assert(t.size.area() == t.size.width * t.size.height);
                assert(self.size.area() == self.size.width * self.size.height);
            }
            let tw = t.size.width;
            let tile_len = t.fields.len();
            let mut i: usize = 0;
            while i < tile_len
                invariant
                    self.wf(),
                    0 <= ti < tn,
                    tn == self.tiles@.len(),
                    *t == self.tiles@[ti as int],
                    t.wf(),
                    spec_in_bounds(t.position, self.size),
                    tw == t.size.width,
                    tile_len == t.fields@.len(),
                    t.size.area() == t.size.width * t.size.height,
                    self.size.area() == self.size.width * self.size.height,
                    self.size.area() <= u32::MAX,
                    0 <= i <= tile_len,
                    entry.len() == self.size.area(),
                    fields@.len() == self.size.area(),
                    forall|k: int|
                        0 <= k < fields@.len() ==> #[trigger] fields@[k] == painted_up_to(
                            entry,
                            *t,
                            self.size,
                            i as int,
                            k,
                        ),
                decreases tile_len - i,
            {
                proof {
                    if tw == 0 {
                        assert(t.size.area() == 0);
                    }
                    lemma_flat_coords(i as int, tw as int, t.size.height as int);
                }
                let lx = i % (tw as usize);
                let ly = i / (tw as usize);
                let gx64 = t.position.x as u64 + lx as u64;
                let gy64 = t.position.y as u64 + ly as u64;
                let w64 = self.size.width as u64;
                let h64 = self.size.height as u64;
                if gx64 < w64 && gy64 < h64 {
                    proof {
                        lemma_row_major(gx64 as int, gy64 as int, w64 as int, h64 as int);
                    }
                    let idx = (gy64 * w64 + gx64) as usize;
                    fields[idx] = t.fields[i];
                    proof {
                        let w = self.size.width as int;
                        let h = self.size.height as int;
                        let gx = gx64 as int;
                        let gy = gy64 as int;
                        assert(idx as int % w == gx && idx as int / w == gy);
                        assert(tile_covers(*t, gx, gy));
                        assert(tile_local_index(*t, gx, gy) == ly * tw + lx);
                        assert(tile_local_index(*t, gx, gy) == i);
                        assert forall|k: int| 0 <= k < fields@.len() implies #[trigger] fields@[k]
                            == painted_up_to(entry, *t, self.size, i + 1, k) by {
                            lemma_flat_coords(k, w, h);
                            let kx = k % w;
                            let ky = k / w;
                            if k == idx {
                            } else {
                                if tile_covers(*t, kx, ky) && tile_local_index(*t, kx, ky)
                                    == i as int {
                                    lemma_fundamental_div_mod_converse(
                                        i as int,
                                        tw as int,
                                        ky - t.position.y,
                                        kx - t.position.x,
                                    );
                                    assert(kx == gx && ky == gy);
                                    assert(k == idx);
                                }
                            }
                        }
                    }
                } else {
                    proof {
                        let w = self.size.width as int;
                        let h = self.size.height as int;
                        assert forall|k: int| 0 <= k < fields@.len() implies #[trigger] fields@[k]
                            == painted_up_to(entry, *t, self.size, i + 1, k) by {
                            lemma_flat_coords(k, w, h);
                            let kx = k % w;
                            let ky = k / w;
                            if tile_covers(*t, kx, ky) && tile_local_index(*t, kx, ky) == i as int {
                                lemma_fundamental_div_mod_converse(
                                    i as int,
                                    tw as int,
                                    ky - t.position.y,
                                    kx - t.position.x,
                                );
                                assert(kx == gx64 as int && ky == gy64 as int);
                                assert(false);
                            }
                        }
                    }
                }
                i += 1;
            }
            proof {
                let w = self.size.width as int;
                let h = self.size.height as int;
                assert forall|k: int| 0 <= k < fields@.len() implies #[trigger] fields@[k]
                    == paint_cell(entry, *t, self.size, k) by {
                    lemma_flat_coords(k, w, h);
                    let kx = k % w;
                    let ky = k / w;
                    if tile_covers(*t, kx, ky) {
                        lemma_row_major(
                            kx - t.position.x,
                            ky - t.position.y,
                            t.size.width as int,
                            t.size.height as int,
                        );
                        assert(tile_local_index(*t, kx, ky) < t.size.area());
                    }
                }
                let pre = self.tiles@.take(ti as int);
                let cur = self.tiles@.take(ti as int + 1);
                assert(cur.drop_last() =~= pre);
                assert(cur.last() == self.tiles@[ti as int]);
                assert(fields@ =~= paint_tile(entry, self.tiles@[ti as int], self.size));
                assert(fields@ == spec_path(cur, self.size));
            }
            ti += 1;
        }
        proof {
            assert(self.tiles@.take(tn as int) =~= self.tiles@);
            lemma_spec_path_len(self.tiles@, self.size);
        }
        fields
    }

    /// The field of the maze cell at `position` in the flattened grid, or
    /// nothing when the cell's flat index lies past the end of the grid.
    pub fn get_field_at_position(&self, position: Position) -> (r: Option<Field>)
        requires
            self.wf(),
            position.y * self.size.width + position.x <= u32::MAX,
        ensures
            position.y * self.size.width + position.x < self.size.area() ==> r == Some(
                spec_path(self.tiles@, self.size)[position.y * self.size.width + position.x],
            ),
            position.y * self.size.width + position.x >= self.size.area() ==> r is None,
    {
        let index = self.get_index(position);
        let path = self.get_path();
        if index < path.len() {
            Some(path[index])
        } else {
            None
        }
    }
}

} // verus!
