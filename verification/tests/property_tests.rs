use maze_tiles_rust::direction::Direction;
use maze_tiles_rust::field::Field;
use maze_tiles_rust::maze::Maze;
use maze_tiles_rust::position::Position;
use maze_tiles_rust::size::Size;
use maze_tiles_rust::tile::Tile;
use maze_tiles_rust::tile_group::TileGroup;

#[test]
fn rotate_four_times_restores() {
    let fields = vec![
        Field::Path,
        Field::Ground,
        Field::Empty,
        Field::Ground,
        Field::Ground,
        Field::Path,
        Field::Empty,
        Field::Path,
        Field::Empty,
    ];
    let mut tile = Tile::new(Position::new(0, 0), Size::new(3, 3), fields.clone());
    tile.rotate();
    assert_ne!(fields, tile.fields);
    tile.rotate();
    tile.rotate();
    tile.rotate();
    assert_eq!(fields, tile.fields);
}

#[test]
fn rotate_unit_tile_keeps_field() {
    let mut tile = Tile::new(Position::new(2, 2), Size::new(1, 1), vec![Field::Path]);
    tile.rotate();
    assert_eq!(vec![Field::Path], tile.fields);
    assert_eq!(2, tile.position.x);
    assert_eq!(2, tile.position.y);
}

#[test]
fn tile_group_rotate_four_times_restores() {
    let fields = vec![Field::Path, Field::Ground, Field::Empty, Field::Path];
    let mut group = TileGroup::new(Position::new(1, 0), Size::new(2, 2), fields.clone());
    group.rotate();
    group.rotate();
    group.rotate();
    group.rotate();
    assert_eq!(fields, group.fields);
}

#[test]
fn new_path_pattern() {
    let tile = Tile::new_path();
    assert_eq!(
        vec![
            Field::Ground,
            Field::Path,
            Field::Ground,
            Field::Ground,
            Field::Path,
            Field::Ground,
            Field::Ground,
            Field::Path,
            Field::Ground,
        ],
        tile.fields
    );
    assert_eq!(0, tile.position.x);
    assert_eq!(0, tile.position.y);
    assert_eq!(3, tile.size.width);
    assert_eq!(3, tile.size.height);
}

#[test]
fn size_len_and_is_empty() {
    assert_eq!(20, Size::new(4, 5).len());
    assert_eq!(true, Size::new(0, 0).is_empty());
    assert_eq!(true, Size::new(1, 0).is_empty());
    assert_eq!(true, Size::new(0, 7).is_empty());
    assert_eq!(false, Size::new(1, 1).is_empty());
}

#[test]
fn position_add_components() {
    let sum = Position::new(7, 9).add(Position::new(13, 21));
    assert_eq!(20, sum.x);
    assert_eq!(30, sum.y);
}

#[test]
fn directions_in_fixed_order() {
    let directions = Direction::get_directions();
    assert_eq!(4, directions.len());
    assert_eq!(Direction::Top, directions[0]);
    assert_eq!(Direction::Right, directions[1]);
    assert_eq!(Direction::Bottom, directions[2]);
    assert_eq!(Direction::Left, directions[3]);
}

#[test]
fn neighbour_at_right_and_left() {
    let mut a = Tile::new_path();
    a.position = Position::new(2, 3);
    let mut b = Tile::new_path();
    b.position = Position::new(3, 3);
    assert_eq!(Some(Direction::Right), a.neighbour_at(&b));
    assert_eq!(Some(Direction::Left), b.neighbour_at(&a));
}

#[test]
fn neighbour_at_top_and_bottom() {
    let mut a = Tile::new_path();
    a.position = Position::new(2, 3);
    let mut b = Tile::new_path();
    b.position = Position::new(2, 2);
    assert_eq!(Some(Direction::Top), a.neighbour_at(&b));
    assert_eq!(Some(Direction::Bottom), b.neighbour_at(&a));
}

#[test]
fn neighbour_at_none_for_other_offsets() {
    let mut a = Tile::new_path();
    a.position = Position::new(2, 3);
    let mut same = Tile::new_path();
    same.position = Position::new(2, 3);
    let mut diagonal = Tile::new_path();
    diagonal.position = Position::new(3, 4);
    let mut far = Tile::new_path();
    far.position = Position::new(2, 5);
    assert_eq!(None, a.neighbour_at(&same));
    assert_eq!(None, a.neighbour_at(&diagonal));
    assert_eq!(None, a.neighbour_at(&far));
}

#[test]
fn walkable_neighbour_through_shared_column() {
    let a = Tile::new_path();
    let mut b = Tile::new_path();
    b.position = Position::new(0, 1);
    assert_eq!(true, a.has_walkable_neighbour(&b));
    assert_eq!(true, b.has_walkable_neighbour(&a));
}

#[test]
fn walkable_neighbour_blocked_edge() {
    let a = Tile::new_path();
    let mut b = Tile::new_path();
    b.position = Position::new(0, 1);
    b.rotate();
    assert_eq!(false, a.has_walkable_neighbour(&b));
    let mut c = Tile::new_path();
    c.position = Position::new(1, 0);
    assert_eq!(false, a.has_walkable_neighbour(&c));
}

#[test]
fn walkable_neighbour_needs_adjacency() {
    let a = Tile::new_path();
    let mut far = Tile::new_path();
    far.position = Position::new(0, 2);
    assert_eq!(false, a.has_walkable_neighbour(&far));
}

#[test]
fn add_tile_out_of_bounds_is_dropped() {
    let mut maze = Maze::new(6, 6);
    let mut tile = Tile::new_path();
    tile.position = Position::new(10, 10);
    maze.add_tile(tile);
    assert_eq!(false, maze.get_tile_at_position(Position::new(10, 10)).is_some());
    assert_eq!(0, maze.tiles.len());
}

#[test]
fn add_tile_overwrites_same_position() {
    let mut maze = Maze::new(6, 6);
    maze.add_tile(Tile::new_unit(Position::new(2, 2), Field::Ground));
    maze.add_tile(Tile::new_unit(Position::new(2, 2), Field::Path));
    assert_eq!(1, maze.tiles.len());
    let tile = maze.get_tile_at_position(Position::new(2, 2)).unwrap();
    assert_eq!(Field::Path, tile.fields[0]);
}

#[test]
fn get_path_writes_at_anchor_offset() {
    let mut maze = Maze::new(10, 10);
    let mut tile = Tile::new_path();
    tile.position = Position::new(3, 3);
    maze.add_tile(tile);
    let path = maze.get_path();
    assert_eq!(Field::Empty, path[0]);
    assert_eq!(Field::Path, path[34]);
    assert_eq!(Field::Ground, path[33]);
}

#[test]
fn get_path_clips_overhanging_tile() {
    let mut maze = Maze::new(4, 4);
    let mut tile = Tile::new_path();
    tile.position = Position::new(3, 3);
    maze.add_tile(tile);
    let path = maze.get_path();
    assert_eq!(16, path.len());
    assert_eq!(Field::Ground, path[15]);
    assert_eq!(Field::Empty, path[0]);
}

#[test]
fn get_field_at_position_values() {
    let mut maze = Maze::new(9, 9);
    maze.add_tile(Tile::new_path());
    assert_eq!(Some(Field::Ground), maze.get_field_at_position(Position::new(0, 0)));
    assert_eq!(Some(Field::Path), maze.get_field_at_position(Position::new(1, 0)));
    assert_eq!(Some(Field::Empty), maze.get_field_at_position(Position::new(5, 5)));
}

#[test]
fn get_field_at_position_out_of_range() {
    let maze = Maze::new(3, 3);
    assert_eq!(None, maze.get_field_at_position(Position::new(0, 5)));
}

#[test]
fn get_tile_at_index_misses_empty_cell() {
    let mut maze = Maze::new(9, 9);
    maze.add_tile(Tile::new_path());
    assert_eq!(false, maze.get_tile_at_index(80).is_some());
    assert_eq!(true, maze.get_tile_at_index(0).is_some());
}

#[test]
fn add_tile_group_clipped_at_edge() {
    let mut maze = Maze::new(6, 6);
    let group = TileGroup::new(
        Position::new(4, 4),
        Size::new(3, 3),
        vec![
            Field::Path,
            Field::Path,
            Field::Path,
            Field::Path,
            Field::Path,
            Field::Path,
            Field::Path,
            Field::Path,
            Field::Path,
        ],
    );
    maze.add_tile_group(group);
    assert_eq!(4, maze.tiles.len());
    assert_eq!(true, maze.get_tile_at_position(Position::new(4, 4)).is_some());
    assert_eq!(true, maze.get_tile_at_position(Position::new(5, 5)).is_some());
    assert_eq!(false, maze.get_tile_at_position(Position::new(6, 5)).is_some());
}

#[test]
fn add_tile_group_stamps_unit_tiles() {
    let mut maze = Maze::new(6, 6);
    let group = TileGroup::new(
        Position::new(1, 2),
        Size::new(2, 1),
        vec![Field::Ground, Field::Path],
    );
    maze.add_tile_group(group);
    let left = maze.get_tile_at_position(Position::new(1, 2)).unwrap();
    let right = maze.get_tile_at_position(Position::new(2, 2)).unwrap();
    assert_eq!(vec![Field::Ground], left.fields);
    assert_eq!(vec![Field::Path], right.fields);
    assert_eq!(1, left.size.width);
    assert_eq!(1, left.size.height);
}

#[test]
fn neighbours_at_grid_edge() {
    let origin = Position::new(0, 0);
    assert_eq!(
        vec![Position::new(1, 0), Position::new(0, 1)],
        origin.get_neighbours_positions()
    );
}
