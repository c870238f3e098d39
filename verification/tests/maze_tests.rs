use maze_tiles_rust::field::Field;
use maze_tiles_rust::maze::Maze;
use maze_tiles_rust::position::Position;
use maze_tiles_rust::size::Size;
use maze_tiles_rust::tile::Tile;
use maze_tiles_rust::tile_group::TileGroup;

#[test]
fn maze_new_test() {
    let maze = Maze::new(20, 10);
    assert_eq!(200, maze.get_path().len());
}

#[test]
fn add_tile_test() {
    let mut maze = Maze::new(6, 6);
    let tile = Tile::new_unit(Position::new(0, 0), Field::Ground);
    maze.add_tile(tile);
    assert_eq!(maze.get_tile_at_position(Position::new(0, 0)).is_some(), true);
}

#[test]
fn add_tile_group() {
    let mut maze = Maze::new(6, 6);
    let tile_group = TileGroup::new(
        Position::new(3, 3),
        Size::new(3, 3),
        vec![
            Field::Ground,
            Field::Path,
            Field::Ground,
            Field::Ground,
            Field::Path,
            Field::Ground,
            Field::Ground,
            Field::Path,
            Field::Ground,
        ],
    );
    maze.add_tile_group(tile_group);
    assert_eq!(false, maze.get_tile_at_position(Position::new(0, 0)).is_some());
    assert_eq!(true, maze.get_tile_at_position(Position::new(3, 3)).is_some());
}

#[test]
fn maze_maze_new() {
    let maze = Maze::new(10, 10);
    assert_eq!(10, maze.size.width);
    assert_eq!(10, maze.size.width);
}

#[test]
fn maze_add_tile() {
    let mut maze = Maze::new(10, 10);
    maze.add_tile(Tile::new_path());
    assert_eq!(1, maze.tiles.len());
}

#[test]
fn maze_maze_get_index() {
    let maze = Maze::new(10, 10);
    let position = Position::new(5, 5);
    assert_eq!(55, maze.get_index(position));
}

#[test]
fn maze_get_path() {
    let mut maze = Maze::new(10, 10);
    maze.add_tile(Tile::new_path());
    let path = maze.get_path();
    assert_eq!(Field::Ground, path[0]);
    assert_eq!(Field::Path, path[1]);
}

#[test]
fn maze_get_tile_at_position() {
    let mut maze = Maze::new(10, 10);
    maze.add_tile(Tile::new_path());
    if let Some(tile) = maze.get_tile_at_position(Position::new(0, 0)) {
        assert_eq!(Field::Ground, tile.fields[0]);
    };
}

#[test]
fn mod_maze_new() {
    let maze = Maze::new(9, 9);
    assert_eq!(9, maze.size.width);
    assert_eq!(9, maze.size.width);
}

#[test]
fn mod_add_tile() {
    let mut maze = Maze::new(9, 9);
    maze.add_tile(Tile::new_path());
    assert_eq!(1, maze.tiles.len());
}

#[test]
fn mod_maze_get_index() {
    let maze = Maze::new(9, 9);
    let position = Position::new(5, 5);
    assert_eq!(50, maze.get_index(position));
}

#[test]
fn mod_get_path() {
    let mut maze = Maze::new(9, 9);
    maze.add_tile(Tile::new_path());
    let path = maze.get_path();
    assert_eq!(Field::Ground, path[0]);
    assert_eq!(Field::Path, path[1]);
}

#[test]
fn mod_get_tile_at_position() {
    let mut maze = Maze::new(9, 9);
    maze.add_tile(Tile::new_path());
    if let Some(tile) = maze.get_tile_at_position(Position::new(0, 0)) {
        assert_eq!(Field::Ground, tile.fields[0]);
        assert_eq!(Field::Path, tile.fields[1]);
    };
}

#[test]
fn get_tile_at_position_added_rotated() {
    let mut maze = Maze::new(9, 9);
    maze.add_tile(Tile::new_path());
    if let Some(mut tile) = maze.get_tile_at_position(Position::new(0, 0)) {
        assert_eq!(Field::Path, tile.fields[1]);
        tile.rotate();
        assert_eq!(Field::Ground, tile.fields[1]);
        maze.add_tile(tile);
    };
}

#[test]
fn get_tile_at_index() {
    let mut tile = Tile::new_path();
    tile.position = Position::new(1, 0);
    let mut maze = Maze::new(9, 9);
    maze.add_tile(tile);
    if let Some(tile) = maze.get_tile_at_index(21) {
        assert_eq!(Field::Ground, tile.fields[0]);
        assert_eq!(Field::Path, tile.fields[1]);
    };
}

#[test]
fn get_field_at_position() {
    let mut maze = Maze::new(9, 9);
    maze.add_tile(Tile::new_path());
    if let Some(field) = maze.get_field_at_position(Position::new(1, 0)) {
        assert_eq!(Field::Path, field);
    };
}
