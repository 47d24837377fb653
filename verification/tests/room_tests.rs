use arq::door::build_door;
use arq::map::GameMap;
use arq::position::{build_square_area, Position, Side};
use arq::room::build_room;
use arq::tile::{build_library, Tile};

#[test]
fn room_test_get_sides() {
    let start_position = Position { x: 0, y: 0 };
    let area = build_square_area(start_position, 3);

    let door_position = Position { x: 1, y: 0 };
    let door = build_door(door_position);
    let mut doors = Vec::new();
    doors.push(door);

    let room = build_room(area, doors);
    let sides = room.get_sides();

    assert_eq!(4, sides.len());

    let left = sides[0];
    assert_eq!(Side::LEFT, left.side);
    assert_eq!(0, left.area.start_position.x);
    assert_eq!(0, left.area.start_position.y);
    assert_eq!(0, left.area.end_position.x);
    assert_eq!(2, left.area.end_position.y);

    let right = sides[1];
    assert_eq!(Side::RIGHT, right.side);
    assert_eq!(2, right.area.start_position.x);
    assert_eq!(0, right.area.start_position.y);
    assert_eq!(2, right.area.end_position.x);
    assert_eq!(2, right.area.end_position.y);

    let top = sides[2];
    assert_eq!(Side::TOP, top.side);
    assert_eq!(0, top.area.start_position.x);
    assert_eq!(0, top.area.start_position.y);
    assert_eq!(2, top.area.end_position.x);
    assert_eq!(0, top.area.end_position.y);

    let bottom = sides[3];
    assert_eq!(Side::BOTTOM, bottom.side);
    assert_eq!(0, bottom.area.start_position.x);
    assert_eq!(2, bottom.area.start_position.y);
    assert_eq!(2, bottom.area.end_position.x);
    assert_eq!(2, bottom.area.end_position.y);
}

#[test]
fn test_get_inside_area() {
    // GIVEN a room of 4x4
    let start_position = Position { x: 0, y: 0 };
    let area = build_square_area(start_position, 4);
    let room = build_room(area, Vec::new());
    assert_eq!(Position { x: 0, y: 0 }, room.get_area().start_position);
    assert_eq!(Position { x: 3, y: 3 }, room.get_area().end_position);

    // WHEN we call to get the inside area
    let inside_area = room.get_inside_area();

    // THEN we expect it to start at 1,1
    assert_eq!(Position { x: 1, y: 1 }, inside_area.start_position);
    // AND end at 2,2
    assert_eq!(Position { x: 2, y: 2 }, inside_area.end_position);

    assert_eq!(4, inside_area.get_total_area());
}

#[test]
fn test_get_inside_area_realworld() {
    let start_position = Position { x: 2, y: 6 };
    let area = build_square_area(start_position, 6);
    let room = build_room(area, Vec::new());
    assert_eq!(Position { x: 2, y: 6 }, room.get_area().start_position);
    assert_eq!(Position { x: 7, y: 11 }, room.get_area().end_position);

    let inside_area = room.get_inside_area();

    assert_eq!(Position { x: 3, y: 7 }, inside_area.start_position);
    assert_eq!(Position { x: 6, y: 10 }, inside_area.end_position);

    assert_eq!(16, inside_area.get_total_area());
}

#[test]
fn random_inside_pos_is_inside() {
    let room = build_room(build_square_area(Position { x: 2, y: 6 }, 6), Vec::new());
    let inside = room.get_inside_area();
    for _ in 0..50 {
        assert!(inside.contains(room.random_inside_pos()));
    }
}

#[test]
fn test_build_map() {
    let tile_library = build_library();
    assert_eq!(9, tile_library.len());

    let rom = tile_library.get(Tile::Room);
    let wall = tile_library.get(Tile::Wall);

    let room_pos = Position { x: 0, y: 0 };
    let room_area = build_square_area(room_pos, 3);
    let doors = Vec::new();
    let room = build_room(room_area, doors);

    let mut rooms = Vec::new();
    rooms.push(room);

    let map_pos = Position { x: 0, y: 0 };
    let map_area = build_square_area(map_pos, 3);
    let map = GameMap {
        area: map_area,
        tiles: vec![
            vec![wall.clone(), wall.clone(), wall.clone()],
            vec![wall.clone(), rom.clone(), wall.clone()],
            vec![wall.clone(), wall.clone(), wall.clone()],
        ],
        rooms,
        containers: Vec::new(),
    };

    assert_eq!(3, map.tiles.len());
    assert_eq!(3, map.tiles[0].len());
    assert_eq!(3, map.tiles[1].len());
    assert_eq!(3, map.tiles[2].len());
}

#[test]
fn test_adjust_map() {
    let tile_library = build_library();
    assert_eq!(9, tile_library.len());

    let wall = tile_library.get(Tile::Wall);

    let room_pos = Position { x: 0, y: 0 };
    let room_area = build_square_area(room_pos, 3);
    let doors = Vec::new();
    let room = build_room(room_area, doors);

    let mut rooms = Vec::new();
    rooms.push(room);

    let map_pos = Position { x: 0, y: 0 };
    let map_area = build_square_area(map_pos, 3);
    let mut map = GameMap {
        area: map_area,
        tiles: vec![vec![wall.clone(), wall.clone(), wall.clone()]],
        rooms,
        containers: Vec::new(),
    };

    assert_eq!(1, map.tiles.len());

    map.tiles[0].push(wall.clone());
    assert_eq!(4, map.tiles[0].len());

    assert_eq!(Tile::Wall, map.tiles[0][1].tile_type);

    map.tiles.push(vec![wall.clone()]);
    assert_eq!(1, map.tiles[1].len());
    assert_eq!(Tile::Wall, map.tiles[1][0].tile_type);
}

#[test]
fn map_tiles_read_and_write() {
    let library = build_library();
    let wall = library.get(Tile::Wall);
    let rom = library.get(Tile::Room);
    let mut map = GameMap {
        area: build_square_area(Position { x: 0, y: 0 }, 3),
        tiles: vec![
            vec![wall.clone(), wall.clone(), wall.clone()],
            vec![wall.clone(), rom.clone(), wall.clone()],
            vec![wall.clone(), wall.clone(), wall.clone()],
        ],
        rooms: Vec::new(),
        containers: Vec::new(),
    };
    assert!(map.is_traversible(Position { x: 1, y: 1 }));
    assert!(!map.is_traversible(Position { x: 0, y: 1 }));
    assert!(!map.is_paveable(Position { x: 0, y: 1 }));
    assert!(map.get_tile(Position { x: 3, y: 0 }).is_none());
    map.set_tile(Position { x: 0, y: 1 }, rom.clone());
    assert!(map.is_traversible(Position { x: 0, y: 1 }));
    let neighbors = map.get_neighbors(Position { x: 0, y: 0 });
    assert_eq!(vec![Position { x: 0, y: 1 }, Position { x: 1, y: 0 }], neighbors);
}
