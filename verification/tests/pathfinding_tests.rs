use arq::map::GameMap;
use arq::pathfinding::{ManhattanPathCosting, Node, Pathfinding};
use arq::position::{build_square_area, Position};
use arq::room::build_room;
use arq::tile::{build_library, Tile};

fn build_test_map() -> GameMap {
    let tile_library = build_library();
    assert_eq!(9, tile_library.len());

    let non = tile_library.get(Tile::NoTile);
    let rom = tile_library.get(Tile::Room);
    let wall = tile_library.get(Tile::Wall);
    let door = tile_library.get(Tile::Door);

    let room_pos = Position { x: 0, y: 0 };
    let room_area = build_square_area(room_pos, 3);
    let doors = Vec::new();
    let room = build_room(room_area, doors);

    let mut rooms = Vec::new();
    rooms.push(room);

    let map_pos = Position { x: 0, y: 0 };
    let map_area = build_square_area(map_pos, 4);
    GameMap {
        area: map_area,
        tiles: vec![
            vec![non.clone(), non.clone(), non.clone(), non.clone()],
            vec![non.clone(), wall.clone(), wall.clone(), wall.clone()],
            vec![non.clone(), door.clone(), rom.clone(), wall.clone()],
            vec![non.clone(), wall.clone(), wall.clone(), wall.clone()],
        ],
        rooms,
        containers: Vec::new(),
    }
}

#[test]
fn pathfinding_test_manhattan_path_cost_zero() {
    // GIVEN 2 positions that are equivalent
    let start_pos = Position { x: 1, y: 3 };
    let end_pos = start_pos.clone();

    // WHEN we call to get the manhattan cost for the distance between these 2 points
    let pathfinding = Pathfinding::build(start_pos);
    let result = pathfinding.manhattan_path_cost(start_pos, end_pos);

    // THEN we expect 0 to be returned
    assert_eq!(0, result);
}

#[test]
fn pathfinding_test_manhattan_path_cost_nonzero_xdiff() {
    let start_pos = Position { x: 1, y: 3 };
    let end_pos = Position { x: 3, y: 3 };
    let pathfinding = Pathfinding::build(start_pos);
    let result = pathfinding.manhattan_path_cost(start_pos, end_pos);
    assert_eq!(2, result);
}

#[test]
fn pathfinding_test_manhattan_path_cost_nonzero_ydiff() {
    let start_pos = Position { x: 1, y: 3 };
    let end_pos = Position { x: 1, y: 5 };
    let pathfinding = Pathfinding::build(start_pos);
    let result = pathfinding.manhattan_path_cost(start_pos, end_pos);
    assert_eq!(2, result);
}

#[test]
fn pathfinding_test_manhattan_path_cost_nonzero() {
    let start_pos = Position { x: 1, y: 3 };
    let end_pos = Position { x: 3, y: 5 };
    let pathfinding = Pathfinding::build(start_pos);
    let result = pathfinding.manhattan_path_cost(start_pos, end_pos);
    assert_eq!(4, result);
}

#[test]
fn test_build_unvisited() {
    // GIVEN a starting position
    let start_pos = Position { x: 1, y: 3 };

    // WHEN we build a pathfinding instance
    let pathfinding = Pathfinding::build(start_pos);

    // THEN we expect the unvisited set to contain the start node with a score of 0
    let unvisited = pathfinding.get_unvisited();
    assert_eq!(1, unvisited.len());
    assert_eq!(Node { position: start_pos, score: 0 }, unvisited[0]);
    assert_eq!(start_pos, unvisited[0].position);
}

#[test]
fn test_a_star_search_straight_line_no_obstacles() {
    // GIVEN a starting position
    let start_pos = Position { x: 0, y: 0 };
    let end_pos = Position { x: 3, y: 0 };

    // AND a valid pathfinding instance
    let mut pathfinding = Pathfinding::build(start_pos);

    // WHEN we call to a* search in a straight line with no obstacles
    let map = build_test_map();
    let path = pathfinding.a_star_search(&map, end_pos);

    // THEN we expect the initial gscore to be 0
    // AND the initial fscore to be the distance between the 2 Positions
    assert_eq!(0, pathfinding.find_g_score(start_pos).unwrap());
    assert_eq!(3, pathfinding.find_f_score(start_pos).unwrap());

    // AND the path to be 4 nodes long
    assert_eq!(4, path.len());
    assert_eq!(Position { x: 0, y: 0 }, *path.get(0).unwrap());
    assert_eq!(Position { x: 1, y: 0 }, *path.get(1).unwrap());
    assert_eq!(Position { x: 2, y: 0 }, *path.get(2).unwrap());
    assert_eq!(Position { x: 3, y: 0 }, *path.get(3).unwrap());
}

#[test]
fn test_a_star_search_obstacles_into_room() {
    // GIVEN a starting position
    let start_pos = Position { x: 0, y: 0 };
    // AND an end position targeting a Room tile inside a room
    let end_pos = Position { x: 2, y: 2 };

    // AND a valid pathfinding instance
    let mut pathfinding = Pathfinding::build(start_pos);

    let map = build_test_map();
    let path = pathfinding.a_star_search(&map, end_pos);

    assert_eq!(0, pathfinding.find_g_score(start_pos).unwrap());
    assert_eq!(4, pathfinding.find_f_score(start_pos).unwrap());

    // AND the path to be 5 nodes long
    assert_eq!(5, path.len());
    assert_eq!(Position { x: 0, y: 0 }, *path.get(0).unwrap());
    assert_eq!(Position { x: 0, y: 1 }, *path.get(1).unwrap());
    assert_eq!(Position { x: 0, y: 2 }, *path.get(2).unwrap());
    assert_eq!(Position { x: 1, y: 2 }, *path.get(3).unwrap());
    assert_eq!(Position { x: 2, y: 2 }, *path.get(4).unwrap());
}

#[test]
fn a_star_search_unreachable_gives_empty_path() {
    // A target surrounded by walls on a map without any walkable route.
    let start_pos = Position { x: 0, y: 0 };
    let tile_library = build_library();
    let wall = tile_library.get(Tile::Wall);
    let non = tile_library.get(Tile::NoTile);
    let map = GameMap {
        area: build_square_area(Position { x: 0, y: 0 }, 3),
        tiles: vec![
            vec![non.clone(), wall.clone(), non.clone()],
            vec![wall.clone(), wall.clone(), non.clone()],
            vec![non.clone(), non.clone(), non.clone()],
        ],
        rooms: Vec::new(),
        containers: Vec::new(),
    };
    let mut pathfinding = Pathfinding::build(start_pos);
    let path = pathfinding.a_star_search(&map, Position { x: 2, y: 2 });
    assert_eq!(0, path.len());
}

#[test]
fn test_manhattan_path_cost_zero() {
    let start_pos = Position { x: 1, y: 3 };
    let end_pos = start_pos.clone();
    let pathfinding = Pathfinding::build(start_pos);
    assert_eq!(0, pathfinding.manhattan_path_cost(start_pos, end_pos));
}

#[test]
fn test_manhattan_path_cost_nonzero_xdiff() {
    let start_pos = Position { x: 1, y: 3 };
    let end_pos = Position { x: 3, y: 3 };
    let pathfinding = Pathfinding::build(start_pos);
    assert_eq!(2, pathfinding.manhattan_path_cost(start_pos, end_pos));
}

#[test]
fn test_manhattan_path_cost_nonzero_ydiff() {
    let start_pos = Position { x: 1, y: 3 };
    let end_pos = Position { x: 1, y: 5 };
    let pathfinding = Pathfinding::build(start_pos);
    assert_eq!(2, pathfinding.manhattan_path_cost(start_pos, end_pos));
}

#[test]
fn test_manhattan_path_cost_nonzero() {
    let start_pos = Position { x: 1, y: 3 };
    let end_pos = Position { x: 3, y: 5 };
    let pathfinding = Pathfinding::build(start_pos);
    assert_eq!(4, pathfinding.manhattan_path_cost(start_pos, end_pos));
}
