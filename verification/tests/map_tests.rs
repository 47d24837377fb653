use arq::door::build_door;
use arq::map::GameMap;
use arq::map_generator::build_generator;
use arq::position::{build_square_area, Position};
use arq::room::build_room;
use arq::tile::{build_library, Tile};
use rand_pcg::Pcg64;
use rand_seeder::Seeder;

fn test_rng() -> Pcg64 {
    Seeder::from("test").make_rng()
}

#[test]
fn test_build_door() {
    let position = Position { x: 1, y: 2 };
    let door = build_door(position);

    assert_eq!(1, door.position.x);
    assert_eq!(2, door.position.y);
    assert!(!door.open);
    assert!(!door.locked);
    assert_eq!(100, door.health);
    assert_eq!(0, door.locks);
    assert_eq!(0, door.unlocked_locks);
}

#[test]
fn test_build_library() {
    let library = build_library();
    assert_eq!(9, library.len());
}

#[test]
fn library_entries_follow_tile_kinds() {
    let library = build_library();
    let wall = library.get(Tile::Wall);
    assert_eq!(Tile::Wall, wall.tile_type);
    assert_eq!(3, wall.id);
    assert!(!wall.traversable);
    assert_eq!('#', wall.symbol);
    assert_eq!("Wall", wall.name);
    let room = library.get(Tile::Room);
    assert!(room.traversable);
    assert_eq!("Room", room.name);
}

#[test]
fn test_build_generator() {
    // GIVEN a 12x12 map board
    let map_area = build_square_area(Position { x: 0, y: 0 }, 12);
    let generator = build_generator(map_area);

    assert_eq!(3, generator.min_room_size);
    assert_eq!(6, generator.max_room_size);
    assert_eq!(40, generator.room_area_quota_percentage);
    assert_eq!(0, generator.room_area_percentage);
    assert_eq!(4, generator.max_door_count);
    assert!(generator.tile_library.len() > 0);
    assert_eq!(map_area, generator.map_area);
    assert_eq!(0, generator.taken_positions.len());
    assert_eq!(0, generator.possible_room_positions.len());
}

#[test]
fn test_generate_room() {
    let map_area = build_square_area(Position { x: 0, y: 0 }, 12);
    let generator = build_generator(map_area);

    let room = generator.generate_room(&mut test_rng(), Position { x: 0, y: 0 }, 3);
    let expected_area = build_square_area(Position { x: 0, y: 0 }, 3);
    assert_eq!(expected_area, room.get_area());
    assert!(!room.get_doors().is_empty());
}

#[test]
fn generate_rooms_stops_at_quota() {
    // A quota that the first room placed already covers: the search ends after one room.
    let map_area = build_square_area(Position { x: 0, y: 0 }, 12);
    let mut generator = build_generator(map_area);
    generator.room_area_quota_percentage = 5;
    let rooms = generator.generate_rooms(&mut test_rng());
    assert_eq!(1, rooms.len());
    let area = rooms[0].get_area();
    assert!(area.size_x >= 3 && area.size_x <= 6);
    assert_eq!(area.size_x, area.size_y);
    assert!(area.end_position.x <= 11 && area.end_position.y <= 11);
    assert!(area.start_position.x >= 1 && area.start_position.y >= 1);
    // The room's positions are no longer candidates, and were recorded as taken.
    for p in &generator.possible_room_positions {
        assert!(!area.contains(*p));
    }
    assert!(generator.taken_positions.len() <= area.get_total_area() as usize);
    for p in &generator.taken_positions {
        assert!(area.contains(*p));
    }
}

#[test]
fn generate_draws_rooms_on_empty_tiles() {
    let map_area = build_square_area(Position { x: 0, y: 0 }, 12);
    let mut generator = build_generator(map_area);
    generator.room_area_quota_percentage = 5;
    let map = generator.generate(&mut test_rng());

    let area = map.area;
    assert_eq!(0, area.start_position.x);
    assert_eq!(0, area.start_position.y);
    assert_eq!(11, area.end_position.x);
    assert_eq!(11, area.end_position.y);
    assert_eq!(12, map.tiles.len());
    for row in &map.tiles {
        assert_eq!(12, row.len());
    }
    assert_eq!(1, map.rooms.len());
    let room = &map.rooms[0];
    let ra = room.get_area();
    for y in 0..12u16 {
        for x in 0..12u16 {
            let p = Position { x, y };
            let t = map.tiles[y as usize][x as usize].tile_type;
            if room.get_doors().iter().any(|d| d.position == p) {
                assert_eq!(Tile::Door, t);
            } else if x == ra.start_position.x || x == ra.end_position.x || y == ra.start_position.y || y == ra.end_position.y {
                if ra.contains(p) {
                    assert_eq!(Tile::Wall, t);
                } else {
                    assert_eq!(Tile::NoTile, t);
                }
            } else if ra.contains(p) {
                assert_eq!(Tile::Room, t);
            } else {
                assert_eq!(Tile::NoTile, t);
            }
        }
    }
}

#[test]
fn find_possible_room_positions_lists_inner_positions() {
    let map_area = build_square_area(Position { x: 0, y: 0 }, 5);
    let mut generator = build_generator(map_area);
    generator.find_possible_room_positions();
    // Columns and rows 1..3 (end 4, minus one on each side), column by column.
    assert_eq!(vec![
        Position { x: 1, y: 1 }, Position { x: 1, y: 2 },
        Position { x: 2, y: 1 }, Position { x: 2, y: 2 },
    ], generator.possible_room_positions);
}

#[test]
fn remove_possible_position_moves_it_to_taken() {
    let map_area = build_square_area(Position { x: 0, y: 0 }, 5);
    let mut generator = build_generator(map_area);
    generator.find_possible_room_positions();
    assert_eq!(Some(Position { x: 2, y: 1 }), generator.remove_possible_position(Position { x: 2, y: 1 }));
    assert_eq!(3, generator.possible_room_positions.len());
    assert_eq!(vec![Position { x: 2, y: 1 }], generator.taken_positions);
    assert_eq!(None, generator.remove_possible_position(Position { x: 2, y: 1 }));
    assert_eq!(3, generator.possible_room_positions.len());
}

#[test]
fn add_rooms_to_map_draws_walls_floor_and_doors() {
    let library = build_library();
    let non = library.get(Tile::NoTile);
    let area = build_square_area(Position { x: 0, y: 0 }, 4);
    let room = build_room(build_square_area(Position { x: 0, y: 0 }, 3), vec![build_door(Position { x: 1, y: 0 })]);
    let map = GameMap { area, tiles: vec![vec![non.clone(); 4]; 4], rooms: vec![room], containers: Vec::new() };
    let generator = build_generator(area);
    let drawn = generator.add_rooms_to_map(map);
    assert_eq!(Tile::Wall, drawn.tiles[0][0].tile_type);
    assert_eq!(Tile::Door, drawn.tiles[0][1].tile_type);
    assert_eq!(Tile::Room, drawn.tiles[1][1].tile_type);
    assert_eq!(Tile::Wall, drawn.tiles[2][2].tile_type);
    assert_eq!(Tile::NoTile, drawn.tiles[3][3].tile_type);
}

#[test]
fn generated_rooms_fit_and_do_not_touch() {
    // A quota low enough that the search always ends, on a board with room for several rooms.
    let map_area = build_square_area(Position { x: 0, y: 0 }, 30);
    let mut generator = build_generator(map_area);
    generator.room_area_quota_percentage = 10;
    let rooms = generator.generate_rooms(&mut test_rng());
    assert!(!rooms.is_empty());
    for i in 0..rooms.len() {
        let a = rooms[i].get_area();
        assert!(map_area.can_fit(a.start_position, a.size_x));
        assert!(a.size_x >= 3 && a.size_x <= 6 && a.size_x == a.size_y);
        for j in (i + 1)..rooms.len() {
            assert!(!a.intersects_or_touches(rooms[j].get_area()));
        }
    }
}

#[test]
fn generate_rooms_moves_covered_candidates_to_taken() {
    let map_area = build_square_area(Position { x: 0, y: 0 }, 20);
    let mut generator = build_generator(map_area);
    generator.room_area_quota_percentage = 5;
    let rooms = generator.generate_rooms(&mut test_rng());
    // The candidate grid holds columns 1 to 17 and rows 1 to 17.
    assert_eq!(17 * 17, generator.possible_room_positions.len() + generator.taken_positions.len());
    for p in &generator.taken_positions {
        assert!(rooms.iter().any(|r| r.get_area().contains(*p)));
    }
    for p in &generator.possible_room_positions {
        assert!(!rooms.iter().any(|r| r.get_area().contains(*p)));
    }
}

#[test]
fn generate_rooms_with_no_quota_places_nothing() {
    let map_area = build_square_area(Position { x: 0, y: 0 }, 12);
    let mut generator = build_generator(map_area);
    generator.room_area_quota_percentage = 0;
    let rooms = generator.generate_rooms(&mut test_rng());
    assert!(rooms.is_empty());
    assert_eq!(0, generator.rounds_drawn);
}

#[test]
fn generate_rooms_counts_its_rounds() {
    let map_area = build_square_area(Position { x: 0, y: 0 }, 12);
    let mut generator = build_generator(map_area);
    generator.room_area_quota_percentage = 5;
    let rooms = generator.generate_rooms(&mut test_rng());
    assert!(generator.rounds_drawn >= 1);
    assert!(rooms.len() as u64 <= generator.rounds_drawn);
    let usage: u32 = rooms.iter().map(|r| {
        let a = r.get_area();
        a.size_x as u32 * a.size_y as u32 * 100 / 144
    }).sum();
    assert!(usage >= 5);
}

#[test]
fn test_generate_rooms() {
    let map_size = 12;
    let map_area = build_square_area(Position { x: 0, y: 0 }, map_size);
    let mut generator = build_generator(map_area);
    let rooms = generator.generate_rooms(&mut test_rng());
    assert_ne!(0, rooms.len());

    for room in rooms {
        let area = room.get_area();
        let start_pos = area.start_position;
        assert!(start_pos.x <= 12 && start_pos.y < 12, "Expected room start position < 12 for x,y, but was: {}, {}", start_pos.x, start_pos.y);
        let end_pos = area.end_position;
        assert!(end_pos.x <= 12 && end_pos.y < 12, "Expected room end position < 12 for x,y, but was: {}, {}", end_pos.x, end_pos.y);
    }
}

#[test]
fn test_generate() {
    let map_size = 12;
    let map_area = build_square_area(Position { x: 0, y: 0 }, map_size);
    let mut generator = build_generator(map_area);
    let map = generator.generate(&mut test_rng());

    let area = map.area;
    assert_eq!(0, area.start_position.x);
    assert_eq!(0, area.start_position.y);
    assert_eq!(11, area.end_position.x);
    assert_eq!(11, area.end_position.y);

    let tiles = map.tiles;
    assert_eq!(12, tiles.len());
    for row in tiles {
        assert_eq!(12, row.len());
    }

    let rooms = map.rooms;
    assert_ne!(0, rooms.len());
    for room in rooms {
        let area = room.get_area();
        let start_pos = area.start_position;
        assert!(start_pos.x <= 12 && start_pos.y < 12, "Expected room start position < 12 for x,y, but was: {}, {}", start_pos.x, start_pos.y);
        let end_pos = area.end_position;
        assert!(end_pos.x <= 12 && end_pos.y < 12, "Expected room end position < 12 for x,y, but was: {}, {}", end_pos.x, end_pos.y);
    }
}

#[test]
fn one_seed_gives_one_map() {
    // Two generators drawing from generators seeded alike place the same rooms.
    let map_area = build_square_area(Position { x: 0, y: 0 }, 12);
    let mut first = build_generator(map_area);
    let mut second = build_generator(map_area);
    let a = first.generate_rooms(&mut Seeder::from("stripy zebra").make_rng());
    let b = second.generate_rooms(&mut Seeder::from("stripy zebra").make_rng());
    assert_eq!(a.len(), b.len());
    for (x, y) in a.iter().zip(b.iter()) {
        assert_eq!(x.get_area(), y.get_area());
        assert_eq!(x.get_doors().len(), y.get_doors().len());
    }
    assert_eq!(first.rounds_drawn, second.rounds_drawn);
}


#[test]
fn generate_rooms_stops_when_every_candidate_is_blocked() {
    // A quota no map can reach: the search ends once no room fits at any candidate.
    let map_area = build_square_area(Position { x: 0, y: 0 }, 12);
    let mut generator = build_generator(map_area);
    generator.room_area_quota_percentage = 1000;
    let rooms = generator.generate_rooms(&mut test_rng());
    assert!(!rooms.is_empty());
    for p in &generator.possible_room_positions {
        for size in 3..=6u16 {
            let fits = map_area.can_fit(*p, size)
                && rooms.iter().all(|r| !r.get_area().intersects_or_touches(build_square_area(*p, size)));
            assert!(!fits);
        }
    }
}
