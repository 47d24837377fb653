use arq::character::build_player;
use arq::characters::Characters;
use arq::container::{build, Container, ContainerType};
use arq::door::build_door;
use arq::level::Level;
use arq::look::{describe_position, describe_position_container, describe_position_in_room};
use arq::map::GameMap;
use arq::position::{build_square_area, Position};
use arq::random::new_id;
use arq::room::build_room;
use arq::tile::{build_library, Tile};

fn build_test_level(container_position: Position, area_container: Container) -> Level {
    let tile_library = build_library();
    let rom = tile_library.get(Tile::Room);
    let wall = tile_library.get(Tile::Wall);
    let map_area = build_square_area(Position { x: 0, y: 0 }, 3);
    let map = GameMap {
        area: map_area,
        tiles: vec![
            vec![wall.clone(), wall.clone(), wall.clone()],
            vec![wall.clone(), rom.clone(), wall.clone()],
            vec![wall.clone(), wall.clone(), wall.clone()],
        ],
        rooms: Vec::new(),
        containers: vec![(container_position, area_container)],
    };
    let player = build_player(String::from("Test Player"), Position { x: 0, y: 0 });
    Level { map: Some(map), characters: Characters::new(Some(player), Vec::new()) }
}

#[test]
fn test_describe_area_multiple_items() {
    // GIVEN a valid map
    // that holds a source container (AREA) containing 3 OBJECT containers
    let mut source_container = build(new_id(), "Floor".to_owned(), 'X', 1, 1, ContainerType::AREA, 100);
    let container1 = build(new_id(), "Test Container 1".to_owned(), 'X', 1, 1, ContainerType::OBJECT, 100);
    let container2 = build(new_id(), "Test Container 2".to_owned(), 'X', 1, 1, ContainerType::OBJECT, 100);
    let container3 = build(new_id(), "Test Container 3".to_owned(), 'X', 1, 1, ContainerType::OBJECT, 100);
    source_container.push(vec![container1, container2, container3]);
    assert_eq!(3, source_container.get_total_count());

    let container_pos = Position { x: 1, y: 1 };
    let mut level = build_test_level(container_pos, source_container);

    // WHEN we call to describe the container position
    let prompt = describe_position(container_pos, &mut level);

    // THEN we expect
    assert!(prompt.is_ok());
    assert_eq!("There's 3 items on the Floor here.", prompt.unwrap());
}

#[test]
fn test_describe_area_single_item() {
    // GIVEN a valid map
    // that holds a source container (AREA) containing 1 OBJECT container
    let mut source_container = build(new_id(), "Floor".to_owned(), 'X', 1, 1, ContainerType::AREA, 100);
    let bag = build(new_id(), "Bag".to_owned(), 'X', 1, 1, ContainerType::OBJECT, 100);
    source_container.push(vec![bag]);
    assert_eq!(1, source_container.get_total_count());
    let container_pos = Position { x: 1, y: 1 };
    let mut level = build_test_level(container_pos, source_container);

    // WHEN we call to describe the container position
    let prompt = describe_position(container_pos, &mut level);

    // THEN we expect the single item and area to be described
    assert!(prompt.is_ok());
    assert_eq!("There's a Bag on the Floor here.", prompt.unwrap());
}

#[test]
fn test_describe_area_empty() {
    // GIVEN a valid map
    // that holds a source container (AREA) containing nothing
    let source_container = build(new_id(), "Floor".to_owned(), 'X', 1, 1, ContainerType::AREA, 100);
    assert_eq!(0, source_container.get_total_count());
    let container_pos = Position { x: 1, y: 1 };
    let mut level = build_test_level(container_pos, source_container);

    // WHEN we call to describe the container position
    let prompt = describe_position(container_pos, &mut level);

    // THEN we expect the area to be empty
    assert!(prompt.is_ok());
    assert_eq!("The Floor is empty here.", prompt.unwrap());
}

#[test]
fn test_describe_area_nothing() {
    // GIVEN a valid map
    // that holds a source container (AREA) containing 1 OBJECT container
    let mut source_container = build(new_id(), "Floor".to_owned(), 'X', 1, 1, ContainerType::AREA, 100);
    let bag = build(new_id(), "Bag".to_owned(), 'X', 1, 1, ContainerType::OBJECT, 100);
    source_container.push(vec![bag]);
    assert_eq!(1, source_container.get_total_count());
    let container_pos = Position { x: 1, y: 1 };
    let mut level = build_test_level(container_pos, source_container);

    // WHEN we call to describe a different position
    let prompt = describe_position(Position { x: 1, y: 2 }, &mut level);

    // THEN we expect nothing to be there
    assert!(prompt.is_ok());
    assert_eq!("There's nothing here.", prompt.unwrap());
}

#[test]
fn test_describe_area_invalid_container() {
    // GIVEN a valid map
    // that holds a source container (AREA) containing 1 OBJECT container
    let mut source_container = build(new_id(), "Floor".to_owned(), 'X', 1, 1, ContainerType::AREA, 100);
    let bag = build(new_id(), "Bag".to_owned(), 'X', 1, 1, ContainerType::OBJECT, 100);
    source_container.push(vec![bag]);
    assert_eq!(1, source_container.get_total_count());
    let container_pos = Position { x: 1, y: 1 };
    let mut level = build_test_level(container_pos, source_container);

    // WHEN we call to describe a different position
    let prompt = describe_position(Position { x: 0, y: 0 }, &mut level);

    // THEN we expect nothing to be there
    assert!(prompt.is_ok());
    assert_eq!("There's nothing here.", prompt.unwrap());
}

#[test]
fn describe_non_area_container_fails() {
    let bag = build(new_id(), "Bag".to_owned(), 'X', 1, 1, ContainerType::OBJECT, 100);
    let err = describe_position_container(&bag).unwrap_err();
    assert_eq!(std::io::ErrorKind::Other, err.kind());
    assert_eq!("Unexpected input! Cannot describe position with container of type OBJECT.", err.to_string());
}

#[test]
fn describe_counts_nested_items() {
    let mut floor = build(new_id(), "Floor".to_owned(), 'X', 1, 1, ContainerType::AREA, 100);
    let mut bag = build(new_id(), "Bag".to_owned(), 'X', 1, 1, ContainerType::OBJECT, 100);
    let coin = build(new_id(), "Coin".to_owned(), 'X', 1, 1, ContainerType::OBJECT, 100);
    bag.push(vec![coin]);
    floor.push(vec![bag]);
    let prompt = describe_position_container(&floor).unwrap();
    assert_eq!("There's 2 items on the Floor here.", prompt);
}

#[test]
fn describe_position_without_map_fails() {
    let mut level = Level { map: None, characters: Characters::new(None, Vec::new()) };
    let err = describe_position(Position { x: 0, y: 0 }, &mut level).unwrap_err();
    assert_eq!("Look command failure, no map on level!", err.to_string());
}

#[test]
fn describe_position_in_a_room_names_its_door() {
    let area = build_square_area(Position { x: 0, y: 0 }, 3);
    let room = build_room(area, vec![build_door(Position { x: 1, y: 0 })]);
    let floor = build(new_id(), "Floor".to_owned(), 'X', 1, 1, ContainerType::AREA, 100);
    let mut level = build_test_level(Position { x: 2, y: 2 }, floor);
    level.map.as_mut().unwrap().rooms.push(room);
    let door = describe_position(Position { x: 1, y: 0 }, &mut level).unwrap();
    assert_eq!("There's a Door here.", door);
    // Inside a room, what lies on the floor is not described.
    let inside = describe_position(Position { x: 2, y: 2 }, &mut level).unwrap();
    assert_eq!("There's nothing here.", inside);
}

#[test]
fn describe_position_in_room_names_the_door() {
    let area = build_square_area(Position { x: 0, y: 0 }, 3);
    let doors = vec![build_door(Position { x: 1, y: 0 })];
    let room = build_room(area, doors);
    let prompt = describe_position_in_room(Position { x: 1, y: 0 }, &room);
    assert_eq!(Some(String::from("There's a Door here.")), prompt);
}

#[test]
fn describe_position_in_room_without_door() {
    let area = build_square_area(Position { x: 0, y: 0 }, 3);
    let doors = vec![build_door(Position { x: 1, y: 0 })];
    let room = build_room(area, doors);
    assert_eq!(None, describe_position_in_room(Position { x: 1, y: 1 }, &room));
    let empty_room = build_room(build_square_area(Position { x: 0, y: 0 }, 3), Vec::new());
    assert_eq!(None, describe_position_in_room(Position { x: 1, y: 0 }, &empty_room));
}
