use arq::container::{build, Container, ContainerType};
use arq::door::build_door;
use arq::input::Key;
use arq::items::build_item;
use arq::list_selection::build_list_selection;
use arq::map::GameMap;
use arq::open::{open_failure_message, open_target, open_view_step, OpenTarget};
use arq::position::{build_square_area, Position};
use arq::random::new_id;
use arq::room::build_room;

fn container(name: &str, container_type: ContainerType) -> Container {
    build(new_id(), name.to_owned(), 'X', 1, 1, container_type, 100)
}

fn map_with(containers: Vec<(Position, Container)>) -> GameMap {
    let area = build_square_area(Position { x: 0, y: 0 }, 6);
    let room = build_room(build_square_area(Position { x: 0, y: 0 }, 4), vec![build_door(Position { x: 3, y: 1 })]);
    GameMap { area, tiles: Vec::new(), rooms: vec![room], containers }
}

#[test]
fn opening_nothing() {
    let map = map_with(Vec::new());
    let t = open_target(&map, Position { x: 5, y: 5 });
    assert_eq!(OpenTarget::Nothing, t);
    assert_eq!(Some("There's nothing here to open."), open_failure_message(t));
}

#[test]
fn opening_a_door() {
    let map = map_with(Vec::new());
    let t = open_target(&map, Position { x: 3, y: 1 });
    assert_eq!(OpenTarget::Door, t);
    assert_eq!(Some("There's a door here."), open_failure_message(t));
}

#[test]
fn an_empty_floor_leaves_the_door() {
    let map = map_with(vec![(Position { x: 3, y: 1 }, container("Floor", ContainerType::AREA))]);
    assert_eq!(OpenTarget::Door, open_target(&map, Position { x: 3, y: 1 }));
}

#[test]
fn opening_a_floor_with_items() {
    let mut floor = container("Floor", ContainerType::AREA);
    floor.push(vec![container("Bag", ContainerType::OBJECT), container("Box", ContainerType::OBJECT)]);
    let map = map_with(vec![(Position { x: 5, y: 5 }, container("Other", ContainerType::AREA)), (Position { x: 3, y: 1 }, floor)]);
    let t = open_target(&map, Position { x: 3, y: 1 });
    assert_eq!(OpenTarget::Container(1), t);
    assert_eq!(None, open_failure_message(t));
}

#[test]
fn a_single_chest_on_the_floor_opens_the_chest() {
    let mut chest = container("Chest", ContainerType::AREA);
    chest.push(vec![container("Coin", ContainerType::OBJECT)]);
    let mut floor = container("Floor", ContainerType::AREA);
    floor.push(vec![chest]);
    let map = map_with(vec![(Position { x: 5, y: 5 }, floor)]);
    assert_eq!(OpenTarget::Inner(0), open_target(&map, Position { x: 5, y: 5 }));
}

#[test]
fn a_single_empty_chest_opens_the_floor() {
    let mut floor = container("Floor", ContainerType::AREA);
    floor.push(vec![container("Chest", ContainerType::AREA)]);
    let map = map_with(vec![(Position { x: 5, y: 5 }, floor)]);
    assert_eq!(OpenTarget::Container(0), open_target(&map, Position { x: 5, y: 5 }));
}

#[test]
fn a_single_bag_opens_the_floor() {
    let mut bag = container("Bag", ContainerType::OBJECT);
    bag.push(vec![container("Coin", ContainerType::OBJECT)]);
    let mut floor = container("Floor", ContainerType::AREA);
    floor.push(vec![bag]);
    let map = map_with(vec![(Position { x: 5, y: 5 }, floor)]);
    assert_eq!(OpenTarget::Container(0), open_target(&map, Position { x: 5, y: 5 }));
}

#[test]
fn open_view_keys() {
    let item = build_item(1, "Test Item 1".to_owned(), 'X', 1, 1);
    let item2 = build_item(2, "Test Item 2".to_owned(), 'X', 1, 1);
    let item3 = build_item(3, "Test Item 3".to_owned(), 'X', 1, 1);
    let mut sel = build_list_selection(vec![&item, &item2, &item3], 4);
    sel.set_initial_selection(0);

    // Enter starts selecting, Down extends the selection.
    assert!(open_view_step(&mut sel, Key::Char('\n')));
    assert!(sel.is_selecting());
    assert!(open_view_step(&mut sel, Key::Down));
    assert_eq!(2, sel.get_selected_items().len());
    // Other keys change nothing.
    assert!(open_view_step(&mut sel, Key::Char('x')));
    assert_eq!(2, sel.get_selected_items().len());
    // Esc first cancels the selection and keeps the view open, then closes it.
    assert!(open_view_step(&mut sel, Key::Esc));
    assert!(!sel.is_selecting());
    assert_eq!(0, sel.get_selected_items().len());
    assert!(!open_view_step(&mut sel, Key::Esc));
}
