use arq::container::{build, ContainerType};
use arq::container_view::{ContainerFrameHandler, ContainerViewStep};
use arq::input::Key;
use arq::random::new_id;

fn chest_with_bag_and_coin() -> arq::container::Container {
    let mut chest = build(new_id(), "Chest".to_owned(), 'X', 1, 1, ContainerType::OBJECT, 100);
    let bag = build(new_id(), "Bag".to_owned(), 'X', 1, 1, ContainerType::OBJECT, 10);
    let coin = build(new_id(), "Coin".to_owned(), 'X', 1, 1, ContainerType::ITEM, 0);
    chest.add(bag);
    chest.add(coin);
    chest
}

#[test]
fn container_view_keys_move_open_and_close() {
    let chest = chest_with_bag_and_coin();
    let mut handler = ContainerFrameHandler::new();
    assert_eq!(ContainerViewStep::Open(0), handler.handle_key(Key::Char('o'), &chest));
    assert_eq!(ContainerViewStep::Stay, handler.handle_key(Key::Down, &chest));
    assert_eq!(1, handler.selected_index);
    assert_eq!(ContainerViewStep::Stay, handler.handle_key(Key::Char('o'), &chest));
    assert_eq!(ContainerViewStep::Stay, handler.handle_key(Key::Up, &chest));
    assert_eq!(0, handler.selected_index);
    assert_eq!(ContainerViewStep::Stay, handler.handle_key(Key::Up, &chest));
    assert_eq!(0, handler.selected_index);
    assert_eq!(ContainerViewStep::Close, handler.handle_key(Key::Char('q'), &chest));
}

#[test]
fn container_view_selection_stops_at_last_column() {
    let chest = chest_with_bag_and_coin();
    let mut handler = ContainerFrameHandler::new();
    for _ in 0..5 {
        handler.handle_key(Key::Down, &chest);
    }
    assert_eq!(2, handler.selected_index);
    assert_eq!(ContainerViewStep::Stay, handler.handle_key(Key::Char('x'), &chest));
    assert_eq!(2, handler.selected_index);
}
