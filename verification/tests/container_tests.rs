use arq::container::{build, Container, ContainerType};
use arq::items::{build_container_item, build_item, ItemType};
use arq::random::new_id;
use arq::tile::Colour;

fn gold_bar(weight: i32, value: i32) -> arq::items::Item {
    build_item(new_id(), "Gold Bar".to_owned(), 'X', weight, value)
}

#[test]
fn test_container_build() {
    let id = new_id();
    let container = build(id, "Test Container".to_owned(), 'X', 1, 1, ContainerType::OBJECT, 100);

    assert_eq!(id, container.item.get_id());
    assert_eq!("Test Container", container.item.get_name());
    assert_eq!('X', container.item.symbol.character);
    assert_eq!(Colour::White, container.item.symbol.colour);
    assert_eq!(1, container.item.weight);
    assert_eq!(1, container.item.value);

    assert_eq!(ContainerType::OBJECT, container.container_type);
    assert_eq!(100, container.weight_limit);

    let contents = container.get_contents();
    assert_eq!(0, contents.len());
}

#[test]
fn container_test_container_build() {
    let container = build(0, "Test Container".to_owned(), 'X', 1, 1, ContainerType::OBJECT, 100);

    assert_eq!(0, container.item.get_id());
    assert_eq!("Test Container", container.item.get_name());
    assert_eq!('X', container.item.symbol.character);
    assert_eq!(1, container.item.weight);
    assert_eq!(1, container.item.value);

    assert_eq!(ContainerType::OBJECT, container.container_type);
    assert_eq!(100, container.weight_limit);

    let contents = container.get_contents();
    assert_eq!(0, contents.len());
}

#[test]
fn test_container_add_item() {
    // GIVEN we have a valid container
    let mut container = build(new_id(), "Test Container".to_owned(), 'X', 1, 1, ContainerType::OBJECT, 100);
    // AND it has no items in it's contents
    assert_eq!(0, container.get_contents().len());

    // WHEN we call to add a new item
    let item = build_item(new_id(), "Test Item".to_owned(), 'X', 1, 1);
    container.add_item(item);

    // THEN we expect it's contents size to increase
    assert_eq!(1, container.get_contents().len());
}

#[test]
fn container_test_container_add() {
    let mut container = build(0, "Test Container".to_owned(), 'X', 1, 1, ContainerType::OBJECT, 100);
    assert_eq!(0, container.get_contents().len());

    let item = build_item(1, "Test Item".to_owned(), 'X', 1, 1);
    container.add_item(item);

    assert_eq!(1, container.get_contents().len());
}

#[test]
fn test_container_add_item_weight_limit() {
    // GIVEN we have a valid container
    let mut container = build(new_id(), "Test Container".to_owned(), 'X', 1, 1, ContainerType::OBJECT, 100);
    assert_eq!(0, container.get_contents().len());

    // WHEN we try to add more items than the supported weight limit
    let item = build_item(new_id(), "Test Item".to_owned(), 'X', 100, 1);
    let item2 = build_item(new_id(), "Test Item".to_owned(), 'X', 1, 1);
    container.add_item(item);
    container.add_item(item2);

    // THEN we expect only the first item to be added
    assert_eq!(1, container.get_contents().len());
}

#[test]
fn test_container_add_item_container_item() {
    // GIVEN we have a valid container
    let mut container = build(new_id(), "Test Container".to_owned(), 'X', 1, 1, ContainerType::OBJECT, 100);
    assert_eq!(0, container.get_contents().len());

    // WHEN we call to add a new item that's of CONTAINER type
    let item = build_container_item(new_id(), "Test Item".to_owned(), 'X', 1, 1);
    container.add_item(item);

    // THEN we expect nothing to happen as it's an unsupported type
    assert_eq!(0, container.get_contents().len());
}

#[test]
fn test_container_add() {
    // GIVEN we have a valid container
    let mut container = build(new_id(), "Test Container".to_owned(), 'X', 0, 1, ContainerType::OBJECT, 40);
    assert_eq!(0, container.get_contents().len());

    // WHEN we call to add either an wrapped ITEM or OBJECT container
    let gold_bar = Container::wrap(gold_bar(10, 100));
    let bag_object = build(new_id(), "Bag".to_owned(), 'X', 0, 1, ContainerType::OBJECT, 30);
    container.add(gold_bar);
    container.add(bag_object);

    // THEN we expect it's contents size to increase
    assert_eq!(2, container.get_contents().len());
}

#[test]
fn test_container_add_weight_limit() {
    // GIVEN we have a valid container with a weight limit of 40
    let mut container = build(new_id(), "Test Container".to_owned(), 'X', 0, 1, ContainerType::OBJECT, 40);
    assert_eq!(0, container.get_contents().len());

    let gold_bar_1 = Container::wrap(gold_bar(10, 100));
    let mut bag_object = build(new_id(), "Bag".to_owned(), 'X', 0, 1, ContainerType::OBJECT, 30);
    let gold_bar_2 = Container::wrap(gold_bar(10, 100));
    let gold_bar_3 = Container::wrap(gold_bar(10, 100));
    let gold_bar_4 = Container::wrap(gold_bar(10, 100));
    let lockpick_1 = Container::wrap(build_item(new_id(), "Lockpick".to_owned(), 'X', 1, 5));
    let lockpick_2 = Container::wrap(build_item(new_id(), "Lockpick".to_owned(), 'X', 1, 5));
    bag_object.add(gold_bar_2);
    bag_object.add(gold_bar_3);
    bag_object.add(gold_bar_4);

    // WHEN we add more items than the container can support (total of 42 weight)
    container.add(gold_bar_1);
    container.add(bag_object);
    container.add(lockpick_1);
    container.add(lockpick_2);

    // THEN we expect only the first 2 objects to be added
    // Along with the bag contents
    assert_eq!(2, container.get_contents().len());
    assert_eq!(3, container.get_contents()[1].get_contents().len());
}

#[test]
fn test_container_add_area_item() {
    // GIVEN we have a valid container
    let mut container = build(new_id(), "Test Container".to_owned(), 'X', 1, 1, ContainerType::OBJECT, 100);
    assert_eq!(0, container.get_contents().len());

    // WHEN we try to add an AREA container (immovable)
    let floor = build(new_id(), "Floor".to_owned(), 'X', 1, 1, ContainerType::AREA, 100);
    container.add(floor);

    // THEN we expect nothing to happen as it's an unsupported type
    assert_eq!(0, container.get_contents().len());
}

#[test]
fn test_get_loot_value_empty() {
    let container = build(new_id(), "Test Container".to_owned(), 'X', 1, 1, ContainerType::OBJECT, 100);
    assert_eq!(0, container.get_contents().len());
    let total_value = container.get_loot_value();
    assert_eq!(0, total_value);
}

#[test]
fn container_test_get_loot_value_empty() {
    let container = build(0, "Test Container".to_owned(), 'X', 1, 1, ContainerType::OBJECT, 100);
    assert_eq!(0, container.get_contents().len());
    assert_eq!(0, container.get_loot_value());
}

#[test]
fn test_get_loot_value() {
    // GIVEN we have a valid container
    let mut container = build(new_id(), "Test Container".to_owned(), 'X', 1, 1, ContainerType::OBJECT, 100);
    assert_eq!(0, container.get_contents().len());

    // AND we've added 2 items with different values
    container.add_item(gold_bar(1, 100));
    let silver_bar = build_item(new_id(), "Silver Bar".to_owned(), 'X', 1, 50);
    container.add_item(silver_bar);
    assert_eq!(2, container.get_contents().len());

    // WHEN we call to get their total value
    let total_value = container.get_loot_value();
    // THEN we expect the total of all the item values to be returned
    assert_eq!(150, total_value);
}

#[test]
fn container_test_get_loot_value() {
    let mut container = build(0, "Test Container".to_owned(), 'X', 1, 1, ContainerType::OBJECT, 100);
    assert_eq!(0, container.get_contents().len());
    let gold_bar = build_item(1, "Gold Bar".to_owned(), 'X', 1, 100);
    container.add_item(gold_bar);
    let silver_bar = build_item(1, "Silver Bar".to_owned(), 'X', 1, 50);
    container.add_item(silver_bar);
    assert_eq!(2, container.get_contents().len());
    assert_eq!(150, container.get_loot_value());
}

fn container_with_bag() -> Container {
    let mut container = build(new_id(), "Test Container".to_owned(), 'X', 1, 1, ContainerType::OBJECT, 100);
    container.add_item(gold_bar(1, 100));
    container.add_item(build_item(new_id(), "Silver Bar".to_owned(), 'X', 1, 50));
    let mut bag = build(new_id(), "Bag".to_owned(), 'X', 1, 1, ContainerType::OBJECT, 20);
    let coin1 = build_item(new_id(), "Gold Coin 1".to_owned(), 'X', 1, 10);
    let coin2 = build_item(new_id(), "Gold Coin 2".to_owned(), 'X', 1, 10);
    let coin3 = build_item(new_id(), "Gold Coin 3".to_owned(), 'X', 1, 10);
    bag.add_items(vec![coin1, coin2, coin3]);
    assert_eq!(3, bag.get_contents().len());
    container.add(bag);
    assert_eq!(3, container.get_contents().len());
    container
}

#[test]
fn test_get_content_count() {
    let mut container = build(new_id(), "Test Container".to_owned(), 'X', 1, 1, ContainerType::OBJECT, 100);
    assert_eq!(0, container.get_contents().len());
    container.add_item(gold_bar(1, 100));
    container.add_item(build_item(new_id(), "Silver Bar".to_owned(), 'X', 1, 50));
    assert_eq!(2, container.get_contents().len());
    let count = container.get_top_level_count();
    assert_eq!(2, count);
}

#[test]
fn test_get_content_count_nested() {
    let container = container_with_bag();
    // THEN we expect only the total of the top-level contents to return
    assert_eq!(3, container.get_top_level_count());
}

#[test]
fn test_get_content_count_empty() {
    let container = build(new_id(), "Test Container".to_owned(), 'X', 1, 1, ContainerType::OBJECT, 100);
    assert_eq!(0, container.get_contents().len());
    assert_eq!(0, container.get_top_level_count());
}

#[test]
fn test_get_item_count() {
    let mut container = build(new_id(), "Test Container".to_owned(), 'X', 1, 1, ContainerType::OBJECT, 100);
    assert_eq!(0, container.get_contents().len());
    container.add_item(gold_bar(1, 100));
    container.add_item(build_item(new_id(), "Silver Bar".to_owned(), 'X', 1, 50));
    assert_eq!(2, container.get_contents().len());
    assert_eq!(2, container.get_total_count());
}

#[test]
fn test_get_item_count_nested() {
    let container = container_with_bag();
    // THEN we expect the total count of all items to return
    assert_eq!(6, container.get_total_count());
}

#[test]
fn test_get_item_count_empty() {
    let container = build(new_id(), "Test Container".to_owned(), 'X', 1, 1, ContainerType::OBJECT, 100);
    assert_eq!(0, container.get_contents().len());
    assert_eq!(0, container.get_total_count());
}

#[test]
fn find_searches_top_level_then_within() {
    let container = container_with_bag();
    let bag_item = container.get_contents()[2].get_self_item().clone();
    let coin = container.get_contents()[2].get_contents()[1].get_self_item().clone();
    assert_eq!(bag_item.get_id(), container.find(&bag_item).unwrap().get_self_item().get_id());
    assert_eq!(coin.get_id(), container.find(&coin).unwrap().get_self_item().get_id());
    let stranger = build_item(new_id(), "Stranger".to_owned(), 'X', 1, 1);
    assert!(container.find(&stranger).is_none());
}

#[test]
fn find_mut_changes_the_stored_container() {
    let mut container = container_with_bag();
    let coin = container.get_contents()[2].get_contents()[1].get_self_item().clone();
    container.find_mut(&coin).unwrap().get_self_item_mut().set_name("Renamed".to_owned());
    assert_eq!("Renamed", container.get_contents()[2].get_contents()[1].get_self_item().get_name());
    let stranger = build_item(new_id(), "Stranger".to_owned(), 'X', 1, 1);
    assert!(container.find_mut(&stranger).is_none());
}

#[test]
fn loot_counts_nested_values_and_weight_sums() {
    let container = container_with_bag();
    // 100 + 50 + the bag's own 1; the coins inside the bag hold nothing themselves, so they
    // add nothing.
    assert_eq!(151, container.get_loot_value());
    // own 1 + bars 2 + bag 1 + coins 3
    assert_eq!(7, container.get_weight_total());
    assert_eq!(6, container.get_contents_weight_total());
}

#[test]
fn add_items_stops_at_weight_limit() {
    let mut bag = build(new_id(), "Bag".to_owned(), 'X', 0, 1, ContainerType::OBJECT, 5);
    let heavy = build_item(new_id(), "Anvil".to_owned(), 'X', 4, 1);
    let light = build_item(new_id(), "Feather".to_owned(), 'X', 1, 1);
    let other = build_item(new_id(), "Stone".to_owned(), 'X', 1, 1);
    let boxed = build_container_item(new_id(), "Box".to_owned(), 'X', 0, 1);
    bag.add_items(vec![heavy, boxed, light, other]);
    // The anvil and the feather fit (4 + 1); the box is a container item; the stone no longer fits.
    assert_eq!(2, bag.get_contents().len());
    assert_eq!("Anvil", bag.get_contents()[0].get_self_item().get_name());
    assert_eq!("Feather", bag.get_contents()[1].get_self_item().get_name());
    assert_eq!(ContainerType::ITEM, bag.get_contents()[1].container_type);
}

#[test]
fn remove_and_position_by_identifier() {
    let mut container = container_with_bag();
    let bag = container.get_contents()[2].clone();
    assert_eq!(Some(2), container.position(&bag));
    assert!(container.remove_item(&bag));
    assert_eq!(2, container.get_contents().len());
    assert_eq!(None, container.position(&bag));
    assert!(!container.remove_item(&bag));
}

#[test]
fn insert_and_replace_keep_order() {
    let mut container = build(new_id(), "Box".to_owned(), 'X', 0, 1, ContainerType::OBJECT, 100);
    let a = Container::wrap(build_item(1, "A".to_owned(), 'X', 1, 1));
    let b = Container::wrap(build_item(2, "B".to_owned(), 'X', 1, 1));
    let c = Container::wrap(build_item(3, "C".to_owned(), 'X', 1, 1));
    container.push(vec![a, c]);
    container.insert(1, vec![b]);
    let names: Vec<String> = container.to_cloned_item_list().iter().map(|i| i.get_name()).collect();
    assert_eq!(vec!["A", "B", "C"], names);
    let d = Container::wrap(build_item(2, "D".to_owned(), 'X', 1, 1));
    container.replace_container(d);
    assert_eq!("D", container.get(1).get_self_item().get_name());
    let refs = vec![container.get(0).clone()];
    container.remove_items(refs.iter().collect());
    assert_eq!(2, container.get_contents().len());
    assert_eq!("D", container.get(0).get_self_item().get_name());
}

#[test]
fn subcontainer_copies_list_inner_bags_first() {
    let mut outer = build(new_id(), "Outer".to_owned(), 'X', 0, 1, ContainerType::OBJECT, 100);
    let mut bag = build(new_id(), "Bag".to_owned(), 'X', 0, 1, ContainerType::OBJECT, 50);
    let pouch = build(new_id(), "Pouch".to_owned(), 'X', 0, 1, ContainerType::OBJECT, 10);
    bag.add(pouch);
    outer.add_item(build_item(new_id(), "Coin".to_owned(), 'X', 1, 1));
    outer.add(bag);
    let copies = outer.find_and_clone_subcontainers();
    let names: Vec<String> = copies.iter().map(|c| c.get_self_item().get_name()).collect();
    assert_eq!(vec!["Pouch", "Bag"], names);
}

#[test]
fn add_then_remove_restores_contents() {
    let mut chest = build(new_id(), "Chest".to_owned(), 'X', 1, 1, ContainerType::OBJECT, 100);
    let bar = build(new_id(), "Bar".to_owned(), 'X', 1, 1, ContainerType::ITEM, 0);
    chest.add(bar);
    let before: Vec<u128> = chest.get_contents().iter().map(|c| c.item.get_id()).collect();
    let coin = build(new_id(), "Coin".to_owned(), 'X', 1, 1, ContainerType::ITEM, 0);
    chest.add(coin.clone());
    assert_eq!(2, chest.get_contents().len());
    assert!(chest.remove_item(&coin));
    let after: Vec<u128> = chest.get_contents().iter().map(|c| c.item.get_id()).collect();
    assert_eq!(before, after);
}

#[test]
fn topmost_subcontainers_are_the_movable_ones() {
    let mut floor = build(new_id(), "Floor".to_owned(), 'X', 1, 1, ContainerType::AREA, 100);
    let bag = build(new_id(), "Bag".to_owned(), 'X', 1, 1, ContainerType::OBJECT, 100);
    let chest = build(new_id(), "Chest".to_owned(), 'X', 1, 1, ContainerType::AREA, 100);
    let sack = build(new_id(), "Sack".to_owned(), 'X', 1, 1, ContainerType::OBJECT, 100);
    floor.contents = vec![bag, chest, sack];
    assert_eq!(vec![0usize, 2], floor.find_topmost_subcontainers());
}
