use arq::weapon::BladedWeaponType;
use arq::items::{build_container_item, build_item, ItemType};
use arq::random::new_id;
use arq::tile::Colour;

#[test]
fn test_build_item() {
    let id = new_id();
    let item = build_item(id, "Test Item".to_owned(), 'X', 1, 1);
    assert_eq!(id, item.get_id());
    assert_eq!(ItemType::ITEM, item.item_type);
    assert_eq!("Test Item", item.name);
    assert_eq!('X', item.symbol.character);
    assert_eq!(Colour::White, item.symbol.colour);
    assert_eq!(1, item.weight);
    assert_eq!(1, item.value);
}

#[test]
fn test_build_container() {
    let id = new_id();
    let item = build_container_item(id, "Test Container".to_owned(), 'X', 1, 1);

    assert_eq!(id, item.get_id());
    assert_eq!(ItemType::CONTAINER, item.item_type);
    assert_eq!("Test Container", item.name);
    assert_eq!('X', item.symbol.character);
    assert_eq!(Colour::White, item.symbol.colour);
    assert_eq!(1, item.weight);
    assert_eq!(1, item.value);
}

#[test]
fn items_test_build_item() {
    let item = build_item(0, "Test Item".to_owned(), 'X', 1, 1);

    assert_eq!(0, item.get_id());
    assert_eq!(ItemType::ITEM, item.item_type);
    assert_eq!("Test Item", item.name);
    assert_eq!('X', item.symbol.character);
    assert_eq!(1, item.weight);
    assert_eq!(1, item.value);
}

#[test]
fn items_test_build_container() {
    let item = build_container_item(0, "Test Container".to_owned(), 'X', 1, 1);

    assert_eq!(0, item.get_id());
    assert_eq!(ItemType::CONTAINER, item.item_type);
    assert_eq!("Test Container", item.name);
    assert_eq!('X', item.symbol.character);
    assert_eq!(1, item.weight);
    assert_eq!(1, item.value);
}

#[test]
fn new_ids_are_version_four() {
    let id = new_id();
    assert_eq!(4, (id >> 76) & 0xf);
}

#[test]
fn bladed_weapon_names() {
    assert_eq!("Dagger", BladedWeaponType::DAGGER.name());
    assert_eq!("Arming Sword", BladedWeaponType::ARMING.name());
    assert_eq!("Longsword", BladedWeaponType::LONG.name());
}
