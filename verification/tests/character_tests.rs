use arq::character::{build_default_character_details, build_player, Character};
use arq::characters::{build_empty_characters, Characters};
use arq::container::{build, ContainerType};
use arq::equipment::Equipment;
use arq::position::Position;
use arq::random::new_id;
use arq::tile::Colour;

#[test]
fn test_character_build() {
    let name = String::from("Test Person");
    let character_details = build_default_character_details();
    let health = 100;
    let colour = Colour::Green;
    let position = Position { x: 1, y: 1 };
    let inventory = build(new_id(), "Test Person's Inventory".to_owned(), 'X', 1, 1, ContainerType::OBJECT, 100);
    let equipment = Equipment::new();
    let mut character = Character { name, character_details, health, colour, position, inventory, equipment };

    assert_eq!("Test Person", character.get_name());
    assert_eq!(100, character.get_health());
    assert_eq!(Colour::Green, character.get_colour());
    assert_eq!(position, character.get_position());
    assert_eq!(0, character.get_inventory_mut().get_contents().len());
}

#[test]
fn test_build_player() {
    let name = String::from("Test Person");
    let position = Position { x: 1, y: 1 };
    let mut character = build_player(name, position);

    assert_eq!("Test Person", character.get_name());
    assert_eq!(100, character.get_health());
    assert_eq!(Colour::Green, character.get_colour());
    assert_eq!(position, character.get_position());
    assert_eq!(0, character.get_inventory_mut().get_contents().len());
    assert_eq!("Test Person's Inventory", character.get_inventory().get_self_item().get_name());
}

#[test]
fn characters_hold_and_hand_over_the_player() {
    let mut characters = build_empty_characters();
    assert!(characters.get_player().is_none());
    assert_eq!(0, characters.get_npcs().len());

    characters.set_player(build_player("Hero".to_owned(), Position { x: 2, y: 3 }));
    assert_eq!("Hero", characters.get_player().unwrap().get_name());

    characters.get_player_mut().unwrap().set_position(Position { x: 4, y: 4 });
    assert_eq!(Position { x: 4, y: 4 }, characters.get_player().unwrap().get_position());

    let npc = build_player("Goblin".to_owned(), Position { x: 0, y: 0 });
    characters.set_npcs(vec![npc]);
    characters.get_npcs_mut()[0].set_health(5);
    assert_eq!(5, characters.get_npcs()[0].get_health());

    let player = characters.remove_player();
    assert_eq!("Hero", player.get_name());
    assert!(characters.get_player().is_none());
    assert_eq!(1, characters.get_npcs().len());

    let rebuilt = Characters::new(Some(player), Vec::new());
    assert!(rebuilt.get_player().is_some());
}
