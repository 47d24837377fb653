use arq::container::{build, Container, ContainerType};
use arq::container_view::{build_column_text, build_padding, Column, ContainerFrameHandler};
use arq::door::{build_door, DoorLike};
use arq::equipment::Equipment;
use arq::errors::{error_result, ErrorType, ErrorWrapper};
use arq::input::{key_to_action, key_to_input, key_to_side, Action, Input, Key, MockKeyInputResolver};
use arq::items::{build_item, EquipmentSlot};
use arq::menu::{start_menu_action, start_menu_choice, start_menu_selection, Menu, Selection, StartMenuAction, StartMenuChoice};
use arq::position::{Position, Side};
use arq::progress::{MultiStepProgress, Step};
use arq::random::new_id;
use arq::settings::{build_settings, get_resolution_dropdown_options, Toggleable};

#[test]
fn doors_open_close_lock_and_unlock() {
    let mut door = build_door(Position { x: 3, y: 4 });
    door.open();
    assert!(door.open);
    // An open door cannot be locked.
    door.lock();
    assert!(!door.locked);
    door.close();
    assert!(!door.open);
    door.lock();
    assert!(door.locked);
    // A locked door stays shut.
    door.open();
    assert!(!door.open);
    // Unlocking needs a lock that is not yet undone.
    door.unlock();
    assert!(door.locked);
    door.locks = 1;
    door.unlock();
    assert!(!door.locked);
}

#[test]
fn progress_steps_through_and_reports_percentage() {
    let steps = vec![
        Step { id: "a".to_owned(), description: "First".to_owned() },
        Step { id: "b".to_owned(), description: "Second".to_owned() },
        Step { id: "c".to_owned(), description: "Third".to_owned() },
    ];
    let mut progress = MultiStepProgress::for_steps_not_started(steps);
    assert!(progress.get_current_step_value().is_none());
    assert_eq!(0, progress.get_progress_percentage());
    progress.next_step();
    assert_eq!(Some(1), progress.get_current_step_number());
    assert_eq!("First", progress.get_current_step_value().unwrap().description);
    assert_eq!(33, progress.get_progress_percentage());
    progress.next_step();
    progress.next_step();
    assert!(progress.is_done());
    assert_eq!(99, progress.get_progress_percentage());
    // Stepping past the last step stays on it.
    progress.next_step();
    assert_eq!(Some(3), progress.get_current_step_number());
}

#[test]
fn empty_progress_never_starts() {
    let mut progress = MultiStepProgress::for_steps_not_started(Vec::new());
    for _ in 0..3 {
        progress.next_step();
        assert!(progress.get_current_step_value().is_none());
        assert!(progress.get_current_step_number().is_none());
        assert!(!progress.is_done());
        assert_eq!(0, progress.get_progress_percentage());
    }
}

#[test]
fn four_steps_reach_a_full_percentage() {
    let steps: Vec<Step> = (0..4).map(|i| Step { id: format!("{}", i), description: format!("Step {}", i) }).collect();
    let mut progress = MultiStepProgress::for_steps_not_started(steps);
    for k in 1..=4usize {
        progress.next_step();
        assert_eq!(Some(k), progress.get_current_step_number());
        assert_eq!(k == 4, progress.is_done());
        assert_eq!(25 * k, progress.get_progress_percentage());
    }
}

#[test]
fn settings_defaults() {
    let mut settings = build_settings();
    assert!(!settings.is_fog_of_war());
    assert_eq!(0, settings.get_bg_music_volume());
    let seed = settings.get_rng_seed().unwrap();
    assert_eq!(12, seed.len());
    assert!(seed.chars().all(|c| c.is_ascii_alphanumeric()));
    assert_eq!(Some(false), settings.find_bool_setting_value("Fog of War".to_owned()));
    assert_eq!(None, settings.find_bool_setting_value("Unknown".to_owned()));
    assert_eq!(80, settings.find_dropdown_setting_value("Resolution".to_owned()).unwrap().value.width);
    settings.bool_settings[0].toggle();
    assert!(settings.is_fog_of_war());
    let options = get_resolution_dropdown_options();
    assert_eq!("80x24", options[0].display_name);
}

#[test]
fn keys_map_to_sides_inputs_and_actions() {
    assert_eq!(Some(Side::TOP), key_to_side(Key::Char('w')));
    assert_eq!(Some(Side::RIGHT), key_to_side(Key::Right));
    assert_eq!(None, key_to_side(Key::Char('x')));
    assert_eq!(Some(Input::DOWN(Side::BOTTOM)), key_to_input(Key::Char('s')));
    assert_eq!(Some(Action::ShowInventory), key_to_action(Key::Char('i')));
    assert_eq!(Some(Action::Escape), key_to_action(Key::Esc));
    let resolver = MockKeyInputResolver { key_results: vec![Key::Char('k')] };
    assert_eq!(Key::Char('k'), resolver.get_input_key());
    assert_eq!(Key::Up, resolver.get_or_return_input_key(Some(Key::Up)));
    assert_eq!(Key::Char('k'), resolver.get_or_return_input_key(None));
}

#[test]
fn menu_moves_and_selects() {
    let mut menu = Menu {
        menu_titles: vec!["Play".to_owned(), "Settings".to_owned(), "Quit".to_owned()],
        highlight_text: None,
        selection: 0,
        selected: false,
        exit: false,
    };
    menu.select_up();
    assert_eq!(0, menu.selection);
    assert!(menu.handle_key(Key::Down));
    assert_eq!(1, menu.selection);
    assert!(!menu.handle_key(Key::Char('x')));
    assert!(menu.handle_key(Key::Char('\n')));
    assert!(menu.selected);
    assert!(menu.handle_key(Key::Char('q')));
    assert!(menu.exit);
}

#[test]
fn column_texts_and_padding() {
    let item = build_item(1, "Sword".to_owned(), 'X', 3, 50);
    let handler = ContainerFrameHandler::new();
    assert_eq!("Sword", build_column_text(&handler.columns[0], &item));
    assert_eq!("3", build_column_text(&handler.columns[1], &item));
    assert_eq!("50", build_column_text(&handler.columns[2], &item));
    let other = Column { name: "OTHER".to_owned(), size: 4 };
    assert_eq!("", build_column_text(&other, &item));
    assert_eq!("   ", build_padding(4));
    assert_eq!("", build_padding(0));
    let mut handler = handler;
    handler.increment_selection();
    handler.increment_selection();
    handler.increment_selection();
    assert_eq!(2, handler.selected_index);
    handler.decrement_selection();
    assert_eq!(1, handler.selected_index);
}

#[test]
fn equip_and_unequip() {
    let mut equipment = Equipment::new();
    let sword = build(new_id(), "Sword".to_owned(), 'X', 1, 1, ContainerType::OBJECT, 0);
    assert!(equipment.equip(sword, EquipmentSlot::PRIMARY).is_ok());
    assert!(equipment.is_equipped(EquipmentSlot::PRIMARY));
    let another = build(new_id(), "Axe".to_owned(), 'X', 1, 1, ContainerType::OBJECT, 0);
    let err = equipment.equip(another, EquipmentSlot::PRIMARY).unwrap_err();
    assert_eq!(ErrorType::INTERNAL, err.error_type);
    assert_eq!(Some("Cannot equip. Equipment slot: PRIMARY is already taken.".to_owned()), err.get_message());
    let wrapped_item = Container::wrap(build_item(new_id(), "Coin".to_owned(), 'X', 1, 1));
    let err = equipment.equip(wrapped_item, EquipmentSlot::HEAD).unwrap_err();
    assert_eq!(Some("Unsupported container_type: ITEM".to_owned()), err.get_message());
    let unequipped = equipment.unequip(EquipmentSlot::PRIMARY).unwrap();
    assert_eq!("Sword", unequipped.get_self_item().get_name());
    assert_eq!(ContainerType::ITEM, unequipped.container_type);
    let err = equipment.unequip(EquipmentSlot::PRIMARY).unwrap_err();
    assert_eq!(Some("Cannot unequip. Equipment slot: PRIMARY is empty.".to_owned()), err.get_message());
}

#[test]
fn error_wrappers_carry_messages() {
    let e = ErrorWrapper::new_internal("Oops".to_owned());
    assert_eq!(Some("Oops".to_owned()), e.get_message());
    let r: Result<u8, ErrorWrapper> = error_result("Failed".to_owned());
    assert_eq!(Some("Failed".to_owned()), r.unwrap_err().get_message());
    let io = ErrorWrapper::from_io_error(std::io::Error::new(std::io::ErrorKind::Other, "disk"));
    assert_eq!(ErrorType::IO, io.error_type);
    assert!(io.get_message().is_none());
    let r = arq::io_error_utils::error_result::<u8>("bad".to_owned());
    assert_eq!("bad", r.unwrap_err().to_string());
}

#[test]
fn start_menu_choices_and_actions() {
    assert_eq!(Some(StartMenuChoice::Play), start_menu_choice(0));
    assert_eq!(Some(StartMenuChoice::Quit), start_menu_choice(3));
    assert_eq!(None, start_menu_choice(4));
    let mut menu = Menu { menu_titles: vec!["Play".to_owned(), "Settings".to_owned(), "Info".to_owned(), "Quit".to_owned()],
        highlight_text: None, selection: 0, selected: false, exit: false };
    assert_eq!(None, start_menu_selection(&menu));
    menu.handle_key(Key::Down);
    menu.handle_key(Key::Char('\n'));
    assert_eq!(Some(StartMenuChoice::Settings), start_menu_selection(&menu));
    menu.handle_key(Key::Char('q'));
    assert_eq!(Some(StartMenuChoice::Quit), start_menu_selection(&menu));
    assert_eq!((StartMenuAction::StartGame, false), start_menu_action(StartMenuChoice::Play, false));
    assert_eq!((StartMenuAction::Resume, true), start_menu_action(StartMenuChoice::Play, true));
    assert_eq!((StartMenuAction::ShowSettings, true), start_menu_action(StartMenuChoice::Settings, true));
    assert_eq!((StartMenuAction::Exit, false), start_menu_action(StartMenuChoice::Quit, true));
}
