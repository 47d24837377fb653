use arq::character::{build_player, Attribute, AttributeScore, Class};
use arq::character_creation::{apply_creation_inputs, creation_input_step, CharacterViewFrameHandler};
use arq::command::ViewMode;
use arq::input::Key;
use arq::position::Position;

#[test]
fn apply_creation_inputs_sets_name_class_and_scores() {
    let player = build_player(String::from("Player"), Position { x: 0, y: 0 });
    let before = player.get_attribute_scores();
    let updated = apply_creation_inputs(
        player,
        Some(String::from("Bob")),
        Some(String::from("Warrior")),
        vec![(Attribute::Strength, 5), (Attribute::Agility, 300), (Attribute::Strength, 9)],
    );
    assert_eq!("Bob", updated.get_name());
    assert_eq!(Class::Warrior, updated.get_class());
    let scores = updated.get_attribute_scores();
    assert_eq!(before.len(), scores.len());
    for (old, new) in before.iter().zip(scores.iter()) {
        assert_eq!(old.attribute, new.attribute);
        let expected = match new.attribute {
            Attribute::Strength => 5,
            Attribute::Agility => 44,
            _ => old.score,
        };
        assert_eq!(expected, new.score);
    }
}

#[test]
fn apply_creation_inputs_ignores_an_unknown_class() {
    let player = build_player(String::from("Player"), Position { x: 0, y: 0 });
    let class = player.get_class();
    let updated = apply_creation_inputs(player, None, Some(String::from("Wizard")), Vec::new());
    assert_eq!("Player", updated.get_name());
    assert_eq!(class, updated.get_class());
}

#[test]
fn creation_step_moves_points_between_free_and_selected_score() {
    let player = build_player(String::from("Player"), Position { x: 0, y: 0 });
    let mut details = player.get_details();
    details.max_free_attribute_points = 2;
    details.free_attribute_points = 2;
    let mut scores = vec![AttributeScore { attribute: Attribute::Strength, score: 1 }];
    assert!(!creation_input_step(&mut details, &mut scores, Some(0), Key::Right));
    assert!(!creation_input_step(&mut details, &mut scores, Some(0), Key::Right));
    assert!(!creation_input_step(&mut details, &mut scores, Some(0), Key::Right));
    assert_eq!(3, scores[0].score);
    assert_eq!(0, details.free_attribute_points);
    assert!(!creation_input_step(&mut details, &mut scores, Some(0), Key::Left));
    assert_eq!(2, scores[0].score);
    assert_eq!(1, details.free_attribute_points);
    assert!(!creation_input_step(&mut details, &mut scores, None, Key::Left));
    assert_eq!(1, details.free_attribute_points);
    assert!(creation_input_step(&mut details, &mut scores, Some(0), Key::Char('q')));
}

#[test]
fn widget_focus_moves_within_the_list() {
    let mut handler = CharacterViewFrameHandler { selected_widget: Some(0), widget_count: 3, view_mode: ViewMode::CREATION };
    handler.previous_widget();
    assert_eq!(Some(0), handler.selected_widget);
    handler.next_widget();
    handler.next_widget();
    assert_eq!(Some(2), handler.selected_widget);
    handler.next_widget();
    assert_eq!(Some(2), handler.selected_widget);
    handler.previous_widget();
    assert_eq!(Some(1), handler.selected_widget);
}
