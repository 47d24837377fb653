use vstd::prelude::*;

use crate::container::{build, total_count, Container, ContainerType};
use crate::position::Position;
use crate::random::new_id;
use crate::text::join3;
use crate::tile::Colour;
use crate::equipment::Equipment;

verus! {

/// The kinds of character that patterns exist for.
#[derive(Copy, Clone, PartialEq, Eq, Structural, Debug)]
pub enum CharacterType {
    /// The default human player, before any specialisation.
    NewPlayer,
    GoblinWarrior,
}

#[derive(Copy, Clone, PartialEq, Eq, Structural, Debug)]
pub enum Race {
    Human,
    Goblin,
}

#[derive(Copy, Clone, PartialEq, Eq, Structural, Debug)]
pub enum Class {
    NoClass,
    Warrior,
}

#[derive(Copy, Clone, PartialEq, Eq, Structural, Debug)]
pub enum Attribute {
    Strength,
    Health,
    Agility,
    Intelligence,
    Stealth,
}

#[derive(Copy, Clone, PartialEq, Eq, Structural, Debug)]
pub struct AttributeScore {
    pub attribute: Attribute,
    pub score: i8,
}

/// Every attribute, in declaration order.
pub open spec fn all_attributes() -> Seq<Attribute> {
    seq![Attribute::Strength, Attribute::Health, Attribute::Agility, Attribute::Intelligence, Attribute::Stealth]
}

pub fn get_all_attributes() -> (r: Vec<Attribute>)
    ensures
        r@ == all_attributes(),
{
    let r = vec![Attribute::Strength, Attribute::Health, Attribute::Agility, Attribute::Intelligence, Attribute::Stealth];
    assert(r@ =~= all_attributes());
    r
}

/// A score of `value` for every attribute, in declaration order.
pub open spec fn scores_at(value: i8) -> Seq<AttributeScore> {
    all_attributes().map_values(|a: Attribute| AttributeScore { attribute: a, score: value })
}

/// A score of `value` for every attribute, in declaration order.
pub fn all_attributes_at_value(value: i8) -> (scores: Vec<AttributeScore>)
    ensures
        scores@ == scores_at(value),
{
    let mut scores: Vec<AttributeScore> = Vec::new();
    let attributes = get_all_attributes();
    let mut i: usize = 0;
    while i < attributes.len()
        invariant
            i <= attributes@.len(),
            attributes@ == all_attributes(),
            scores@ == all_attributes().subrange(0, i as int).map_values(|a: Attribute| AttributeScore { attribute: a, score: value }),
        decreases attributes@.len() - i,
    {
        scores.push(AttributeScore { attribute: attributes[i], score: value });
        i += 1;
        assert(scores@ =~= all_attributes().subrange(0, i as int).map_values(|a: Attribute| AttributeScore { attribute: a, score: value }));
    }
    assert(all_attributes().subrange(0, 5) =~= all_attributes());
    scores
}

/// A score of 0 for every attribute.
pub fn build_default_attributes() -> (scores: Vec<AttributeScore>)
    ensures
        scores@ == scores_at(0),
{
    all_attributes_at_value(0)
}

/// The class named `name`, if there is one.
pub fn determine_class(name: String) -> (r: Option<Class>)
    ensures
        r == if name@ == "None"@ {
            Some(Class::NoClass)
        } else if name@ == "Warrior"@ {
            Some(Class::Warrior)
        } else {
            None::<Class>
        },
{
    let none_name = "None".to_string();
    let warrior_name = "Warrior".to_string();
    if name == none_name {
        Some(Class::NoClass)
    } else if name == warrior_name {
        Some(Class::Warrior)
    } else {
        None
    }
}

/// A character's race, class, level, free attribute points and attribute scores.
#[derive(Debug)]
pub struct CharacterDetails {
    pub race: Race,
    pub class: Class,
    pub level: i32,
    pub max_free_attribute_points: i8,
    pub free_attribute_points: i8,
    pub attributes: Vec<AttributeScore>,
}

impl CharacterDetails {
    pub fn new(race: Race, class: Class, level: i32, max_free_attribute_points: i8, free_attribute_points: i8, attributes: Vec<AttributeScore>) -> (d: Self)
        ensures
            d.race == race,
            d.class == class,
            d.level == level,
            d.max_free_attribute_points == max_free_attribute_points,
            d.free_attribute_points == free_attribute_points,
            d.attributes@ == attributes@,
    {
        Self { race, class, level, max_free_attribute_points, free_attribute_points, attributes }
    }

    pub fn get_race(&self) -> (r: &Race)
        ensures
            *r == self.race,
    {
        &self.race
    }

    pub fn set_race(&mut self, race: Race)
        ensures
            final(self).race == race,
            final(self).class == old(self).class,
            final(self).level == old(self).level,
            final(self).max_free_attribute_points == old(self).max_free_attribute_points,
            final(self).free_attribute_points == old(self).free_attribute_points,
            final(self).attributes@ == old(self).attributes@,
    {
        self.race = race;
    }

    pub fn get_class(&self) -> (r: Class)
        ensures
            r == self.class,
    {
        self.class
    }

    pub fn set_class(&mut self, class: Class)
        ensures
            final(self).class == class,
            final(self).race == old(self).race,
            final(self).level == old(self).level,
            final(self).max_free_attribute_points == old(self).max_free_attribute_points,
            final(self).free_attribute_points == old(self).free_attribute_points,
            final(self).attributes@ == old(self).attributes@,
    {
        self.class = class;
    }

    pub fn get_level(&self) -> (r: i32)
        ensures
            r == self.level,
    {
        self.level
    }

    pub fn set_level(&mut self, level: i32)
        ensures
            final(self).level == level,
            final(self).race == old(self).race,
            final(self).class == old(self).class,
            final(self).max_free_attribute_points == old(self).max_free_attribute_points,
            final(self).free_attribute_points == old(self).free_attribute_points,
            final(self).attributes@ == old(self).attributes@,
    {
        self.level = level;
    }

    pub fn get_max_free_attribute_points(&self) -> (r: i8)
        ensures
            r == self.max_free_attribute_points,
    {
        self.max_free_attribute_points
    }

    pub fn set_max_free_attribute_points(&mut self, max_free_attribute_points: i8)
        ensures
            final(self).max_free_attribute_points == max_free_attribute_points,
            final(self).race == old(self).race,
            final(self).class == old(self).class,
            final(self).level == old(self).level,
            final(self).free_attribute_points == old(self).free_attribute_points,
            final(self).attributes@ == old(self).attributes@,
    {
        self.max_free_attribute_points = max_free_attribute_points;
    }

    pub fn get_free_attribute_points(&self) -> (r: i8)
        ensures
            r == self.free_attribute_points,
    {
        self.free_attribute_points
    }

    pub fn set_free_attribute_points(&mut self, free_attribute_points: i8)
        ensures
            final(self).free_attribute_points == free_attribute_points,
            final(self).race == old(self).race,
            final(self).class == old(self).class,
            final(self).level == old(self).level,
            final(self).max_free_attribute_points == old(self).max_free_attribute_points,
            final(self).attributes@ == old(self).attributes@,
    {
        self.free_attribute_points = free_attribute_points;
    }

    pub fn get_attributes(&self) -> (r: Vec<AttributeScore>)
        ensures
            r@ == self.attributes@,
    {
        self.attributes.clone()
    }

    pub fn set_attributes(&mut self, attributes: Vec<AttributeScore>)
        ensures
            final(self).attributes@ == attributes@,
            final(self).race == old(self).race,
            final(self).class == old(self).class,
            final(self).level == old(self).level,
            final(self).max_free_attribute_points == old(self).max_free_attribute_points,
            final(self).free_attribute_points == old(self).free_attribute_points,
    {
        self.attributes = attributes;
    }
}

/// A human of no class at level 0, with 6 of 6 free attribute points and every score at 0.
pub fn build_default_character_details() -> (d: CharacterDetails)
    ensures
        d.race == Race::Human,
        d.class == Class::NoClass,
        d.level == 0,
        d.max_free_attribute_points == 6,
        d.free_attribute_points == 6,
        d.attributes@ == scores_at(0),
{
    let attributes = build_default_attributes();
    CharacterDetails { race: Race::Human, class: Class::NoClass, level: 0, max_free_attribute_points: 6, free_attribute_points: 6, attributes }
}


/// A player or non-player character.
#[derive(Debug)]
pub struct Character {
    pub name: String,
    pub character_details: CharacterDetails,
    pub health: i8,
    pub colour: Colour,
    pub position: Position,
    pub inventory: Container,
    pub equipment: Equipment,
}

/// A player named `name` at `position`, drawn in green, whose inventory is an empty OBJECT
/// container named "<name>'s Inventory" with a weight limit of 100.
pub fn build_player(name: String, position: Position) -> (c: Character)
    ensures
        c.name@ == name@,
        c.position == position,
        c.colour == Colour::Green,
        c.health == 100,
        c.inventory.item.name@ == name@ + "'s Inventory"@,
        c.inventory.container_type == ContainerType::OBJECT,
        c.inventory.weight_limit == 100,
        c.inventory.contents@.len() == 0,
        c.equipment.wf(),
        c.equipment.count() == 0,
        c.character_details.attributes@ == scores_at(0),
{
    let inventory_name = join3(name.as_str(), "'s Inventory", "");
    proof {
        reveal_strlit("");
        assert(inventory_name@ =~= name@ + "'s Inventory"@);
    }
    let inventory = build(new_id(), inventory_name, 'X', 1, 1, ContainerType::OBJECT, 100);
    build_character(name, position, Colour::Green, inventory)
}

/// A character with 100 health, the default details and no equipment.
pub fn build_character(name: String, position: Position, colour: Colour, inventory: Container) -> (c: Character)
    ensures
        c.name@ == name@,
        c.position == position,
        c.colour == colour,
        c.health == 100,
        c.inventory == inventory,
        c.equipment.wf(),
        c.equipment.count() == 0,
        c.character_details.race == Race::Human,
        c.character_details.class == Class::NoClass,
        c.character_details.level == 0,
        c.character_details.max_free_attribute_points == 6,
        c.character_details.free_attribute_points == 6,
        c.character_details.attributes@ == scores_at(0),
{
    let character_details = build_default_character_details();
    let equipment = Equipment::new();
    Character { name, character_details, health: 100, colour, position, inventory, equipment }
}

impl Character {
    pub fn get_name(&self) -> (r: String)
        ensures
            r@ == self.name@,
    {
        self.name.clone()
    }

    pub fn set_name(&mut self, name: String)
        ensures
            *final(self) == (Character { name, ..*old(self) }),
    {
        self.name = name;
    }

    pub fn get_details(&self) -> (r: CharacterDetails)
        ensures
            r.race == self.character_details.race,
            r.class == self.character_details.class,
            r.level == self.character_details.level,
            r.max_free_attribute_points == self.character_details.max_free_attribute_points,
            r.free_attribute_points == self.character_details.free_attribute_points,
            r.attributes@ == self.character_details.attributes@,
    {
        CharacterDetails::new(
            self.character_details.race,
            self.character_details.class,
            self.character_details.level,
            self.character_details.max_free_attribute_points,
            self.character_details.free_attribute_points,
            self.character_details.get_attributes(),
        )
    }

    pub fn get_health(&self) -> (r: i8)
        ensures
            r == self.health,
    {
        self.health
    }

    pub fn set_health(&mut self, health: i8)
        ensures
            *final(self) == (Character { health, ..*old(self) }),
    {
        self.health = health;
    }

    pub fn get_colour(&self) -> (r: Colour)
        ensures
            r == self.colour,
    {
        self.colour
    }

    pub fn get_position(&self) -> (r: Position)
        ensures
            r == self.position,
    {
        self.position
    }

    pub fn set_position(&mut self, position: Position)
        ensures
            *final(self) == (Character { position, ..*old(self) }),
    {
        self.position = position;
    }

    pub fn get_inventory(&self) -> (r: &Container)
        ensures
            *r == self.inventory,
    {
        &self.inventory
    }

    pub fn get_inventory_mut(&mut self) -> (r: &mut Container)
        ensures
            *r == old(self).inventory,
            *final(self) == (Character { inventory: *final(r), ..*old(self) }),
    {
        &mut self.inventory
    }

    pub fn set_inventory(&mut self, container: Container)
        ensures
            *final(self) == (Character { inventory: container, ..*old(self) }),
    {
        self.inventory = container;
    }

    pub fn set_equipment(&mut self, equipment: Equipment)
        ensures
            *final(self) == (Character { equipment, ..*old(self) }),
    {
        self.equipment = equipment;
    }

    pub fn get_equipment_mut(&mut self) -> (r: &mut Equipment)
        ensures
            *r == old(self).equipment,
            *final(self) == (Character { equipment: *final(r), ..*old(self) }),
    {
        &mut self.equipment
    }

    pub fn get_race(&self) -> (r: Race)
        ensures
            r == self.character_details.race,
    {
        self.character_details.race
    }

    pub fn set_race(&mut self, race: Race)
        ensures
            final(self).character_details.race == race,
            final(self).character_details.class == old(self).character_details.class,
            final(self).character_details.attributes@ == old(self).character_details.attributes@,
            final(self).name == old(self).name,
            final(self).position == old(self).position,
            final(self).inventory == old(self).inventory,
    {
        self.character_details.set_race(race);
    }

    pub fn get_class(&self) -> (r: Class)
        ensures
            r == self.character_details.class,
    {
        self.character_details.get_class()
    }

    pub fn set_class(&mut self, class: Class)
        ensures
            final(self).character_details.class == class,
            final(self).character_details.race == old(self).character_details.race,
            final(self).character_details.attributes@ == old(self).character_details.attributes@,
            final(self).name == old(self).name,
            final(self).position == old(self).position,
            final(self).inventory == old(self).inventory,
    {
        self.character_details.set_class(class)
    }

    pub fn get_max_free_attribute_points(&self) -> (r: i8)
        ensures
            r == self.character_details.max_free_attribute_points,
    {
        self.character_details.get_max_free_attribute_points()
    }

    pub fn get_free_attribute_points(&self) -> (r: i8)
        ensures
            r == self.character_details.free_attribute_points,
    {
        self.character_details.get_free_attribute_points()
    }

    pub fn set_free_attribute_points(&mut self, points: i8)
        ensures
            final(self).character_details.free_attribute_points == points,
            final(self).character_details.max_free_attribute_points == old(self).character_details.max_free_attribute_points,
            final(self).character_details.attributes@ == old(self).character_details.attributes@,
            final(self).name == old(self).name,
            final(self).position == old(self).position,
            final(self).inventory == old(self).inventory,
    {
        self.character_details.set_free_attribute_points(points);
    }

    pub fn get_attribute_scores(&self) -> (r: Vec<AttributeScore>)
        ensures
            r@ == self.character_details.attributes@,
    {
        self.character_details.get_attributes()
    }

    pub fn set_attribute_scores(&mut self, scores: Vec<AttributeScore>)
        ensures
            final(self).character_details.attributes@ == scores@,
            final(self).character_details.free_attribute_points == old(self).character_details.free_attribute_points,
            final(self).name == old(self).name,
            final(self).position == old(self).position,
            final(self).inventory == old(self).inventory,
    {
        self.character_details.set_attributes(scores);
    }
}

} // verus!
