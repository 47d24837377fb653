use vstd::prelude::*;

use crate::tile::Colour;

verus! {

/// A slot a piece of equipment is worn or held in.
#[derive(Copy, Clone, PartialEq, Eq, Structural, Debug, Hash)]
pub enum EquipmentSlot {
    HEAD,
    TORSO,
    LEGS,
    FEET,
    PRIMARY,
    SECONDARY,
}

#[derive(Copy, Clone, PartialEq, Eq, Structural, Debug)]
pub struct Weapon {
    pub damage: i32,
}

#[derive(Copy, Clone, PartialEq, Eq, Structural, Debug)]
pub enum ItemType {
    ITEM,
    CONTAINER,
    WEAPON(Weapon),
    HEADGEAR,
    TORSO,
    LEGS,
}

/// How something is drawn: a character in a colour.
#[derive(Copy, Clone, PartialEq, Eq, Structural, Debug)]
pub struct Symbol {
    pub character: char,
    pub colour: Colour,
}

impl Symbol {
    pub fn new(character: char, colour: Colour) -> (s: Symbol)
        ensures
            s.character == character,
            s.colour == colour,
    {
        Symbol { character, colour }
    }
}

#[derive(Debug, PartialEq)]
pub struct Item {
    pub id: u128,
    pub item_type: ItemType,
    pub name: String,
    pub symbol: Symbol,
    pub weight: i32,
    pub value: i32,
    pub equipment_slot: Option<EquipmentSlot>,
}

impl Clone for Item {
    fn clone(&self) -> (r: Self)
        ensures
            r == *self,
    {
        Item {
            id: self.id,
            item_type: self.item_type,
            name: self.name.clone(),
            symbol: self.symbol,
            weight: self.weight,
            value: self.value,
            equipment_slot: self.equipment_slot,
        }
    }
}

impl Item {
    pub open spec fn id(self) -> u128 {
        self.id
    }

    pub open spec fn name(self) -> Seq<char> {
        self.name@
    }

    pub open spec fn equipment_slot(self) -> Option<EquipmentSlot> {
        self.equipment_slot
    }

    pub fn get_id(&self) -> (r: u128)
        ensures
            r == self.id(),
    {
        self.id
    }

    pub fn get_name(&self) -> (r: String)
        ensures
            r@ == self.name(),
    {
        self.name.clone()
    }

    pub fn set_name(&mut self, name: String)
        ensures
            final(self).name() == name@,
            final(self).id() == old(self).id(),
            final(self).item_type == old(self).item_type,
            final(self).symbol == old(self).symbol,
            final(self).weight == old(self).weight,
            final(self).value == old(self).value,
            final(self).equipment_slot() == old(self).equipment_slot(),
    {
        self.name = name;
    }

    pub fn get_weight(&self) -> (r: i32)
        ensures
            r == self.weight,
    {
        self.weight
    }

    pub fn get_value(&self) -> (r: i32)
        ensures
            r == self.value,
    {
        self.value
    }

    pub fn is_container(&self) -> (r: bool)
        ensures
            r == (self.item_type == ItemType::CONTAINER),
    {
        self.item_type == ItemType::CONTAINER
    }

    pub fn is_equipped(&self) -> (r: bool)
        ensures
            r == self.equipment_slot().is_some(),
    {
        self.equipment_slot.is_some()
    }

    pub fn id_equals(&self, other: &Item) -> (r: bool)
        ensures
            r == (self.id() == other.id()),
    {
        self.id == other.id
    }

    pub fn set_equipment_slot(&mut self, slot: Option<EquipmentSlot>)
        ensures
            *final(self) == (Item { equipment_slot: slot, ..*old(self) }),
    {
        self.equipment_slot = slot;
    }

    pub fn get_equipment_slot(&self) -> (r: Option<EquipmentSlot>)
        ensures
            r == self.equipment_slot(),
    {
        self.equipment_slot
    }

    pub fn unequip(&mut self)
        ensures
            *final(self) == (Item { equipment_slot: None, ..*old(self) }),
    {
        self.equipment_slot = None;
    }
}

/// An item as built by the `build_*` functions: unequipped and drawn in white.
pub open spec fn built_item(i: Item, id: u128, item_type: ItemType, name: Seq<char>, symbol: char, weight: i32, value: i32) -> bool {
    &&& i.id() == id
    &&& i.item_type == item_type
    &&& i.name() == name
    &&& i.symbol == Symbol { character: symbol, colour: Colour::White }
    &&& i.weight == weight
    &&& i.value == value
    &&& i.equipment_slot() is None
}

pub fn build_item(id: u128, name: String, symbol: char, weight: i32, value: i32) -> (i: Item)
    ensures
        built_item(i, id, ItemType::ITEM, name@, symbol, weight, value),
{
    Item { id, item_type: ItemType::ITEM, name, symbol: Symbol::new(symbol, Colour::White), weight, value, equipment_slot: None }
}

pub fn build_weapon(id: u128, name: String, symbol: char, weight: i32, value: i32, weapon: Weapon) -> (i: Item)
    ensures
        built_item(i, id, ItemType::WEAPON(weapon), name@, symbol, weight, value),
{
    Item { id, item_type: ItemType::WEAPON(weapon), name, symbol: Symbol::new(symbol, Colour::White), weight, value, equipment_slot: None }
}

pub fn build_container_item(id: u128, name: String, symbol: char, weight: i32, value: i32) -> (i: Item)
    ensures
        built_item(i, id, ItemType::CONTAINER, name@, symbol, weight, value),
{
    Item { id, item_type: ItemType::CONTAINER, name, symbol: Symbol::new(symbol, Colour::White), weight, value, equipment_slot: None }
}

} // verus!
