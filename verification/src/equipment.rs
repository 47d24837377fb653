use vstd::prelude::*;

use crate::container::{wrapped, Container, ContainerType};
use crate::errors::{error_with, ErrorType, ErrorWrapper};
use crate::items::{EquipmentSlot, Item};

verus! {

/// What is worn or held in each slot: one entry per slot, in declaration order.
#[derive(Debug)]
pub struct Equipment {
    slots: Vec<Option<Item>>,
}

/// The entry a slot is kept at.
pub open spec fn slot_index(slot: EquipmentSlot) -> int {
    match slot {
        EquipmentSlot::HEAD => 0,
        EquipmentSlot::TORSO => 1,
        EquipmentSlot::LEGS => 2,
        EquipmentSlot::FEET => 3,
        EquipmentSlot::PRIMARY => 4,
        EquipmentSlot::SECONDARY => 5,
    }
}

fn slot_index_of(slot: EquipmentSlot) -> (i: usize)
    ensures
        i == slot_index(slot),
{
    match slot {
        EquipmentSlot::HEAD => 0,
        EquipmentSlot::TORSO => 1,
        EquipmentSlot::LEGS => 2,
        EquipmentSlot::FEET => 3,
        EquipmentSlot::PRIMARY => 4,
        EquipmentSlot::SECONDARY => 5,
    }
}

/// The number of occupied entries among the first `n`.
pub open spec fn occupied(s: Seq<Option<Item>>, n: int) -> nat
    decreases n,
{
    if n <= 0 || n > s.len() {
        0
    } else {
        occupied(s, n - 1) + if s[n - 1] is Some { 1nat } else { 0nat }
    }
}

proof fn lemma_occupied_update(s: Seq<Option<Item>>, i: int, v: Option<Item>, n: int)
    requires
        0 <= i < s.len(),
        0 <= n <= s.len(),
    ensures
        occupied(s.update(i, v), n) + (if i < n && s[i] is Some { 1int } else { 0int })
            == occupied(s, n) + (if i < n && v is Some { 1int } else { 0int }),
    decreases n,
{
    if n > 0 {
        lemma_occupied_update(s, i, v, n - 1);
    }
}

/// The name a slot is shown with.
pub open spec fn slot_name(slot: EquipmentSlot) -> Seq<char> {
    match slot {
        EquipmentSlot::HEAD => "HEAD"@,
        EquipmentSlot::TORSO => "TORSO"@,
        EquipmentSlot::LEGS => "LEGS"@,
        EquipmentSlot::FEET => "FEET"@,
        EquipmentSlot::PRIMARY => "PRIMARY"@,
        EquipmentSlot::SECONDARY => "SECONDARY"@,
    }
}

pub fn slot_name_str(slot: EquipmentSlot) -> (r: &'static str)
    ensures
        r@ == slot_name(slot),
{
    match slot {
        EquipmentSlot::HEAD => "HEAD",
        EquipmentSlot::TORSO => "TORSO",
        EquipmentSlot::LEGS => "LEGS",
        EquipmentSlot::FEET => "FEET",
        EquipmentSlot::PRIMARY => "PRIMARY",
        EquipmentSlot::SECONDARY => "SECONDARY",
    }
}

/// The name a container type is shown with.
pub open spec fn container_type_name(t: ContainerType) -> Seq<char> {
    match t {
        ContainerType::ITEM => "ITEM"@,
        ContainerType::OBJECT => "OBJECT"@,
        ContainerType::AREA => "AREA"@,
    }
}

pub fn container_type_name_str(t: ContainerType) -> (r: &'static str)
    ensures
        r@ == container_type_name(t),
{
    match t {
        ContainerType::ITEM => "ITEM",
        ContainerType::OBJECT => "OBJECT",
        ContainerType::AREA => "AREA",
    }
}

impl Equipment {
    /// The item held in each slot.
    pub closed spec fn slot(&self, slot: EquipmentSlot) -> Option<Item> {
        self.slots@[slot_index(slot)]
    }

    /// The number of occupied slots.
    pub closed spec fn count(&self) -> nat {
        occupied(self.slots@, 6)
    }

    /// There is one entry per slot.
    pub closed spec fn wf(&self) -> bool {
        self.slots@.len() == 6
    }

    pub fn new() -> (e: Equipment)
        ensures
            e.wf(),
            e.count() == 0,
            forall|s: EquipmentSlot| #[trigger] e.slot(s) is None,
    {
        let slots: Vec<Option<Item>> = vec![None, None, None, None, None, None];
        let e = Equipment { slots };
        assert(occupied(e.slots@, 6) == 0) by {
            reveal_with_fuel(occupied, 7);
        }
        e
    }

    /// The number of occupied slots.
    pub fn slot_count(&self) -> (n: usize)
        requires
            self.wf(),
        ensures
            n == self.count(),
    {
        let mut n: usize = 0;
        let mut i: usize = 0;
        while i < 6
            invariant
                self.slots@.len() == 6,
                i <= 6,
                n == occupied(self.slots@, i as int),
                n <= i,
            decreases 6 - i,
        {
            if self.slots[i].is_some() {
                n += 1;
            }
            i += 1;
        }
        n
    }

    pub fn is_equipped(&self, slot: EquipmentSlot) -> (r: bool)
        requires
            self.wf(),
        ensures
            r == self.slot(slot).is_some(),
    {
        self.slots[slot_index_of(slot)].is_some()
    }

    /// Puts the item of an OBJECT container in a free slot. Fails, changing nothing, when the
    /// slot is taken or the container is not an OBJECT.
    pub fn equip(&mut self, container_item: Container, slot: EquipmentSlot) -> (r: Result<(), ErrorWrapper>)
        requires
            old(self).wf(),
        ensures
            final(self).wf(),
            r is Ok <==> (old(self).slot(slot) is None && container_item.container_type == ContainerType::OBJECT),
            r is Ok ==> final(self).slot(slot) == Some(container_item.item),
            r is Ok ==> forall|s: EquipmentSlot| s != slot ==> #[trigger] final(self).slot(s) == old(self).slot(s),
            r is Ok ==> final(self).count() == old(self).count() + 1,
            r is Err ==> forall|s: EquipmentSlot| #[trigger] final(self).slot(s) == old(self).slot(s),
            r matches Err(e) ==> e.error_type == ErrorType::INTERNAL && (e.message matches Some(m) && m@ == if old(self).slot(slot) is Some {
                "Cannot equip. Equipment slot: "@ + slot_name(slot) + " is already taken."@
            } else {
                "Unsupported container_type: "@ + container_type_name(container_item.container_type) + ""@
            }),
    {
        if !self.is_equipped(slot) {
            match container_item.get_container_type() {
                ContainerType::OBJECT => {
                    let i = slot_index_of(slot);
                    proof {
                        lemma_occupied_update(self.slots@, i as int, Some(container_item.item), 6);
                    }
                    self.slots.set(i, Some(container_item.item));
                    Ok(())
                },
                ct => {
                    Err(error_with("Unsupported container_type: ", container_type_name_str(ct), ""))
                },
            }
        } else {
            Err(error_with("Cannot equip. Equipment slot: ", slot_name_str(slot), " is already taken."))
        }
    }

    /// Takes the item out of a slot, wrapped as an ITEM container. Fails, changing nothing, when
    /// the slot is empty.
    pub fn unequip(&mut self, slot: EquipmentSlot) -> (r: Result<Container, ErrorWrapper>)
        requires
            old(self).wf(),
        ensures
            final(self).wf(),
            r is Ok <==> old(self).slot(slot) is Some,
            r matches Ok(c) ==> wrapped(c, old(self).slot(slot).unwrap()),
            r is Ok ==> final(self).slot(slot) is None,
            r is Ok ==> forall|s: EquipmentSlot| s != slot ==> #[trigger] final(self).slot(s) == old(self).slot(s),
            r is Ok ==> final(self).count() + 1 == old(self).count(),
            r is Err ==> forall|s: EquipmentSlot| #[trigger] final(self).slot(s) == old(self).slot(s),
            r matches Err(e) ==> e.error_type == ErrorType::INTERNAL
                && (e.message matches Some(m) && m@ == "Cannot unequip. Equipment slot: "@ + slot_name(slot) + " is empty."@),
    {
        let i = slot_index_of(slot);
        if self.slots[i].is_some() {
            proof {
                lemma_occupied_update(self.slots@, i as int, None, 6);
            }
            let item = self.slots[i].clone().unwrap();
            self.slots.set(i, None);
            Ok(Container::wrap(item))
        } else {
            Err(error_with("Cannot unequip. Equipment slot: ", slot_name_str(slot), " is empty."))
        }
    }
}

/// Equipping an item into a free slot and then unequipping that slot gives the item back,
/// wrapped, and leaves every slot as it was before.
pub proof fn lemma_equip_then_unequip(before: Equipment, after_equip: Equipment, after_unequip: Equipment, slot: EquipmentSlot, item: Item)
    requires
        before.wf(),
        before.slot(slot) is None,
        after_equip.slot(slot) == Some(item),
        forall|s: EquipmentSlot| s != slot ==> #[trigger] after_equip.slot(s) == before.slot(s),
        after_unequip.slot(slot) is None,
        forall|s: EquipmentSlot| s != slot ==> #[trigger] after_unequip.slot(s) == after_equip.slot(s),
    ensures
        forall|s: EquipmentSlot| #[trigger] after_unequip.slot(s) == before.slot(s),
{
}

} // verus!
