use vstd::prelude::*;

use crate::position::Position;
use crate::tile::{build_library, is_library_entry, Tile, TileDetails};

verus! {

#[derive(Debug)]
pub struct Door {
    pub tile_details: TileDetails,
    pub position: Position,
    pub open: bool,
    pub locked: bool,
    pub health: u16,
    pub locks: u16,
    pub unlocked_locks: u16,
}

impl Clone for Door {
    fn clone(&self) -> (r: Self)
        ensures
            r == *self,
    {
        Door {
            tile_details: self.tile_details.clone(),
            position: self.position,
            open: self.open,
            locked: self.locked,
            health: self.health,
            locks: self.locks,
            unlocked_locks: self.unlocked_locks,
        }
    }
}

/// The door after an attempt to open it: it opens unless it is locked.
pub open spec fn opened(d: Door) -> Door {
    if !d.locked { Door { open: true, ..d } } else { d }
}

/// The door after an attempt to close it.
pub open spec fn closed(d: Door) -> Door {
    if d.open { Door { open: false, ..d } } else { d }
}

/// The door after an attempt to lock it: only a closed, unlocked door locks.
pub open spec fn locked(d: Door) -> Door {
    if !d.locked && !d.open { Door { locked: true, ..d } } else { d }
}

/// The door after an attempt to unlock it: only a closed, locked door that has locks, not all of
/// them already picked, unlocks.
pub open spec fn unlocked(d: Door) -> Door {
    if d.locked && !d.open && d.locks > 0 && d.unlocked_locks < d.locks {
        Door { locked: false, ..d }
    } else {
        d
    }
}

pub trait DoorLike {
    fn open(&mut self);

    fn close(&mut self);

    fn lock(&mut self);

    fn unlock(&mut self);
}

impl DoorLike for Door {
    fn open(&mut self)
        ensures
            *final(self) == opened(*old(self)),
    {
        if !self.locked {
            self.open = true;
        }
    }

    fn close(&mut self)
        ensures
            *final(self) == closed(*old(self)),
    {
        if self.open {
            self.open = false;
        }
    }

    fn lock(&mut self)
        ensures
            *final(self) == locked(*old(self)),
    {
        if !self.locked && !self.open {
            self.locked = true;
        }
    }

    fn unlock(&mut self)
        ensures
            *final(self) == unlocked(*old(self)),
    {
        if self.locked && !self.open && self.locks > 0 && self.unlocked_locks < self.locks {
            self.locked = false;
        }
    }
}

/// A door is never open and locked at once: no attempt to open, close, lock or unlock a door
/// that is not both open and locked makes it so.
pub proof fn lemma_door_never_open_and_locked(d: Door)
    requires
        !(d.open && d.locked),
    ensures
        !(opened(d).open && opened(d).locked),
        !(closed(d).open && closed(d).locked),
        !(locked(d).open && locked(d).locked),
        !(unlocked(d).open && unlocked(d).locked),
{
}

/// A locked door stays shut when opened, and an open door cannot be locked.
pub proof fn lemma_locked_door_stays_shut(d: Door)
    ensures
        d.locked ==> opened(d) == d,
        d.open ==> locked(d) == d,
{
}

/// Opening then closing an unlocked door leaves it closed, otherwise as it was.
pub proof fn lemma_open_then_close(d: Door)
    requires
        !d.locked,
    ensures
        closed(opened(d)) == (Door { open: false, ..d }),
{
}

/// A new closed, unlocked door with full health and no locks at the given position.
pub fn build_door(position: Position) -> (d: Door)
    ensures
        is_library_entry(d.tile_details, Tile::Door),
        d.position == position,
        !d.open,
        !d.locked,
        d.health == 100,
        d.locks == 0,
        d.unlocked_locks == 0,
{
    let tile_library = build_library();
    let door_tile_details = tile_library.get(Tile::Door);
    Door { tile_details: door_tile_details, position, open: false, locked: false, health: 100, locks: 0, unlocked_locks: 0 }
}

} // verus!
