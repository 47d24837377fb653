use vstd::prelude::*;

use crate::command::OpenContainerEvent;
use crate::container::{is_true, Container, ContainerType};
use crate::door::Door;
use crate::input::Key;
use crate::list_selection::{
    indices_above_min, move_down_spec, move_down_target, move_up_spec, move_up_target, page_ok, fits_i32,
    ItemListSelection, ListView,
};
use crate::look::first_room_at;
use crate::map::{first_at, GameMap};
use crate::position::Position;
use crate::room::Room;

verus! {

/// What opening a position leads to.
#[derive(Copy, Clone, PartialEq, Eq, Structural, Debug)]
pub enum OpenTarget {
    /// Nothing to open there.
    Nothing,
    /// A door stands there, and no container with anything in it lies there.
    Door,
    /// The container at this index of the map's containers is opened.
    Container(usize),
    /// The container at this index of the map's containers holds only a fixed container with
    /// something in it, which is opened instead.
    Inner(usize),
}

/// The number of things a container holds at its top level: none unless it stores things.
pub open spec fn top_count(c: Container) -> nat {
    if is_true(c) { c.contents@.len() } else { 0 }
}

/// A fixed container, such as a chest or the floor: one that cannot be carried.
pub open spec fn is_fixed(c: Container) -> bool {
    c.container_type == ContainerType::AREA
}

/// Whether one of the doors stands at `p`.
pub open spec fn has_door_at(doors: Seq<Door>, p: Position) -> bool {
    exists|j: int| 0 <= j < doors.len() && #[trigger] doors[j].position == p
}

/// What opening `p` on `map` leads to. The first container lying at `p` is opened when it
/// holds anything; when all it holds is a single fixed container that itself holds something,
/// that inner container is opened instead. Otherwise a door of the first room holding `p`
/// that stands at `p` is reported, and failing that there is nothing to open.
pub open spec fn open_target_spec(map: GameMap, p: Position) -> OpenTarget {
    let door = match first_room_at(map.rooms@, p, 0) {
        Some(i) => has_door_at(map.rooms@[i].doors(), p),
        None => false,
    };
    let fallback = if door { OpenTarget::Door } else { OpenTarget::Nothing };
    match first_at(map.containers@, p, 0) {
        Some(k) => {
            let c = map.containers@[k].1;
            if top_count(c) == 0 {
                fallback
            } else if top_count(c) == 1 && is_fixed(c.contents@[0]) && top_count(c.contents@[0]) > 0 {
                OpenTarget::Inner(k as usize)
            } else {
                OpenTarget::Container(k as usize)
            }
        },
        None => fallback,
    }
}

/// Whether a door of `room` stands at `p`.
fn door_at(room: &Room, p: Position) -> (r: bool)
    ensures
        r == has_door_at(room.doors(), p),
{
    let doors = room.get_doors();
    let mut j: usize = 0;
    while j < doors.len()
        invariant
            doors@ == room.doors(),
            j <= doors@.len(),
            forall|i: int| 0 <= i < j ==> #[trigger] doors@[i].position != p,
        decreases doors@.len() - j,
    {
        if doors[j].position == p {
            return true;
        }
        j += 1;
    }
    false
}

/// Whether a door of the first room holding `p` stands at `p`.
fn door_in_first_room(map: &GameMap, p: Position) -> (r: bool)
    ensures
        r == match first_room_at(map.rooms@, p, 0) {
            Some(i) => has_door_at(map.rooms@[i].doors(), p),
            None => false,
        },
{
    let mut i: usize = 0;
    while i < map.rooms.len()
        invariant
            i <= map.rooms@.len(),
            first_room_at(map.rooms@, p, 0) == first_room_at(map.rooms@, p, i as int),
        decreases map.rooms@.len() - i,
    {
        if map.rooms[i].get_area().contains(p) {
            return door_at(&map.rooms[i], p);
        }
        i += 1;
    }
    false
}

/// Decides what opening `p` on `map` leads to (see `open_target_spec`).
pub fn open_target(map: &GameMap, p: Position) -> (t: OpenTarget)
    ensures
        t == open_target_spec(*map, p),
{
    let door = door_in_first_room(map, p);
    let fallback = if door { OpenTarget::Door } else { OpenTarget::Nothing };
    let mut k: usize = 0;
    while k < map.containers.len()
        invariant
            k <= map.containers@.len(),
            first_at(map.containers@, p, 0) == first_at(map.containers@, p, k as int),
            fallback == if match first_room_at(map.rooms@, p, 0) {
                Some(i) => has_door_at(map.rooms@[i].doors(), p),
                None => false,
            } {
                OpenTarget::Door
            } else {
                OpenTarget::Nothing
            },
        decreases map.containers@.len() - k,
    {
        if map.containers[k].0 == p {
            assert(first_at(map.containers@, p, k as int) == Some(k as int));
            let c = &map.containers[k].1;
            let count = c.get_top_level_count();
            if count > 0 {
                if count == 1 && c.contents[0].container_type == ContainerType::AREA
                    && c.contents[0].get_top_level_count() > 0 {
                    return OpenTarget::Inner(k);
                }
                return OpenTarget::Container(k);
            }
            assert(top_count(map.containers@[k as int].1) == 0);
            return fallback;
        }
        k += 1;
    }
    fallback
}

/// The message given when opening leads to nothing to open: that a door stands there, or
/// that there is nothing to open.
pub open spec fn open_failure_spec(t: OpenTarget) -> Option<Seq<char>> {
    match t {
        OpenTarget::Door => Some("There's a door here."@),
        OpenTarget::Nothing => Some("There's nothing here to open."@),
        _ => None,
    }
}

/// The message for a target that opens no container (see `open_failure_spec`).
pub fn open_failure_message(t: OpenTarget) -> (r: Option<&'static str>)
    ensures
        match r {
            Some(s) => open_failure_spec(t) == Some(s@),
            None => open_failure_spec(t) is None,
        },
{
    match t {
        OpenTarget::Door => Some("There's a door here."),
        OpenTarget::Nothing => Some("There's nothing here to open."),
        _ => None,
    }
}

/// The event of the open container view that a key stands for: Up and Down move, Enter
/// toggles selecting.
pub open spec fn open_event_spec(key: Key) -> Option<OpenContainerEvent> {
    match key {
        Key::Up => Some(OpenContainerEvent::MoveUp),
        Key::Down => Some(OpenContainerEvent::MoveDown),
        Key::Char(c) => if c == '\n' { Some(OpenContainerEvent::ToggleSelection) } else { None },
        _ => None,
    }
}

pub fn open_event(key: Key) -> (e: Option<OpenContainerEvent>)
    ensures
        e == open_event_spec(key),
{
    match key {
        Key::Up => Some(OpenContainerEvent::MoveUp),
        Key::Down => Some(OpenContainerEvent::MoveDown),
        Key::Char(c) => if c == '\n' { Some(OpenContainerEvent::ToggleSelection) } else { None },
        _ => None,
    }
}

/// The list after one key in the open container view, and whether the view keeps running:
/// Up and Down move the selection, Enter toggles selecting, Esc cancels a selection in
/// progress or else closes the view; any other key changes nothing.
pub open spec fn open_view_spec<'a>(v: ListView<'a>, key: Key) -> (ListView<'a>, bool) {
    match open_event_spec(key) {
        Some(OpenContainerEvent::MoveUp) => (move_up_spec(v), true),
        Some(OpenContainerEvent::MoveDown) => (move_down_spec(v), true),
        Some(OpenContainerEvent::ToggleSelection) => (ListView { selecting_items: !v.selecting_items, ..v }, true),
        None => if key == Key::Esc {
            if v.selecting_items {
                (ListView {
                    selecting_items: false,
                    selected_indices: Seq::<i32>::empty(),
                    selected_items: Seq::empty(),
                    ..v
                }, true)
            } else {
                (v, false)
            }
        } else {
            (v, true)
        },
    }
}

/// One key of the open container view (see `open_view_spec`); returns whether the view keeps
/// running.
pub fn open_view_step(sel: &mut ItemListSelection, key: Key) -> (running: bool)
    requires
        key == Key::Up ==> {
            &&& indices_above_min(old(sel)@)
            &&& old(sel)@.selection_index matches Some(si) ==> fits_i32(move_up_target(old(sel)@, si) + old(sel)@.start_index)
        },
        key == Key::Down ==> {
            &&& page_ok(old(sel)@)
            &&& indices_above_min(old(sel)@)
            &&& old(sel)@.selection_index matches Some(si) ==> fits_i32(move_down_target(old(sel)@, si) + old(sel)@.start_index)
        },
    ensures
        (final(sel)@, running) == open_view_spec(old(sel)@, key),
{
    match open_event(key) {
        Some(OpenContainerEvent::MoveUp) => {
            sel.move_up();
            true
        },
        Some(OpenContainerEvent::MoveDown) => {
            sel.move_down();
            true
        },
        Some(OpenContainerEvent::ToggleSelection) => {
            sel.toggle_select();
            true
        },
        None => {
            if key == Key::Esc {
                if sel.is_selecting() {
                    sel.cancel_selection();
                    true
                } else {
                    false
                }
            } else {
                true
            }
        },
    }
}

} // verus!
