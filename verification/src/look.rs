use vstd::prelude::*;

use crate::container::{is_true, kids_count, total_count, Container, ContainerType};
use crate::door::Door;
use crate::equipment::{container_type_name, container_type_name_str};
use crate::io_error_utils::{error, other_io_error};
use crate::level::Level;
use crate::map::first_at;
use crate::position::Position;
use crate::room::Room;
use crate::text::{digits, join3, usize_to_string};

verus! {

/// Whether no door among the first `n` of `doors` stands at `pos`.
pub open spec fn no_door_before(doors: Seq<Door>, pos: Position, n: int) -> bool {
    forall|j: int| 0 <= j < n ==> #[trigger] doors[j].position != pos
}

/// The sentence that names a door's tile.
pub open spec fn door_sentence(door: Door) -> Seq<char> {
    "There's a "@ + door.tile_details.name@ + " here."@
}

/// Describes a position of a room: when one of its doors stands there, the sentence naming
/// the first such door's tile; otherwise nothing.
pub fn describe_position_in_room(pos: Position, room: &Room) -> (r: Option<String>)
    ensures
        match r {
            Some(s) => exists|i: int| {
                &&& 0 <= i < room.doors().len()
                &&& #[trigger] room.doors()[i].position == pos
                &&& no_door_before(room.doors(), pos, i)
                &&& s@ == door_sentence(room.doors()[i])
            },
            None => no_door_before(room.doors(), pos, room.doors().len() as int),
        },
{
    let doors = room.get_doors();
    let mut i: usize = 0;
    while i < doors.len()
        invariant
            doors@ == room.doors(),
            i <= doors@.len(),
            no_door_before(doors@, pos, i as int),
        decreases doors@.len() - i,
    {
        if doors[i].position == pos {
            let sentence = join3("There's a ", doors[i].tile_details.name.as_str(), " here.");
            return Some(sentence);
        }
        i += 1;
    }
    None
}

/// What looking at an area container tells: how many things it holds at any depth when more
/// than one, the name of the one thing on it, or that it is empty.
pub open spec fn area_sentence(c: Container) -> Seq<char> {
    let n = total_count(c);
    let name = c.item.name@;
    if n > 1 {
        "There's "@ + digits(n) + " items on the "@ + name + " here."@
    } else if n == 1 {
        "There's a "@ + c.contents@[0].item.name@ + " on the "@ + name + " here."@
    } else {
        "The "@ + name + " is empty here."@
    }
}

/// The message of the error for looking at a container that is not an area.
pub open spec fn not_area_message(t: ContainerType) -> Seq<char> {
    "Unexpected input! Cannot describe position with container of type "@ + container_type_name(t) + "."@
}

/// What looking at a position holding `c` gives: the sentence for an area container (see
/// `area_sentence`), or an error for any other kind.
pub open spec fn container_description(c: Container) -> Result<Seq<char>, std::io::Error> {
    if c.container_type == ContainerType::AREA {
        Ok(area_sentence(c))
    } else {
        Err(other_io_error(not_area_message(c.container_type)))
    }
}

/// The view of a described result: the sentence's characters, or the error.
pub open spec fn described(r: Result<String, std::io::Error>) -> Result<Seq<char>, std::io::Error> {
    match r {
        Ok(s) => Ok(s@),
        Err(e) => Err(e),
    }
}

/// A container holding exactly one thing holds it at the top level.
proof fn lemma_single_content(c: Container)
    requires
        total_count(c) == 1,
    ensures
        c.contents@.len() >= 1,
{
    if c.contents@.len() == 0 {
        assert(kids_count(c.contents@, 0) == 0);
    }
}

/// Describes a position holding the container `c` (see `container_description`).
pub fn describe_position_container(c: &Container) -> (r: Result<String, std::io::Error>)
    requires
        total_count(*c) <= usize::MAX,
    ensures
        described(r) == container_description(*c),
{
    let item_count = c.get_total_count();
    let container_type = c.get_container_type();
    if container_type != ContainerType::AREA {
        let msg = join3(
            "Unexpected input! Cannot describe position with container of type ",
            container_type_name_str(container_type),
            ".",
        );
        return Err(error(msg));
    }
    let c_item_name = c.get_self_item().get_name();
    if item_count > 1 {
        let count_text = usize_to_string(item_count);
        let head = join3("There's ", count_text.as_str(), " items on the ");
        let sentence = join3(head.as_str(), c_item_name.as_str(), " here.");
        proof {
            assert(sentence@ =~= area_sentence(*c));
        }
        Ok(sentence)
    } else if item_count == 1 {
        proof {
            lemma_single_content(*c);
        }
        let top_item_name = c.get_contents()[0].get_self_item().get_name();
        let head = join3("There's a ", top_item_name.as_str(), " on the ");
        let sentence = join3(head.as_str(), c_item_name.as_str(), " here.");
        proof {
            assert(sentence@ =~= area_sentence(*c));
        }
        Ok(sentence)
    } else {
        let sentence = join3("The ", c_item_name.as_str(), " is empty here.");
        Ok(sentence)
    }
}

/// The first room, from index `i` on, whose area holds `pos`.
pub open spec fn first_room_at(rooms: Seq<Room>, pos: Position, i: int) -> Option<int>
    decreases rooms.len() - i,
{
    if i < 0 || i >= rooms.len() {
        None
    } else if rooms[i].area().contains_spec(pos) {
        Some(i)
    } else {
        first_room_at(rooms, pos, i + 1)
    }
}

/// What looking at `pos` on `level` gives: within a room, the sentence for a door standing
/// there or that there is nothing; elsewhere the description of the first container lying
/// there, or that there is nothing; an error when the level has no map.
pub open spec fn position_description(level: Level, pos: Position) -> Result<Seq<char>, std::io::Error> {
    match level.map {
        None => Err(other_io_error("Look command failure, no map on level!"@)),
        Some(map) => match first_room_at(map.rooms@, pos, 0) {
            Some(i) => Ok(room_sentence(map.rooms@[i], pos)),
            None => match first_at(map.containers@, pos, 0) {
                Some(k) => container_description(map.containers@[k].1),
                None => Ok("There's nothing here."@),
            },
        },
    }
}

/// The sentence for a position within a room: the first door standing there, or nothing.
pub open spec fn room_sentence(room: Room, pos: Position) -> Seq<char> {
    if exists|i: int| 0 <= i < room.doors().len() && #[trigger] room.doors()[i].position == pos {
        let i = choose|i: int| {
            &&& 0 <= i < room.doors().len()
            &&& #[trigger] room.doors()[i].position == pos
            &&& no_door_before(room.doors(), pos, i)
        };
        door_sentence(room.doors()[i])
    } else {
        "There's nothing here."@
    }
}

/// Every container lying on the level's map counts what it holds within a `usize`.
pub open spec fn counts_fit(level: Level) -> bool {
    level.map matches Some(map) ==> forall|k: int| 0 <= k < map.containers@.len()
        ==> total_count(#[trigger] map.containers@[k].1) <= usize::MAX
}

/// Describes what is at `pos` on `level` (see `position_description`).
pub fn describe_position(pos: Position, level: &mut Level) -> (r: Result<String, std::io::Error>)
    requires
        counts_fit(*old(level)),
    ensures
        *final(level) == *old(level),
        described(r) == position_description(*old(level), pos),
{
    match &level.map {
        Some(map) => {
            let mut i: usize = 0;
            while i < map.rooms.len()
                invariant
                    old(level).map == Some(*map),
                    counts_fit(*old(level)),
                    i <= map.rooms@.len(),
                    first_room_at(map.rooms@, pos, 0) == first_room_at(map.rooms@, pos, i as int),
                decreases map.rooms@.len() - i,
            {
                if map.rooms[i].get_area().contains(pos) {
                    let prompt = describe_position_in_room(pos, &map.rooms[i]);
                    let ghost room = map.rooms@[i as int];
                    match prompt {
                        Some(s) => {
                            proof {
                                let j = choose|j: int| {
                                    &&& 0 <= j < room.doors().len()
                                    &&& #[trigger] room.doors()[j].position == pos
                                    &&& no_door_before(room.doors(), pos, j)
                                    &&& s@ == door_sentence(room.doors()[j])
                                };
                                lemma_first_door_unique(room.doors(), pos, j);
                            }
                            return Ok(s);
                        },
                        None => {
                            return Ok(String::from_str("There's nothing here."));
                        },
                    }
                }
                i += 1;
            }
            let mut k: usize = 0;
            while k < map.containers.len()
                invariant
                    old(level).map == Some(*map),
                    counts_fit(*old(level)),
                    first_room_at(map.rooms@, pos, 0) is None,
                    k <= map.containers@.len(),
                    first_at(map.containers@, pos, 0) == first_at(map.containers@, pos, k as int),
                decreases map.containers@.len() - k,
            {
                if map.containers[k].0 == pos {
                    assert(total_count(map.containers@[k as int].1) <= usize::MAX);
                    return describe_position_container(&map.containers[k].1);
                }
                k += 1;
            }
            Ok(String::from_str("There's nothing here."))
        },
        None => Err(error(String::from_str("Look command failure, no map on level!"))),
    }
}

/// The first door standing at `pos` is the only one with no such door before it.
proof fn lemma_first_door_unique(doors: Seq<Door>, pos: Position, j: int)
    requires
        0 <= j < doors.len(),
        doors[j].position == pos,
        no_door_before(doors, pos, j),
    ensures
        forall|i: int| 0 <= i < doors.len() && doors[i].position == pos && no_door_before(doors, pos, i) ==> i == j,
{
}

} // verus!
