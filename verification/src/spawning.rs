use vstd::prelude::*;

use crate::character::Character;
use crate::level::{with_player, Level, LevelChange, Levels};
use crate::map::{traversable, GameMap};
use crate::level::{side_position, side_step_fits};
use crate::position::{Area, Position, Side};
use crate::random::random_range;
use crate::room::{same_room, Room};

verus! {

/// The index of the first room from `i` on that has an exit.
pub open spec fn first_exit_room(rooms: Seq<Room>, i: int) -> Option<int>
    decreases rooms.len() - i,
{
    if i < 0 || i >= rooms.len() {
        None
    } else if rooms[i].exit() is Some {
        Some(i)
    } else {
        first_exit_room(rooms, i + 1)
    }
}

/// The index of the first room from `i` on that has an entry.
pub open spec fn first_entry_room(rooms: Seq<Room>, i: int) -> Option<int>
    decreases rooms.len() - i,
{
    if i < 0 || i >= rooms.len() {
        None
    } else if rooms[i].entry() is Some {
        Some(i)
    } else {
        first_entry_room(rooms, i + 1)
    }
}

proof fn lemma_first_exit_room(rooms: Seq<Room>, i: int)
    requires
        0 <= i,
    ensures
        first_exit_room(rooms, i) matches Some(k) ==> i <= k < rooms.len() && rooms[k].exit() is Some,
        first_exit_room(rooms, i) is None ==> forall|k: int| i <= k < rooms.len() ==> (#[trigger] rooms[k]).exit() is None,
    decreases rooms.len() - i,
{
    if i < rooms.len() && rooms[i].exit() is None {
        lemma_first_exit_room(rooms, i + 1);
    }
}

proof fn lemma_first_entry_room(rooms: Seq<Room>, i: int)
    requires
        0 <= i,
    ensures
        first_entry_room(rooms, i) matches Some(k) ==> i <= k < rooms.len() && rooms[k].entry() is Some,
        first_entry_room(rooms, i) is None ==> forall|k: int| i <= k < rooms.len() ==> (#[trigger] rooms[k]).entry() is None,
    decreases rooms.len() - i,
{
    if i < rooms.len() && rooms[i].entry() is None {
        lemma_first_entry_room(rooms, i + 1);
    }
}

/// The room the player is placed in after a level change, and where: going up, at the exit of
/// the first room with an exit; going down, at the entry of the first room with an entry.
pub open spec fn respawn_room(rooms: Seq<Room>, change: LevelChange) -> Option<(int, Position)> {
    match change {
        LevelChange::UP => match first_exit_room(rooms, 0) {
            Some(k) => Some((k, rooms[k].exit()->0)),
            None => None,
        },
        LevelChange::DOWN => match first_entry_room(rooms, 0) {
            Some(k) => Some((k, rooms[k].entry()->0)),
            None => None,
        },
        LevelChange::NONE => None,
    }
}

/// Where a level change puts the player: going up, at the exit of the first room that has an
/// exit; going down, at the entry of the first room that has an entry; nowhere when no room
/// has one, or when the level does not change.
pub proof fn lemma_respawn_place(rooms: Seq<Room>)
    ensures
        forall|k: int, p: Position| #[trigger] respawn_room(rooms, LevelChange::UP) == Some((k, p)) <==> {
            &&& 0 <= k < rooms.len()
            &&& rooms[k].exit() == Some(p)
            &&& forall|j: int| 0 <= j < k ==> (#[trigger] rooms[j]).exit() is None
        },
        forall|k: int, p: Position| #[trigger] respawn_room(rooms, LevelChange::DOWN) == Some((k, p)) <==> {
            &&& 0 <= k < rooms.len()
            &&& rooms[k].entry() == Some(p)
            &&& forall|j: int| 0 <= j < k ==> (#[trigger] rooms[j]).entry() is None
        },
        respawn_room(rooms, LevelChange::UP) is None <==> forall|k: int| 0 <= k < rooms.len() ==> (#[trigger] rooms[k]).exit() is None,
        respawn_room(rooms, LevelChange::DOWN) is None <==> forall|k: int| 0 <= k < rooms.len() ==> (#[trigger] rooms[k]).entry() is None,
        respawn_room(rooms, LevelChange::NONE) is None,
{
    lemma_first_exit_room(rooms, 0);
    lemma_first_exit_from(rooms, 0);
    lemma_first_entry_room(rooms, 0);
    lemma_first_entry_from(rooms, 0);
    assert forall|k: int, p: Position| #[trigger] respawn_room(rooms, LevelChange::UP) == Some((k, p)) <== {
        &&& 0 <= k < rooms.len()
        &&& rooms[k].exit() == Some(p)
        &&& forall|j: int| 0 <= j < k ==> (#[trigger] rooms[j]).exit() is None
    } by {
        if 0 <= k < rooms.len() && rooms[k].exit() == Some(p) && (forall|j: int| 0 <= j < k ==> (#[trigger] rooms[j]).exit() is None) {
            assert(rooms[k].exit() is Some);
            let k2 = first_exit_room(rooms, 0)->0;
            if k2 < k {
                assert(rooms[k2].exit() is None);
            }
            if k2 > k {
                assert(rooms[k].exit() is None);
            }
        }
    }
    assert forall|k: int, p: Position| #[trigger] respawn_room(rooms, LevelChange::DOWN) == Some((k, p)) <== {
        &&& 0 <= k < rooms.len()
        &&& rooms[k].entry() == Some(p)
        &&& forall|j: int| 0 <= j < k ==> (#[trigger] rooms[j]).entry() is None
    } by {
        if 0 <= k < rooms.len() && rooms[k].entry() == Some(p) && (forall|j: int| 0 <= j < k ==> (#[trigger] rooms[j]).entry() is None) {
            assert(rooms[k].entry() is Some);
            let k2 = first_entry_room(rooms, 0)->0;
            if k2 < k {
                assert(rooms[k2].entry() is None);
            }
            if k2 > k {
                assert(rooms[k].entry() is None);
            }
        }
    }
}

/// The first room from `i` on with an exit has no room with an exit between `i` and it.
proof fn lemma_first_exit_from(rooms: Seq<Room>, i: int)
    requires
        0 <= i,
    ensures
        first_exit_room(rooms, i) matches Some(k) ==> forall|j: int| i <= j < k ==> (#[trigger] rooms[j]).exit() is None,
    decreases rooms.len() - i,
{
    if i < rooms.len() && rooms[i].exit() is None {
        lemma_first_exit_from(rooms, i + 1);
    }
}

/// The first room from `i` on with an entry has no room with an entry between `i` and it.
proof fn lemma_first_entry_from(rooms: Seq<Room>, i: int)
    requires
        0 <= i,
    ensures
        first_entry_room(rooms, i) matches Some(k) ==> forall|j: int| i <= j < k ==> (#[trigger] rooms[j]).entry() is None,
    decreases rooms.len() - i,
{
    if i < rooms.len() && rooms[i].entry() is None {
        lemma_first_entry_from(rooms, i + 1);
    }
}

/// The current level with its player moved to `p`.
pub open spec fn player_at(l: Level, p: Position) -> Level {
    with_player(l, Some(Character { position: p, ..l.characters.player()->0 }))
}

/// Places the player in the current level after a level change: going up, at the exit of the
/// first room that has one (there must be one); going down, at the entry of the first room that
/// has one, if any. Returns a copy of that room.
pub fn respawn_player(levels: &mut Levels, change: LevelChange) -> (r: Option<Room>)
    requires
        old(levels).player_here(),
        change == LevelChange::UP ==> (old(levels).levels()[old(levels).current()].map matches Some(m)
            ==> first_exit_room(m.rooms@, 0) is Some),
    ensures
        final(levels).current() == old(levels).current(),
        ({
            let cur = old(levels).current();
            let level = old(levels).levels()[cur];
            match level.map {
                None => r is None && final(levels).levels() == old(levels).levels(),
                Some(m) => match respawn_room(m.rooms@, change) {
                    None => r is None && final(levels).levels() == old(levels).levels(),
                    Some((k, p)) => {
                        &&& r matches Some(room) && same_room(room, m.rooms@[k])
                        &&& final(levels).levels() == old(levels).levels().update(cur, player_at(level, p))
                    },
                },
            }
        }),
        ({
            let cur = old(levels).current();
            let level = old(levels).levels()[cur];
            change == LevelChange::UP ==> match level.map { None => true, Some(m) => exists|k: int| {
                &&& 0 <= k < m.rooms@.len()
                &&& #[trigger] m.rooms@[k].exit() is Some
                &&& forall|j: int| 0 <= j < k ==> (#[trigger] m.rooms@[j]).exit() is None
                &&& r matches Some(room) && same_room(room, m.rooms@[k])
                &&& final(levels).levels() == old(levels).levels().update(cur, player_at(level, m.rooms@[k].exit()->0))
            } }
        }),
        ({
            let cur = old(levels).current();
            let level = old(levels).levels()[cur];
            change == LevelChange::DOWN ==> match level.map { None => true, Some(m) => if exists|k: int| 0 <= k < m.rooms@.len() && (#[trigger] m.rooms@[k]).entry() is Some {
                exists|k: int| {
                    &&& 0 <= k < m.rooms@.len()
                    &&& #[trigger] m.rooms@[k].entry() is Some
                    &&& forall|j: int| 0 <= j < k ==> (#[trigger] m.rooms@[j]).entry() is None
                    &&& r matches Some(room) && same_room(room, m.rooms@[k])
                    &&& final(levels).levels() == old(levels).levels().update(cur, player_at(level, m.rooms@[k].entry()->0))
                }
            } else {
                r is None && final(levels).levels() == old(levels).levels()
            } }
        }),
{
    proof {
        let cur = old(levels).current();
        if let Some(m) = old(levels).levels()[cur].map {
            lemma_respawn_place(m.rooms@);
        }
    }
    let level = levels.get_level_mut();
    let mut target: Option<(Room, Position)> = None;
    match &level.map {
        Some(map) => {
            match change {
                LevelChange::UP => {
                    let mut i: usize = 0;
                    while i < map.rooms.len() && map.rooms[i].get_exit().is_none()
                        invariant
                            i <= map.rooms@.len(),
                            first_exit_room(map.rooms@, 0) == first_exit_room(map.rooms@, i as int),
                        decreases map.rooms@.len() - i,
                    {
                        i += 1;
                    }
                    proof {
                        lemma_first_exit_room(map.rooms@, 0);
                    }
                    let exit_room = map.rooms[i].clone();
                    let exit = exit_room.get_exit().unwrap();
                    target = Some((exit_room, exit));
                },
                LevelChange::DOWN => {
                    let mut i: usize = 0;
                    while i < map.rooms.len() && map.rooms[i].get_entry().is_none()
                        invariant
                            i <= map.rooms@.len(),
                            first_entry_room(map.rooms@, 0) == first_entry_room(map.rooms@, i as int),
                        decreases map.rooms@.len() - i,
                    {
                        i += 1;
                    }
                    if i < map.rooms.len() {
                        let entry_room = map.rooms[i].clone();
                        let entry = entry_room.get_entry().unwrap();
                        target = Some((entry_room, entry));
                    }
                },
                LevelChange::NONE => {},
            }
        },
        None => {},
    }
    match target {
        Some((room, position)) => {
            let player = level.characters.get_player_mut().unwrap();
            player.set_position(position);
            Some(room)
        },
        None => None,
    }
}

/// The areas of the rooms whose identifier differs from `id`, in order.
pub open spec fn other_room_areas(rooms: Seq<Room>, id: u128) -> Seq<Area>
    decreases rooms.len(),
{
    if rooms.len() == 0 {
        Seq::empty()
    } else if rooms.last().id() != id {
        other_room_areas(rooms.drop_last(), id).push(rooms.last().area())
    } else {
        other_room_areas(rooms.drop_last(), id)
    }
}

/// The inside of a room with the given outer area.
pub open spec fn inside_of(a: Area) -> Area {
    crate::position::rect(
        Position { x: (a.start_position.x + 1) as u16, y: (a.start_position.y + 1) as u16 },
        (a.size_x - 2) as u16,
        (a.size_y - 2) as u16,
    )
}

/// Every room of the list has an inside to place characters in.
pub open spec fn rooms_have_inside(rooms: Seq<Room>) -> bool {
    forall|i: int| 0 <= i < rooms.len() ==> (#[trigger] rooms[i]).has_inside()
}

/// The position lies inside one of the first `n` of the given room areas.
pub open spec fn inside_one_of(p: Position, areas: Seq<Area>, n: int) -> bool {
    exists|j: int| 0 <= j < n && #[trigger] inside_of(areas[j]).contains_spec(p)
}

/// The characters in `new` are those in `old`, each placed somewhere inside one of the first
/// `n` of the given room areas.
pub open spec fn placed_inside(old: Seq<Character>, new: Seq<Character>, areas: Seq<Area>, n: int) -> bool {
    &&& new.len() == old.len()
    &&& forall|k: int| 0 <= k < new.len() ==> #[trigger] new[k] == (Character { position: new[k].position, ..old[k] })
    &&& forall|k: int| 0 <= k < new.len() ==> #[trigger] inside_one_of(new[k].position, areas, n)
}

/// Places every non-player character at random inside a room other than the player's: a room
/// is drawn for each among all but the last of those rooms.
pub fn respawn_npcs(levels: &mut Levels, player_room: Room)
    requires
        0 <= old(levels).current() < old(levels).levels().len(),
        old(levels).levels()[old(levels).current()].map matches Some(m) ==> {
            &&& rooms_have_inside(m.rooms@)
            &&& other_room_areas(m.rooms@, player_room.id()).len() == 1
                ==> old(levels).levels()[old(levels).current()].characters.npcs().len() == 0
        },
    ensures
        final(levels).current() == old(levels).current(),
        ({
            let cur = old(levels).current();
            let level = old(levels).levels()[cur];
            match level.map {
                Some(m) if other_room_areas(m.rooms@, player_room.id()).len() > 0 => {
                    let areas = other_room_areas(m.rooms@, player_room.id());
                    let new_level = final(levels).levels()[cur];
                    &&& final(levels).levels() == old(levels).levels().update(cur, new_level)
                    &&& new_level.map == level.map
                    &&& new_level.characters.player() == level.characters.player()
                    &&& placed_inside(level.characters.npcs(), new_level.characters.npcs(), areas, areas.len() - 1)
                },
                _ => final(levels).levels() == old(levels).levels(),
            }
        }),
{
    let level = levels.get_level_mut();
    let mut non_player_rooms: Vec<Room> = Vec::new();
    let ghost id = player_room.id();
    let ghost areas: Seq<Area> = if level.map is Some {
        other_room_areas(level.map->0.rooms@, id)
    } else {
        Seq::empty()
    };
    match &level.map {
        Some(map) => {
            let mut i: usize = 0;
            while i < map.rooms.len()
                invariant
                    i <= map.rooms@.len(),
                    rooms_have_inside(map.rooms@),
                    id == player_room.id(),
                    non_player_rooms@.len() == other_room_areas(map.rooms@.take(i as int), id).len(),
                    forall|k: int| 0 <= k < non_player_rooms@.len() ==> (#[trigger] non_player_rooms@[k]).area()
                        == other_room_areas(map.rooms@.take(i as int), id)[k],
                    forall|k: int| 0 <= k < non_player_rooms@.len() ==> (#[trigger] non_player_rooms@[k]).has_inside(),
                decreases map.rooms@.len() - i,
            {
                let ghost before = non_player_rooms@;
                assert(map.rooms@.take(i + 1).drop_last() =~= map.rooms@.take(i as int));
                assert(map.rooms@.take(i + 1).last() == map.rooms@[i as int]);
                assert(map.rooms@[i as int].has_inside());
                if !map.rooms[i].uuid_equals(&player_room) {
                    non_player_rooms.push(map.rooms[i].clone());
                    proof {
                        assert forall|k: int| 0 <= k < non_player_rooms@.len() implies (#[trigger] non_player_rooms@[k]).area()
                            == other_room_areas(map.rooms@.take(i + 1), id)[k] by {
                            if k < before.len() {
                                assert(non_player_rooms@[k] == before[k]);
                            }
                        }
                        assert forall|k: int| 0 <= k < non_player_rooms@.len() implies (#[trigger] non_player_rooms@[k]).has_inside() by {
                            if k < before.len() {
                                assert(non_player_rooms@[k] == before[k]);
                            }
                        }
                    }
                }
                i += 1;
            }
            proof {
                assert(map.rooms@.take(map.rooms@.len() as int) =~= map.rooms@);
            }
        },
        None => {},
    }
    if !non_player_rooms.is_empty() {
        let ghost old_npcs = level.characters.npcs();
        let npcs = level.characters.get_npcs_mut();
        let count = non_player_rooms.len();
        let mut k: usize = 0;
        while k < npcs.len()
            invariant
                count == non_player_rooms@.len(),
                count == areas.len(),
                forall|q: int| 0 <= q < count ==> (#[trigger] non_player_rooms@[q]).area() == areas[q],
                count > 0,
                count == 1 ==> old_npcs.len() == 0,
                forall|j: int| 0 <= j < non_player_rooms@.len() ==> (#[trigger] non_player_rooms@[j]).has_inside(),
                k <= npcs@.len(),
                npcs@.len() == old_npcs.len(),
                forall|j: int| k <= j < npcs@.len() ==> #[trigger] npcs@[j] == old_npcs[j],
                forall|j: int| 0 <= j < k ==> #[trigger] npcs@[j] == (Character { position: npcs@[j].position, ..old_npcs[j] }),
                forall|j: int| 0 <= j < k ==> #[trigger] inside_one_of(npcs@[j].position, areas, count - 1),
            decreases npcs@.len() - k,
        {
            let random_room_idx = random_range(0, (count - 1) as u64) as usize;
            let chosen_room = &non_player_rooms[random_room_idx];
            let position = chosen_room.random_inside_pos();
            let ghost before = npcs@;
            npcs[k].set_position(position);
            proof {
                assert(chosen_room.inside_area() == inside_of(non_player_rooms@[random_room_idx as int].area()));
                assert forall|j: int| 0 <= j < k + 1 implies #[trigger] inside_one_of(npcs@[j].position, areas, count - 1) by {
                    if j < k {
                        assert(npcs@[j] == before[j]);
                    } else {
                        assert(inside_of(areas[random_room_idx as int]).contains_spec(npcs@[j].position));
                    }
                }
                assert forall|j: int| 0 <= j < k + 1 implies #[trigger] npcs@[j] == (Character { position: npcs@[j].position, ..old_npcs[j] }) by {
                    if j < k {
                        assert(npcs@[j] == before[j]);
                    }
                }
            }
            k += 1;
        }
    }
}

/// Moves the player one step to the given side when the map has a walkable tile there; says
/// whether the player moved.
pub fn attempt_player_movement(levels: &mut Levels, side: Side) -> (moved: bool)
    requires
        old(levels).player_here(),
        side_step_fits(old(levels).levels()[old(levels).current()].player().position, side),
    ensures
        final(levels).current() == old(levels).current(),
        ({
            let cur = old(levels).current();
            let level = old(levels).levels()[cur];
            let target = side_position(level.player().position, side);
            &&& moved == (target is Some && level.map is Some && traversable(level.map->0.tiles@, target->0))
            &&& moved ==> final(levels).levels() == old(levels).levels().update(cur, player_at(level, target->0))
            &&& !moved ==> final(levels).levels() == old(levels).levels()
        }),
{
    let level = levels.get_level_mut();
    let updated_position = level.find_player_side_position(side);
    match updated_position {
        Some(pos) => {
            let walkable = match &level.map {
                Some(m) => m.is_traversible(pos),
                None => false,
            };
            if walkable {
                let player = level.characters.get_player_mut().unwrap();
                player.set_position(pos);
                return true;
            }
            false
        },
        None => false,
    }
}

} // verus!
