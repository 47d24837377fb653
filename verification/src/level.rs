use vstd::prelude::*;

use crate::characters::Characters;
use crate::input::{key_to_side, side_of_key, Key};
use crate::map::GameMap;
use crate::map_generator::{build_generator, drawn_as, rooms_apart, valid_room};
use crate::map::tile_at;
use crate::position::{build_rectangular_area, rect, Position, Side};
use crate::tile::{is_library_entry, Tile, TileDetails};
use crate::random::seeded_generator;
use rand_pcg::Pcg64;

verus! {

/// One level of the dungeon: its map, once generated, and the characters on it.
#[derive(Debug)]
pub struct Level {
    pub map: Option<GameMap>,
    pub characters: Characters,
}

/// A move between levels.
#[derive(Copy, Clone, PartialEq, Eq, Structural, Debug)]
pub enum LevelChange {
    UP,
    DOWN,
    NONE,
}

/// The outcome of a move between levels.
#[derive(Copy, Clone, PartialEq, Eq, Structural, Debug)]
pub enum LevelChangeResult {
    LevelChanged,
    OutOfDungeon,
}

/// The levels of the dungeon, which of them the player is on, and the generator that new
/// levels' maps are drawn from.
#[derive(Debug)]
pub struct Levels {
    pub rng: Pcg64,
    _current_level: usize,
    levels: Vec<Level>,
}

/// The area of every generated level's map: 30 columns by 20 rows from the origin.
pub open spec fn level_area() -> crate::position::Area {
    rect(Position { x: 0, y: 0 }, 30, 20)
}

/// A map as `Levels` generates one: rooms of 3 to 6 tiles across, placed apart within the
/// level area and drawn over empty tiles.
pub open spec fn generated_level_map(m: GameMap) -> bool {
    &&& m.area == level_area()
    &&& forall|i: int| 0 <= i < m.rooms@.len() ==> valid_room(#[trigger] m.rooms@[i], level_area(), 3, 6)
    &&& rooms_apart(m.rooms@)
    &&& forall|p: Position| (#[trigger] tile_at(m.tiles@, p) is Some) == m.area.contains_spec(p)
    &&& forall|p: Position| #[trigger] tile_at(m.tiles@, p) is Some ==> exists|b: TileDetails|
        is_library_entry(b, Tile::NoTile) && drawn_as(m.rooms@, p, b, tile_at(m.tiles@, p)->0)
}

/// The level with its characters' player replaced.
pub open spec fn with_player(l: Level, p: Option<crate::character::Character>) -> Level {
    Level { map: l.map, characters: l.characters.with_player(p) }
}

/// `new` is `old` with the player moved from the current level to level `to`, which becomes
/// the current level.
pub open spec fn player_moved(old: Levels, new: Levels, to: int) -> bool {
    let from = old.current();
    let player = old.levels()[from].characters.player();
    &&& new.current() == to
    &&& new.levels().len() == old.levels().len()
    &&& new.levels()[from] == with_player(old.levels()[from], None)
    &&& new.levels()[to] == with_player(old.levels()[to], player)
    &&& forall|i: int| 0 <= i < old.levels().len() && i != from && i != to ==> #[trigger] new.levels()[i] == old.levels()[i]
}

/// `new` is `old` with a freshly generated level added at the end, which the player moved to.
pub open spec fn player_moved_to_new_level(old: Levels, new: Levels) -> bool {
    let from = old.current();
    let player = old.levels()[from].characters.player();
    let last = new.levels().last();
    &&& new.current() == from + 1
    &&& new.levels().len() == old.levels().len() + 1
    &&& new.levels()[from] == with_player(old.levels()[from], None)
    &&& forall|i: int| 0 <= i < old.levels().len() && i != from ==> #[trigger] new.levels()[i] == old.levels()[i]
    &&& last.map matches Some(m) && generated_level_map(m)
    &&& last.characters.player() == player
    &&& last.characters.npcs().len() == 0
}

/// The change of state that `Levels::change_level` makes.
pub open spec fn level_changed(old: Levels, change: LevelChange, new: Levels, r: LevelChangeResult) -> bool {
    match change {
        LevelChange::UP => if old.current() > 0 {
            r == LevelChangeResult::LevelChanged && player_moved(old, new, old.current() - 1)
        } else {
            r == LevelChangeResult::OutOfDungeon && new == old
        },
        LevelChange::DOWN => r == LevelChangeResult::LevelChanged && if old.current() + 1 < old.levels().len() {
            player_moved(old, new, old.current() + 1)
        } else {
            player_moved_to_new_level(old, new)
        },
        LevelChange::NONE => r == LevelChangeResult::LevelChanged && new == old,
    }
}

/// No levels yet; the first level to be added is the current one. New levels' maps are drawn
/// from `rng`.
pub fn init_level_manager(rng: Pcg64) -> (l: Levels)
    ensures
        l.current() == 0,
        l.levels().len() == 0,
{
    Levels { rng, _current_level: 0, levels: Vec::new() }
}

/// No levels yet, with new levels' maps drawn from a generator seeded with `seed`, so that one
/// seed always gives the same dungeon.
pub fn seeded_level_manager(seed: &str) -> (l: Levels)
    ensures
        l.current() == 0,
        l.levels().len() == 0,
{
    init_level_manager(seeded_generator(seed))
}

impl Levels {
    pub closed spec fn current(&self) -> int {
        self._current_level as int
    }

    pub closed spec fn levels(&self) -> Seq<Level> {
        self.levels@
    }

    /// The current level exists and holds the player.
    pub open spec fn player_here(&self) -> bool {
        &&& 0 <= self.current() < self.levels().len()
        &&& self.levels()[self.current()].characters.player() is Some
    }

    pub fn add_level(&mut self, level: Level)
        ensures
            final(self).current() == old(self).current(),
            final(self).levels() == old(self).levels().push(level),
    {
        self.levels.push(level);
    }

    /// The current level, to be changed in place.
    pub fn get_level_mut(&mut self) -> (l: &mut Level)
        requires
            old(self).current() < old(self).levels().len(),
        ensures
            *l == old(self).levels()[old(self).current()],
            final(self).current() == old(self).current(),
            final(self).levels() == old(self).levels().update(old(self).current(), *final(l)),
    {
        let i = self._current_level;
        &mut self.levels[i]
    }

    pub fn get_current_level(&self) -> (r: usize)
        ensures
            r == self.current(),
    {
        self._current_level
    }

    /// Generates the map of a new level from the levels' generator.
    fn build_map(&mut self) -> (m: GameMap)
        ensures
            generated_level_map(m),
            final(self).current() == old(self).current(),
            final(self).levels() == old(self).levels(),
    {
        let map_area = build_rectangular_area(Position { x: 0, y: 0 }, 30, 20);
        let mut map_generator = build_generator(map_area);
        map_generator.generate(&mut self.rng)
    }

    /// Adds a level with a newly generated map at the end; the player, if there are levels
    /// already, moves to it from the current level.
    pub fn generate_level(&mut self)
        requires
            old(self).levels().len() > 0 ==> old(self).player_here(),
        ensures
            final(self).current() == old(self).current(),
            final(self).levels().len() == old(self).levels().len() + 1,
            final(self).levels().last().map matches Some(m) && generated_level_map(m),
            final(self).levels().last().characters.npcs().len() == 0,
            old(self).levels().len() == 0 ==> final(self).levels().last().characters.player() is None,
            old(self).levels().len() > 0 ==> {
                let from = old(self).current();
                &&& final(self).levels().last().characters.player() == old(self).levels()[from].characters.player()
                &&& final(self).levels()[from] == with_player(old(self).levels()[from], None)
                &&& forall|i: int| 0 <= i < old(self).levels().len() && i != from ==> #[trigger] final(self).levels()[i] == old(self).levels()[i]
            },
    {
        let map = Some(self.build_map());
        let mut player = None;
        if !self.levels.is_empty() {
            let level = self.get_level_mut();
            player = Some(level.characters.remove_player());
        }
        let new_level = Level { map, characters: Characters::new(player, Vec::new()) };
        self.levels.push(new_level);
    }

    /// Moves the player up or down a level. Going up from the first level leaves the dungeon;
    /// going down from the last level generates a new one.
    pub fn change_level(&mut self, level_change: LevelChange) -> (r: Result<LevelChangeResult, std::io::Error>)
        requires
            level_change == LevelChange::UP && old(self).current() > 0 ==> old(self).player_here(),
            level_change == LevelChange::DOWN ==> old(self).player_here(),
        ensures
            r matches Ok(result) && level_changed(*old(self), level_change, *final(self), result),
    {
        match level_change {
            LevelChange::UP => {
                if self._current_level > 0 {
                    let player = self.get_level_mut().characters.remove_player();
                    self._current_level = self._current_level - 1;
                    self.get_level_mut().characters.set_player(player);
                    Ok(LevelChangeResult::LevelChanged)
                } else {
                    Ok(LevelChangeResult::OutOfDungeon)
                }
            },
            LevelChange::DOWN => {
                if self._current_level < self.levels.len() - 1 {
                    let player = self.get_level_mut().characters.remove_player();
                    self._current_level = self._current_level + 1;
                    self.get_level_mut().characters.set_player(player);
                } else {
                    self.generate_level();
                    self._current_level = self._current_level + 1;
                }
                Ok(LevelChangeResult::LevelChanged)
            },
            LevelChange::NONE => Ok(LevelChangeResult::LevelChanged),
        }
    }
}

/// Only the current level holds a player.
pub open spec fn single_player(l: Levels) -> bool {
    forall|i: int| 0 <= i < l.levels().len() && i != l.current() ==> (#[trigger] l.levels()[i]).characters.player() is None
}

proof fn lemma_level_with_player(l: Level, a: Option<crate::character::Character>, b: Option<crate::character::Character>)
    ensures
        with_player(l, a).characters.player() == a,
        with_player(with_player(l, a), b) == with_player(l, b),
        with_player(l, l.characters.player()) == l,
{
    l.characters.lemma_with_player(a, b);
    l.characters.lemma_with_player(l.characters.player(), b);
    l.characters.with_player(a).lemma_with_player(b, b);
}

/// Every move between levels keeps the player on the current level alone.
pub proof fn lemma_change_keeps_single_player(a: Levels, change: LevelChange, b: Levels, r: LevelChangeResult)
    requires
        single_player(a),
        0 <= a.current() < a.levels().len(),
        level_changed(a, change, b, r),
    ensures
        single_player(b),
        0 <= b.current() < b.levels().len(),
{
    let from = a.current();
    lemma_level_with_player(a.levels()[from], None, None);
    if change == LevelChange::UP && from > 0 {
        lemma_level_with_player(a.levels()[from - 1], a.levels()[from].characters.player(), None);
    } else if change == LevelChange::DOWN && from + 1 < a.levels().len() {
        lemma_level_with_player(a.levels()[from + 1], a.levels()[from].characters.player(), None);
    }
    assert forall|i: int| 0 <= i < b.levels().len() && i != b.current() implies (#[trigger] b.levels()[i]).characters.player() is None by {
        if i != from && i < a.levels().len() {
            assert(a.levels()[i].characters.player() is None);
        }
    }
}

/// Going up a level and back down restores every level, and the current one, as they were.
pub proof fn lemma_up_then_down(a: Levels, b: Levels, c: Levels, r1: LevelChangeResult, r2: LevelChangeResult)
    requires
        single_player(a),
        a.player_here(),
        a.current() > 0,
        level_changed(a, LevelChange::UP, b, r1),
        level_changed(b, LevelChange::DOWN, c, r2),
    ensures
        r1 == LevelChangeResult::LevelChanged,
        c.current() == a.current(),
        c.levels() == a.levels(),
{
    let from = a.current();
    let p = a.levels()[from].characters.player();
    lemma_level_with_player(a.levels()[from - 1], p, None);
    lemma_level_with_player(a.levels()[from - 1], None, None);
    lemma_level_with_player(a.levels()[from], None, p);
    assert(a.levels()[from - 1].characters.player() is None);
    assert(c.levels() =~= a.levels());
}

/// Going down a level and back up returns to the same level with the same player, and leaves
/// the levels that were there before as they were.
pub proof fn lemma_down_then_up(a: Levels, b: Levels, c: Levels, r1: LevelChangeResult, r2: LevelChangeResult)
    requires
        single_player(a),
        a.player_here(),
        level_changed(a, LevelChange::DOWN, b, r1),
        level_changed(b, LevelChange::UP, c, r2),
    ensures
        r2 == LevelChangeResult::LevelChanged,
        c.current() == a.current(),
        c.levels().len() >= a.levels().len(),
        forall|i: int| 0 <= i < a.levels().len() ==> #[trigger] c.levels()[i] == a.levels()[i],
{
    let from = a.current();
    let p = a.levels()[from].characters.player();
    lemma_level_with_player(a.levels()[from], None, p);
    if from + 1 < a.levels().len() {
        lemma_level_with_player(a.levels()[from + 1], p, None);
        lemma_level_with_player(a.levels()[from + 1], None, None);
        assert(a.levels()[from + 1].characters.player() is None);
    }
}

/// The position next to `p` on the given side: `None` above the top row or left of the first
/// column.
pub open spec fn side_position(p: Position, side: Side) -> Option<Position> {
    match side {
        Side::TOP => if p.y > 0 { Some(Position { x: p.x, y: (p.y - 1) as u16 }) } else { None },
        Side::BOTTOM => Some(Position { x: p.x, y: (p.y + 1) as u16 }),
        Side::LEFT => if p.x > 0 { Some(Position { x: (p.x - 1) as u16, y: p.y }) } else { None },
        Side::RIGHT => Some(Position { x: (p.x + 1) as u16, y: p.y }),
    }
}

/// A step to the given side stays within the position range on the far sides.
pub open spec fn side_step_fits(p: Position, side: Side) -> bool {
    &&& side == Side::BOTTOM ==> p.y < u16::MAX
    &&& side == Side::RIGHT ==> p.x < u16::MAX
}

impl Level {
    /// The player.
    pub open spec fn player(&self) -> crate::character::Character {
        self.characters.player()->0
    }

    /// The position next to the player on the given side.
    pub fn find_player_side_position(&mut self, side: Side) -> (r: Option<Position>)
        requires
            old(self).characters.player() is Some,
            side_step_fits(old(self).player().position, side),
        ensures
            *final(self) == *old(self),
            r == side_position(old(self).player().position, side),
    {
        let position = self.characters.get_player().unwrap().get_position();
        let mut side_position = None;
        match side {
            Side::TOP => {
                if position.y > 0 {
                    side_position = Some(Position { x: position.x, y: position.y - 1 });
                }
            },
            Side::BOTTOM => {
                side_position = Some(Position { x: position.x, y: position.y + 1 });
            },
            Side::LEFT => {
                if position.x > 0 {
                    side_position = Some(Position { x: position.x - 1, y: position.y });
                }
            },
            Side::RIGHT => {
                side_position = Some(Position { x: position.x + 1, y: position.y });
            },
        }
        side_position
    }

    /// The position a key points at: next to the player for a movement key, the player's own
    /// position for any other character key, and nothing for other keys.
    pub fn find_adjacent_player_position(&mut self, key: Key) -> (r: Option<Position>)
        requires
            old(self).characters.player() is Some,
            side_of_key(key) matches Some(side) ==> side_step_fits(old(self).player().position, side),
        ensures
            *final(self) == *old(self),
            r == match side_of_key(key) {
                Some(side) => side_position(old(self).player().position, side),
                None => if key is Char { Some(old(self).player().position) } else { None },
            },
    {
        match key {
            Key::Down | Key::Up | Key::Left | Key::Right | Key::Char('w') | Key::Char('a') | Key::Char('s') | Key::Char('d') => {
                if let Some(side) = key_to_side(key) {
                    self.find_player_side_position(side)
                } else {
                    None
                }
            },
            Key::Char(_) => Some(self.characters.get_player().unwrap().get_position()),
            _ => None,
        }
    }

    pub fn get_map(&self) -> (r: &Option<GameMap>)
        ensures
            *r == self.map,
    {
        &self.map
    }

    pub fn set_map(&mut self, map: Option<GameMap>)
        ensures
            final(self).map == map,
            final(self).characters == old(self).characters,
    {
        self.map = map;
    }

    /// The map, to be changed in place.
    pub fn get_map_mut(&mut self) -> (r: Option<&mut GameMap>)
        ensures
            final(self).characters == old(self).characters,
            match old(self).map {
                None => r is None && final(self).map is None,
                Some(m) => r is Some && *r->0 == m && final(self).map == Some(*final(r->0)),
            },
    {
        self.map.as_mut()
    }
}

} // verus!
