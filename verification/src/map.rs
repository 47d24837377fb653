use vstd::prelude::*;

use crate::position::{neighbors_of, Area, Position};
use crate::container::{at_path, replaced_at, Container};
use crate::container_util::{find_container_mut, locate};
use crate::room::{same_room, Room};
use crate::tile::{Tile, TileDetails};

verus! {

/// A level's map: its area, its tiles (indexed by row, then column), its rooms, and the
/// containers lying in the world, each at its position.
#[derive(Debug)]
pub struct GameMap {
    pub area: Area,
    pub tiles: Vec<Vec<TileDetails>>,
    pub rooms: Vec<Room>,
    pub containers: Vec<(Position, Container)>,
}

/// The tile at a position, when the position has a row and a column in the tile grid.
pub open spec fn tile_at(tiles: Seq<Vec<TileDetails>>, p: Position) -> Option<TileDetails> {
    if p.y < tiles.len() && p.x < tiles[p.y as int]@.len() {
        Some(tiles[p.y as int]@[p.x as int])
    } else {
        None
    }
}

/// A position that pathways may be laid across: a traversable tile or an empty one.
pub open spec fn paveable(tiles: Seq<Vec<TileDetails>>, p: Position) -> bool {
    match tile_at(tiles, p) {
        Some(t) => t.tile_type == Tile::NoTile || t.traversable,
        None => false,
    }
}

/// A position that can be walked on.
pub open spec fn traversable(tiles: Seq<Vec<TileDetails>>, p: Position) -> bool {
    match tile_at(tiles, p) {
        Some(t) => t.traversable,
        None => false,
    }
}

/// The neighbours of a position that lie within an area, in the order `neighbors_of` lists them.
pub open spec fn neighbors_within(area: Area, p: Position) -> Seq<Position> {
    if area.contains_spec(p) {
        neighbors_of(p).filter(|n: Position| area.contains_spec(n))
    } else {
        seq![]
    }
}

impl GameMap {
    pub fn get_tile(&self, position: Position) -> (r: Option<TileDetails>)
        ensures
            r == tile_at(self.tiles@, position),
    {
        let y = position.y as usize;
        let x = position.x as usize;
        if y < self.tiles.len() {
            let row = &self.tiles[y];
            if x < row.len() {
                return Some(row[x].clone());
            }
        }
        None
    }

    /// Replaces the tile at a position; every other tile stays as it was.
    pub fn set_tile(&mut self, position: Position, tile: TileDetails)
        requires
            tile_at(old(self).tiles@, position) is Some,
        ensures
            final(self).area == old(self).area,
            final(self).rooms == old(self).rooms,
            final(self).tiles@.len() == old(self).tiles@.len(),
            forall|p: Position| #[trigger] tile_at(final(self).tiles@, p)
                == if p == position { Some(tile) } else { tile_at(old(self).tiles@, p) },
            forall|y: int| 0 <= y < final(self).tiles@.len()
                ==> #[trigger] final(self).tiles@[y]@.len() == old(self).tiles@[y]@.len(),
    {
        let x = position.x as usize;
        let y = position.y as usize;
        let ghost old_tiles = self.tiles@;
        self.tiles[y].set(x, tile);
        assert forall|p: Position| #[trigger] tile_at(self.tiles@, p)
            == if p == position { Some(tile) } else { tile_at(old_tiles, p) } by {
            if p.y == position.y && p.x != position.x {
                assert(self.tiles@[p.y as int]@ == old_tiles[p.y as int]@.update(x as int, tile));
            }
        }
    }

    pub fn get_rooms(&self) -> (r: Vec<Room>)
        ensures
            r@.len() == self.rooms@.len(),
            forall|i: int| 0 <= i < r@.len() ==> same_room(#[trigger] r@[i], self.rooms@[i]),
    {
        let mut out: Vec<Room> = Vec::new();
        let mut i: usize = 0;
        while i < self.rooms.len()
            invariant
                i <= self.rooms@.len(),
                out@.len() == i,
                forall|k: int| 0 <= k < i ==> same_room(#[trigger] out@[k], self.rooms@[k]),
            decreases self.rooms@.len() - i,
        {
            out.push(self.rooms[i].clone());
            i += 1;
        }
        out
    }

    pub fn is_paveable(&self, position: Position) -> (r: bool)
        ensures
            r == paveable(self.tiles@, position),
    {
        match self.get_tile(position) {
            Some(tile) => {
                if tile.tile_type == Tile::NoTile {
                    true
                } else {
                    tile.traversable
                }
            },
            None => false,
        }
    }

    pub fn is_traversible(&self, position: Position) -> (r: bool)
        ensures
            r == traversable(self.tiles@, position),
    {
        match self.get_tile(position) {
            Some(tile) => tile.traversable,
            None => false,
        }
    }

    /// The neighbours of a position of the map that also lie on the map.
    pub fn get_neighbors(&self, position: Position) -> (r: Vec<Position>)
        ensures
            r@ == neighbors_within(self.area, position),
    {
        let mut results: Vec<Position> = Vec::new();
        let area = self.area;
        if area.contains(position) {
            let neighbors = position.get_neighbors();
            let ghost pred = |n: Position| area.contains_spec(n);
            let mut i: usize = 0;
            while i < neighbors.len()
                invariant
                    i <= neighbors@.len(),
                    neighbors@ == neighbors_of(position),
                    results@ == neighbors@.subrange(0, i as int).filter(pred),
                    pred == (|n: Position| area.contains_spec(n)),
                decreases neighbors@.len() - i,
            {
                let n = neighbors[i];
                proof {
                    reveal_with_fuel(Seq::filter, 1);
                    assert(neighbors@.subrange(0, i + 1).drop_last() =~= neighbors@.subrange(0, i as int));
                }
                if area.contains(n) {
                    results.push(n);
                }
                i += 1;
            }
            assert(neighbors@.subrange(0, neighbors@.len() as int) =~= neighbors@);
        }
        results
    }

    /// The first container lying at `position`, to be changed in place.
    pub fn find_container_mut(&mut self, position: Position) -> (r: Option<&mut Container>)
        ensures
            positions_unique(old(self).containers@) ==> positions_unique(final(self).containers@),
            final(self).area == old(self).area,
            final(self).tiles == old(self).tiles,
            final(self).rooms == old(self).rooms,
            match first_at(old(self).containers@, position, 0) {
                None => r is None && final(self).containers@ == old(self).containers@,
                Some(i) => {
                    &&& r is Some
                    &&& *r->0 == old(self).containers@[i].1
                    &&& final(self).containers@ == old(self).containers@.update(i, (position, *final(r->0)))
                },
            },
    {
        let ghost cs = self.containers@;
        let mut i: usize = 0;
        while i < self.containers.len()
            invariant
                *self == *old(self),
                cs == self.containers@,
                i <= cs.len(),
                first_at(cs, position, 0) == first_at(cs, position, i as int),
            decreases cs.len() - i,
        {
            if self.containers[i].0 == position {
                let entry = &mut self.containers[i];
                proof {
                    assert(first_at(cs, position, i as int) == Some(i as int));
                    lemma_replace_keeps_unique(cs, i as int);
                }
                return Some(&mut entry.1);
            }
            i += 1;
        }
        None
    }

    /// The container for `source` among those lying at `position`: the first container lying
    /// there, when it is `source` (the same item identifier), or else the container for `source`
    /// that it stores (see `locate`).
    pub fn find_container(&mut self, source: &Container, position: Position) -> (r: Option<&mut Container>)
        ensures
            positions_unique(old(self).containers@) ==> positions_unique(final(self).containers@),
            final(self).area == old(self).area,
            final(self).tiles == old(self).tiles,
            final(self).rooms == old(self).rooms,
            match first_at(old(self).containers@, position, 0) {
                None => r is None && final(self).containers@ == old(self).containers@,
                Some(i) => match locate(old(self).containers@[i].1, source.item.id) {
                    None => r is None && final(self).containers@ == old(self).containers@,
                    Some(path) => {
                        &&& r is Some
                        &&& *r->0 == at_path(old(self).containers@[i].1, path)
                        &&& exists|c1: Container| {
                            &&& replaced_at(old(self).containers@[i].1, c1, path, *final(r->0))
                            &&& final(self).containers@ == old(self).containers@.update(i, (position, c1))
                        }
                    },
                },
            },
    {
        let ghost cs = self.containers@;
        let mut i: usize = 0;
        while i < self.containers.len()
            invariant
                *self == *old(self),
                cs == self.containers@,
                i <= cs.len(),
                first_at(cs, position, 0) == first_at(cs, position, i as int),
            decreases cs.len() - i,
        {
            if self.containers[i].0 == position {
                let ghost c0 = cs[i as int].1;
                let entry = &mut self.containers[i];
                let r = find_container_mut(&mut entry.1, source.item.clone());
                proof {
                    assert(first_at(cs, position, i as int) == Some(i as int));
                    lemma_replace_keeps_unique(cs, i as int);
                }
                return r;
            }
            i += 1;
        }
        None
    }
}

/// No two of the containers lie at the same position.
pub open spec fn positions_unique(cs: Seq<(Position, Container)>) -> bool {
    forall|i: int, j: int| 0 <= i < j < cs.len() ==> #[trigger] cs[i].0 != #[trigger] cs[j].0
}

/// Replacing the container at an index, at the same position, keeps the positions unique.
pub proof fn lemma_replace_keeps_unique(cs: Seq<(Position, Container)>, i: int)
    requires
        0 <= i < cs.len(),
    ensures
        forall|c: Container| positions_unique(cs) ==> #[trigger] positions_unique(cs.update(i, (cs[i].0, c))),
{
    assert forall|c: Container| positions_unique(cs) implies #[trigger] positions_unique(cs.update(i, (cs[i].0, c))) by {
        let u = cs.update(i, (cs[i].0, c));
        assert forall|a: int, b: int| 0 <= a < b < u.len() implies #[trigger] u[a].0 != #[trigger] u[b].0 by {
            assert(u[a].0 == cs[a].0 && u[b].0 == cs[b].0);
        }
    }
}

/// With unique positions, the container found at a position is the one lying there.
pub proof fn lemma_unique_first_at(cs: Seq<(Position, Container)>, k: int)
    requires
        positions_unique(cs),
        0 <= k < cs.len(),
    ensures
        first_at(cs, cs[k].0, 0) == Some(k),
{
    lemma_first_at_from(cs, k, 0);
}

proof fn lemma_first_at_from(cs: Seq<(Position, Container)>, k: int, i: int)
    requires
        positions_unique(cs),
        0 <= i <= k < cs.len(),
    ensures
        first_at(cs, cs[k].0, i) == Some(k),
    decreases k - i,
{
    if i < k {
        assert(cs[i].0 != cs[k].0);
        lemma_first_at_from(cs, k, i + 1);
    }
}

/// The index of the first entry at `position` among `cs[i]`, `cs[i + 1]`, ...
pub open spec fn first_at(cs: Seq<(Position, Container)>, position: Position, i: int) -> Option<int>
    decreases cs.len() - i,
{
    if i < 0 || i >= cs.len() {
        None
    } else if cs[i].0 == position {
        Some(i)
    } else {
        first_at(cs, position, i + 1)
    }
}

/// The entry found is in range and lies at the position.
pub proof fn lemma_first_at(cs: Seq<(Position, Container)>, position: Position, i: int)
    requires
        0 <= i,
    ensures
        first_at(cs, position, i) matches Some(k) ==> i <= k < cs.len() && cs[k].0 == position,
    decreases cs.len() - i,
{
    if i < cs.len() && cs[i].0 != position {
        lemma_first_at(cs, position, i + 1);
    }
}

} // verus!
