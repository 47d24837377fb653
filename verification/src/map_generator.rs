use vstd::prelude::*;

use crate::door::{build_door, Door};
use crate::map::{tile_at, GameMap};
use crate::position::{
    all_sides, build_square_area, grid_pos, grown, intersects_spec, line, line_fits, mid_point, rect, rect_fits,
    side_from_roll, Area, AreaSide, Position, Side,
};
use crate::random::seeded_range;
use rand_pcg::Pcg64;
use crate::room::{build_room, Room};
use crate::tile::{build_library, is_library_entry, Tile, TileDetails, TileLibrary};

verus! {

/// Builds maps of rooms within an area.
#[derive(Debug)]
pub struct MapGenerator {
    pub min_room_size: u16,
    pub max_room_size: u16,
    pub room_area_quota_percentage: u16,
    pub room_area_percentage: u16,
    pub max_door_count: u16,
    pub tile_library: TileLibrary,
    pub map_area: Area,
    pub taken_positions: Vec<Position>,
    pub possible_room_positions: Vec<Position>,
    /// How many candidate positions the last room generation drew.
    pub rounds_drawn: u64,
}

/// A generator for the given area: rooms of 3 to 6 tiles across with up to 4 doors, placed
/// until they cover 40% of the area.
pub fn build_generator(map_area: Area) -> (g: MapGenerator)
    ensures
        g.min_room_size == 3,
        g.max_room_size == 6,
        g.room_area_quota_percentage == 40,
        g.room_area_percentage == 0,
        g.max_door_count == 4,
        g.tile_library.wf(),
        g.map_area == map_area,
        g.taken_positions@.len() == 0,
        g.possible_room_positions@.len() == 0,
        g.rounds_drawn == 0,
{
    MapGenerator {
        min_room_size: 3,
        max_room_size: 6,
        room_area_quota_percentage: 40,
        room_area_percentage: 0,
        max_door_count: 4,
        tile_library: build_library(),
        map_area,
        taken_positions: Vec::new(),
        possible_room_positions: Vec::new(),
        rounds_drawn: 0,
    }
}

/// The index of the first occurrence of `p` in `s` at or after `i`.
pub open spec fn first_index_from(s: Seq<Position>, p: Position, i: int) -> Option<int>
    decreases s.len() - i,
{
    if i < 0 || i >= s.len() {
        None
    } else if s[i] == p {
        Some(i)
    } else {
        first_index_from(s, p, i + 1)
    }
}

proof fn lemma_first_index_range(s: Seq<Position>, p: Position, i: int)
    requires
        0 <= i,
    ensures
        first_index_from(s, p, i) matches Some(r) ==> i <= r < s.len() && s[r] == p,
    decreases s.len() - i,
{
    if i < s.len() && s[i] != p {
        lemma_first_index_range(s, p, i + 1);
    }
}

proof fn lemma_first_index_skip(s: Seq<Position>, p: Position, i: int)
    requires
        0 <= i <= s.len(),
        forall|j: int| 0 <= j < i ==> #[trigger] s[j] != p,
    ensures
        first_index_from(s, p, 0) == first_index_from(s, p, i),
    decreases i,
{
    if i > 0 {
        lemma_first_index_skip(s, p, i - 1);
    }
}

/// The candidate room positions that `find_possible_room_positions` lists for a map area:
/// columns `1..end.x - 1` and rows `1..end.y - 1`, column by column.
pub open spec fn candidate_grid(map_area: Area) -> Seq<Position> {
    let ex = map_area.end_position.x;
    let ey = map_area.end_position.y;
    let cols: int = if ex >= 2 { ex - 2 } else { 0 };
    let rows: int = if ey >= 2 { ey - 2 } else { 0 };
    Seq::new((cols * rows) as nat, |k: int| grid_pos(Position { x: 1, y: 1 }, k / rows, k % rows))
}

/// Whether one of the rooms covers the position.
pub open spec fn covered(rooms: Seq<Room>, p: Position) -> bool {
    exists|i: int| 0 <= i < rooms.len() && #[trigger] rooms[i].area().contains_spec(p)
}

/// An index below `cols * rows` splits into a column below `cols` and a row below `rows`.
proof fn lemma_grid_index(k: int, cols: int, rows: int)
    requires
        0 <= k < cols * rows,
        0 <= cols,
        0 <= rows,
    ensures
        rows > 0,
        0 <= k / rows < cols,
        0 <= k % rows < rows,
        (k / rows) * rows + k % rows == k,
{
    assert(rows > 0) by (nonlinear_arith)
        requires 0 <= k < cols * rows, 0 <= cols, 0 <= rows;
    vstd::arithmetic::div_mod::lemma_fundamental_div_mod(k, rows);
    vstd::arithmetic::div_mod::lemma_mod_pos_bound(k, rows);
    let i = k / rows;
    let j = k % rows;
    assert(i * rows == rows * i) by (nonlinear_arith);
    assert(0 <= i < cols) by (nonlinear_arith)
        requires k == i * rows + j, 0 <= j < rows, 0 <= k < cols * rows, rows > 0;
}

/// The positions appended by `find_possible_room_positions` are the candidate grid.
proof fn lemma_candidate_grid(before: Seq<Position>, after: Seq<Position>, map_area: Area, cols: int, rows: int)
    requires
        cols == if map_area.end_position.x >= 2 { map_area.end_position.x - 2 } else { 0 },
        rows == if map_area.end_position.y >= 2 { map_area.end_position.y - 2 } else { 0 },
        after.len() == before.len() + cols * rows,
        after.subrange(0, before.len() as int) == before,
        forall|i: int, j: int| 0 <= i < cols && 0 <= j < rows
            ==> #[trigger] after[before.len() + i * rows + j] == grid_pos(Position { x: 1, y: 1 }, i, j),
    ensures
        after == before + candidate_grid(map_area),
{
    let g = candidate_grid(map_area);
    assert forall|k: int| 0 <= k < after.len() implies after[k] == (before + g)[k] by {
        if k < before.len() {
            assert(after[k] == after.subrange(0, before.len() as int)[k]);
        } else {
            let m = k - before.len();
            lemma_grid_index(m, cols, rows);
            let i = m / rows;
            let j = m % rows;
            assert(0 <= i < cols && 0 <= j < rows);
            assert(after[before.len() + i * rows + j] == grid_pos(Position { x: 1, y: 1 }, i, j));
            assert(before.len() + i * rows + j == k);
            assert(g[m] == grid_pos(Position { x: 1, y: 1 }, i, j));
        }
    }
    assert(after =~= before + g);
}

/// A position of a square area listed by `get_positions` lies in the area, and each position of
/// the area is listed.
proof fn lemma_listed_positions(area: Area, positions: Seq<Position>)
    requires
        area.end_position.x < u16::MAX,
        area.end_position.y < u16::MAX,
        area.start_position.x <= area.end_position.x,
        area.start_position.y <= area.end_position.y,
        positions.len() == area.columns() * area.rows(),
        forall|i: int, j: int| 0 <= i < area.columns() && 0 <= j < area.rows()
            ==> #[trigger] positions[i * area.rows() + j] == grid_pos(area.start_position, i, j),
    ensures
        forall|q: int| 0 <= q < positions.len() ==> area.contains_spec(#[trigger] positions[q]),
        forall|x: Position| area.contains_spec(x) ==> exists|q: int| 0 <= q < positions.len() && #[trigger] positions[q] == x,
{
    let cols = area.columns();
    let rows = area.rows();
    assert forall|q: int| 0 <= q < positions.len() implies area.contains_spec(#[trigger] positions[q]) by {
        lemma_grid_index(q, cols, rows);
        assert(positions[(q / rows) * rows + q % rows] == grid_pos(area.start_position, q / rows, q % rows));
    }
    assert forall|x: Position| area.contains_spec(x) implies exists|q: int| 0 <= q < positions.len() && #[trigger] positions[q] == x by {
        let i = x.x - area.start_position.x;
        let j = x.y - area.start_position.y;
        assert(0 <= i < cols && 0 <= j < rows);
        assert(positions[i * rows + j] == grid_pos(area.start_position, i, j));
        assert(i * rows + j < cols * rows) by (nonlinear_arith)
            requires 0 <= i < cols, 0 <= j < rows;
        assert(0 <= i * rows + j) by (nonlinear_arith)
            requires 0 <= i, 0 <= j, 0 <= rows;
    }
}

/// How the candidate positions have moved so far: the taken positions extend the ones before;
/// together with the candidates left they are the candidates `cand` (as a multiset); every newly
/// taken position lies in one of `rooms`; and, when `cand` lists no position twice, none of the
/// candidates left lies in a room.
pub open spec fn candidates_tracked(
    possible: Seq<Position>,
    taken: Seq<Position>,
    old_taken: Seq<Position>,
    cand: Seq<Position>,
    rooms: Seq<Room>,
) -> bool {
    &&& taken.len() >= old_taken.len()
    &&& taken.subrange(0, old_taken.len() as int) == old_taken
    &&& possible.to_multiset().add(taken.subrange(old_taken.len() as int, taken.len() as int).to_multiset()) == cand.to_multiset()
    &&& forall|k: int| old_taken.len() <= k < taken.len() ==> covered(rooms, #[trigger] taken[k])
    &&& cand.no_duplicates() ==> {
        &&& possible.no_duplicates()
        &&& forall|k: int| 0 <= k < possible.len() ==> !covered(rooms, #[trigger] possible[k])
    }
}

proof fn lemma_first_index_none(s: Seq<Position>, p: Position, i: int)
    requires
        0 <= i,
        first_index_from(s, p, i) is None,
    ensures
        forall|k: int| i <= k < s.len() ==> #[trigger] s[k] != p,
    decreases s.len() - i,
{
    if i < s.len() {
        lemma_first_index_none(s, p, i + 1);
    }
}

/// Removing the first occurrence of `pos` from the candidates and recording it as taken keeps
/// the multiset of candidates and newly taken positions, and, without repeated candidates, the
/// candidates left are those before except `pos`.
proof fn lemma_take_position(
    before_p: Seq<Position>,
    before_t: Seq<Position>,
    after_p: Seq<Position>,
    after_t: Seq<Position>,
    old_taken: Seq<Position>,
    cand: Seq<Position>,
    pos: Position,
)
    requires
        before_t.len() >= old_taken.len(),
        before_t.subrange(0, old_taken.len() as int) == old_taken,
        before_p.to_multiset().add(before_t.subrange(old_taken.len() as int, before_t.len() as int).to_multiset()) == cand.to_multiset(),
        match first_index_from(before_p, pos, 0) {
            Some(i) => after_p == before_p.remove(i) && after_t == before_t.push(pos),
            None => after_p == before_p && after_t == before_t,
        },
    ensures
        after_t.len() >= old_taken.len(),
        after_t.subrange(0, old_taken.len() as int) == old_taken,
        after_p.to_multiset().add(after_t.subrange(old_taken.len() as int, after_t.len() as int).to_multiset()) == cand.to_multiset(),
        forall|k: int| old_taken.len() <= k < after_t.len() ==> #[trigger] after_t[k] == pos || (k < before_t.len() && after_t[k] == before_t[k]),
        forall|k: int| 0 <= k < after_p.len() ==> exists|j: int| 0 <= j < before_p.len() && #[trigger] before_p[j] == #[trigger] after_p[k],
        before_p.no_duplicates() ==> after_p.no_duplicates() && forall|k: int| 0 <= k < after_p.len() ==> #[trigger] after_p[k] != pos,
{
    broadcast use vstd::seq_lib::group_to_multiset_ensures;
    let ot = old_taken.len() as int;
    match first_index_from(before_p, pos, 0) {
        Some(i) => {
            lemma_first_index_range(before_p, pos, 0);
            assert(after_t.subrange(0, ot) =~= before_t.subrange(0, ot));
            let tb = before_t.subrange(ot, before_t.len() as int);
            assert(after_t.subrange(ot, after_t.len() as int) =~= tb.push(pos));
            assert(before_p.to_multiset().count(pos) > 0) by {
                assert(before_p.contains(pos));
            }
            assert(after_p.to_multiset().add(tb.push(pos).to_multiset()) =~= before_p.to_multiset().add(tb.to_multiset()));
            assert forall|k: int| 0 <= k < after_p.len() implies exists|j: int| 0 <= j < before_p.len() && #[trigger] before_p[j] == #[trigger] after_p[k] by {
                if k < i {
                    assert(before_p[k] == after_p[k]);
                } else {
                    assert(before_p[k + 1] == after_p[k]);
                }
            }
            if before_p.no_duplicates() {
                assert forall|k: int| 0 <= k < after_p.len() implies #[trigger] after_p[k] != pos by {
                    if k < i {
                        assert(before_p[k] == after_p[k]);
                    } else {
                        assert(before_p[k + 1] == after_p[k]);
                    }
                }
                assert forall|a: int, b: int| 0 <= a < b < after_p.len() implies after_p[a] != after_p[b] by {
                    let a2 = if a < i { a } else { a + 1 };
                    let b2 = if b < i { b } else { b + 1 };
                    assert(after_p[a] == before_p[a2]);
                    assert(after_p[b] == before_p[b2]);
                }
            }
        },
        None => {
            lemma_first_index_none(before_p, pos, 0);
            assert forall|k: int| 0 <= k < after_p.len() implies exists|j: int| 0 <= j < before_p.len() && #[trigger] before_p[j] == #[trigger] after_p[k] by {
                assert(before_p[k] == after_p[k]);
            }
        },
    }
}

/// What moving the candidates `p0` that lie in `area` to the taken positions `t0` gives: the
/// taken positions extend `t0`; together with the candidates `p1` left they are the candidates
/// `p0` (as a multiset); each newly taken position lies in `area`; each candidate left was a
/// candidate; and, when `p0` lists no position twice, no candidate left lies in `area`.
pub open spec fn moved_into(p0: Seq<Position>, t0: Seq<Position>, p1: Seq<Position>, t1: Seq<Position>, area: Area) -> bool {
    &&& t1.len() >= t0.len()
    &&& t1.subrange(0, t0.len() as int) == t0
    &&& p1.to_multiset().add(t1.subrange(t0.len() as int, t1.len() as int).to_multiset()) == p0.to_multiset()
    &&& forall|k: int| t0.len() <= k < t1.len() ==> area.contains_spec(#[trigger] t1[k])
    &&& forall|k: int| 0 <= k < p1.len() ==> p0.contains(#[trigger] p1[k])
    &&& p0.no_duplicates() ==> {
        &&& p1.no_duplicates()
        &&& forall|k: int| 0 <= k < p1.len() ==> !area.contains_spec(#[trigger] p1[k])
    }
}

/// The share of a map of `total` tiles that the rooms cover: each room's area in whole percent,
/// rounded down, summed over the rooms.
pub open spec fn room_usage(rooms: Seq<Room>, total: int) -> int
    decreases rooms.len(),
{
    if rooms.len() == 0 {
        0
    } else {
        room_usage(rooms.drop_last(), total) + rooms.last().area().size_x * rooms.last().area().size_y * 100 / total
    }
}

/// Whether a square room of `size` at `position` can be placed: it fits in the map, it neither
/// overlaps nor touches any of `rooms`, and the rooms placed so far, `room_area_total` tiles,
/// leave part of the map's `total_area` tiles free.
pub open spec fn room_fits(map_area: Area, rooms: Seq<Room>, position: Position, size: u16, room_area_total: int, total_area: int) -> bool {
    &&& map_area.can_fit_spec(position, size)
    &&& forall|j: int| 0 <= j < rooms.len() ==> !intersects_spec(grown(#[trigger] rooms[j].area()), rect(position, size, size))
    &&& room_area_total < total_area
}

/// The number of tiles the rooms cover: each room's area, summed.
pub open spec fn rooms_area(rooms: Seq<Room>) -> int
    decreases rooms.len(),
{
    if rooms.len() == 0 {
        0
    } else {
        rooms_area(rooms.drop_last()) + rooms.last().area().size_x * rooms.last().area().size_y
    }
}

/// No room of any size from `min` to `max` can be placed at any of the candidate positions
/// (see `room_fits`): it would leave the map or touch one of the rooms.
pub open spec fn all_blocked(map_area: Area, rooms: Seq<Room>, possible: Seq<Position>, min: u16, max: u16) -> bool {
    forall|k: int, size: u16| 0 <= k < possible.len() && min <= size <= max
        ==> !#[trigger] room_fits(map_area, rooms, possible[k], size, rooms_area(rooms), map_area.size_x * map_area.size_y)
}

/// The state that room generation keeps from round to round: the generator's settings as
/// they were, the rooms valid and apart, the running totals of tiles and of whole percents
/// matching the rooms, and the candidates tracked.
pub open spec fn generation_state(
    g: MapGenerator,
    g0: MapGenerator,
    rooms: Seq<Room>,
    room_area_total: int,
    usage: int,
    total_area: int,
    old_taken: Seq<Position>,
    cand: Seq<Position>,
) -> bool {
    &&& g.can_generate()
    &&& g.min_room_size == g0.min_room_size
    &&& g.max_room_size == g0.max_room_size
    &&& g.max_door_count == g0.max_door_count
    &&& g.map_area == g0.map_area
    &&& g.tile_library == g0.tile_library
    &&& g.room_area_quota_percentage == g0.room_area_quota_percentage
    &&& total_area == g.map_area.size_x * g.map_area.size_y
    &&& total_area > 0
    &&& usage == room_usage(rooms, total_area)
    &&& usage <= g.room_area_quota_percentage + 100
    &&& room_area_total == rooms_area(rooms)
    &&& room_area_total <= 2 * u16::MAX
    &&& forall|i: int| 0 <= i < rooms.len() ==> valid_room(#[trigger] rooms[i], g0.map_area, g0.min_room_size, g0.max_room_size)
    &&& rooms_apart(rooms)
    &&& candidates_tracked(g.possible_room_positions@, g.taken_positions@, old_taken, cand, rooms)
}

/// With no rooms placed, the remaining candidates are all of them; so when those are all
/// blocked, or none remain, every candidate is blocked on the empty map.
proof fn lemma_nothing_placed(
    possible: Seq<Position>,
    taken: Seq<Position>,
    old_taken: Seq<Position>,
    cand: Seq<Position>,
    map_area: Area,
    min: u16,
    max: u16,
)
    requires
        candidates_tracked(possible, taken, old_taken, cand, Seq::<Room>::empty()),
        possible.len() == 0 || all_blocked(map_area, Seq::<Room>::empty(), possible, min, max),
    ensures
        forall|k: int, size: u16| 0 <= k < cand.len() && min <= size <= max
            ==> !#[trigger] room_fits(map_area, Seq::<Room>::empty(), cand[k], size, 0, map_area.size_x * map_area.size_y),
{
    let added = taken.subrange(old_taken.len() as int, taken.len() as int);
    if added.len() > 0 {
        assert(covered(Seq::<Room>::empty(), taken[old_taken.len() as int]));
    }
    assert(added =~= Seq::<Position>::empty());
    assert(possible.to_multiset() =~= cand.to_multiset()) by {
        broadcast use vstd::seq_lib::group_to_multiset_ensures;
    }
    assert forall|k: int, size: u16| 0 <= k < cand.len() && min <= size <= max
        implies !#[trigger] room_fits(map_area, Seq::<Room>::empty(), cand[k], size, 0, map_area.size_x * map_area.size_y) by {
        broadcast use vstd::seq_lib::group_to_multiset_ensures;
        assert(cand.to_multiset().count(cand[k]) > 0);
        assert(possible.contains(cand[k]));
        let j = choose|j: int| 0 <= j < possible.len() && possible[j] == cand[k];
        assert(rooms_area(Seq::<Room>::empty()) == 0);
        assert(!room_fits(map_area, Seq::<Room>::empty(), possible[j], size, rooms_area(Seq::<Room>::empty()), map_area.size_x * map_area.size_y));
    }
}

/// Placing one more room keeps track of the candidates.
proof fn lemma_tracked_step(
    p0: Seq<Position>,
    t0: Seq<Position>,
    p1: Seq<Position>,
    t1: Seq<Position>,
    old_taken: Seq<Position>,
    cand: Seq<Position>,
    rooms: Seq<Room>,
    room: Room,
)
    requires
        candidates_tracked(p0, t0, old_taken, cand, rooms),
        moved_into(p0, t0, p1, t1, room.area()),
    ensures
        candidates_tracked(p1, t1, old_taken, cand, rooms.push(room)),
{
    let ot = old_taken.len() as int;
    let n0 = t0.len() as int;
    let rs = rooms.push(room);
    assert forall|k: int| 0 <= k < n0 implies t1[k] == t0[k] by {
        assert(t1.subrange(0, n0)[k] == t1[k]);
    }
    assert(t1.subrange(0, ot) =~= old_taken) by {
        assert forall|k: int| 0 <= k < ot implies t1.subrange(0, ot)[k] == old_taken[k] by {
            assert(t0.subrange(0, ot)[k] == t0[k]);
        }
    }
    let a = t0.subrange(ot, n0);
    let d = t1.subrange(n0, t1.len() as int);
    assert(t1.subrange(ot, t1.len() as int) =~= a + d);
    vstd::seq_lib::lemma_multiset_commutative(a, d);
    assert(p1.to_multiset().add((a + d).to_multiset()) =~= cand.to_multiset());
    assert(rs[rooms.len() as int] == room);
    assert forall|k: int| ot <= k < t1.len() implies covered(rs, #[trigger] t1[k]) by {
        if k < n0 {
            assert(t1[k] == t0[k]);
            assert(covered(rooms, t0[k]));
            let i = choose|i: int| 0 <= i < rooms.len() && #[trigger] rooms[i].area().contains_spec(t0[k]);
            assert(rs[i] == rooms[i]);
        } else {
            assert(rs[rooms.len() as int].area().contains_spec(t1[k]));
        }
    }
    if cand.no_duplicates() {
        assert forall|k: int| 0 <= k < p1.len() implies !covered(rs, #[trigger] p1[k]) by {
            let x = p1[k];
            assert(p0.contains(x));
            let j = choose|j: int| 0 <= j < p0.len() && p0[j] == x;
            assert(!covered(rooms, p0[j]));
            if covered(rs, x) {
                let i = choose|i: int| 0 <= i < rs.len() && #[trigger] rs[i].area().contains_spec(x);
                if i < rooms.len() {
                    assert(rs[i] == rooms[i]);
                    assert(covered(rooms, x));
                }
            }
        }
    }
}

/// A door as `build_door` makes it, at the given position.
pub open spec fn new_door_at(d: Door, p: Position) -> bool {
    &&& is_library_entry(d.tile_details, Tile::Door)
    &&& d.position == p
    &&& !d.open
    &&& !d.locked
    &&& d.health == 100
    &&& d.locks == 0
    &&& d.unlocked_locks == 0
}

/// Each door sits at the middle of a different side of the square room of `size` at `start`.
pub open spec fn doors_on_distinct_sides(start: Position, size: u16, doors: Seq<Door>, sides: Seq<Side>) -> bool {
    &&& sides.len() == doors.len()
    &&& sides.no_duplicates()
    &&& forall|i: int| 0 <= i < doors.len() ==> #[trigger] new_door_at(doors[i], mid_point(line(start, size, sides[i])))
}

/// A room as `generate_room` makes it: the square of `size` at `start`, with no entry or exit
/// and between one and four doors, each at the middle of a different side.
pub open spec fn generated_room(r: Room, start: Position, size: u16) -> bool {
    &&& r.area() == rect(start, size, size)
    &&& r.entry() is None
    &&& r.exit() is None
    &&& 1 <= r.doors().len() <= 4
    &&& exists|sides: Seq<Side>| doors_on_distinct_sides(start, size, r.doors(), sides)
}

impl MapGenerator {
    /// Removes the first occurrence of `position` from the possible room positions and records
    /// it as taken; `None` when it was not possible.
    pub fn remove_possible_position(&mut self, position: Position) -> (r: Option<Position>)
        ensures
            final(self).rounds_drawn == old(self).rounds_drawn,
            final(self).room_area_percentage == old(self).room_area_percentage,
            final(self).min_room_size == old(self).min_room_size,
            final(self).max_room_size == old(self).max_room_size,
            final(self).room_area_quota_percentage == old(self).room_area_quota_percentage,
            final(self).max_door_count == old(self).max_door_count,
            final(self).map_area == old(self).map_area,
            final(self).tile_library == old(self).tile_library,
            match first_index_from(old(self).possible_room_positions@, position, 0) {
                Some(i) => {
                    &&& r == Some(position)
                    &&& final(self).possible_room_positions@ == old(self).possible_room_positions@.remove(i)
                    &&& final(self).taken_positions@ == old(self).taken_positions@.push(position)
                },
                None => {
                    &&& r is None
                    &&& final(self).possible_room_positions@ == old(self).possible_room_positions@
                    &&& final(self).taken_positions@ == old(self).taken_positions@
                },
            },
    {
        let mut i: usize = 0;
        while i < self.possible_room_positions.len()
            invariant
                *self == *old(self),
                i <= self.possible_room_positions@.len(),
                forall|j: int| 0 <= j < i ==> #[trigger] self.possible_room_positions@[j] != position,
            decreases self.possible_room_positions@.len() - i,
        {
            if self.possible_room_positions[i] == position {
                proof {
                    lemma_first_index_skip(self.possible_room_positions@, position, i as int);
                }
                self.possible_room_positions.remove(i);
                self.taken_positions.push(position);
                return Some(position);
            }
            i += 1;
        }
        proof {
            lemma_first_index_skip(self.possible_room_positions@, position, i as int);
        }
        None
    }

    /// Appends every position strictly inside the map's outer boundary, away from the last row
    /// and column as well: columns `1..end.x - 1` and rows `1..end.y - 1`, column by column.
    pub fn find_possible_room_positions(&mut self)
        requires
            old(self).map_area.end_position.x >= 1,
            old(self).map_area.end_position.y >= 1,
        ensures
            final(self).min_room_size == old(self).min_room_size,
            final(self).max_room_size == old(self).max_room_size,
            final(self).room_area_quota_percentage == old(self).room_area_quota_percentage,
            final(self).max_door_count == old(self).max_door_count,
            final(self).map_area == old(self).map_area,
            final(self).tile_library == old(self).tile_library,
            final(self).taken_positions@ == old(self).taken_positions@,
            ({
                let ex = old(self).map_area.end_position.x;
                let ey = old(self).map_area.end_position.y;
                let cols: int = if ex >= 2 { ex - 2 } else { 0 };
                let rows: int = if ey >= 2 { ey - 2 } else { 0 };
                let old_len = old(self).possible_room_positions@.len();
                &&& final(self).possible_room_positions@.len() == old_len + cols * rows
                &&& final(self).possible_room_positions@.subrange(0, old_len as int) == old(self).possible_room_positions@
                &&& forall|i: int, j: int| 0 <= i < cols && 0 <= j < rows
                    ==> #[trigger] final(self).possible_room_positions@[old_len + i * rows + j] == grid_pos(Position { x: 1, y: 1 }, i, j)
            }),
            forall|k: int| old(self).possible_room_positions@.len() <= k < final(self).possible_room_positions@.len() ==> {
                &&& 1 <= #[trigger] final(self).possible_room_positions@[k].x < old(self).map_area.end_position.x - 1
                &&& 1 <= final(self).possible_room_positions@[k].y < old(self).map_area.end_position.y - 1
            },
            final(self).possible_room_positions@ == old(self).possible_room_positions@ + candidate_grid(old(self).map_area),
    {
        let ex = self.map_area.end_position.x;
        let ey = self.map_area.end_position.y;
        let ghost cols: int = if ex >= 2 { ex - 2 } else { 0 };
        let ghost rows: int = if ey >= 2 { ey - 2 } else { 0 };
        let ghost old_len = self.possible_room_positions@.len() as int;
        let ghost old_seq = self.possible_room_positions@;
        let mut x: u16 = 1;
        while x < ex - 1
            invariant
                ex == self.map_area.end_position.x,
                ey == self.map_area.end_position.y,
                ex >= 1,
                ey >= 1,
                cols == if ex >= 2 { ex - 2 } else { 0 },
                rows == if ey >= 2 { ey - 2 } else { 0 },
                1 <= x,
                x <= ex - 1 || x == 1,
                old_len == old_seq.len(),
                self.possible_room_positions@.len() == old_len + (x - 1) * rows,
                self.possible_room_positions@.subrange(0, old_len) == old_seq,
                self.map_area == old(self).map_area,
                self.min_room_size == old(self).min_room_size,
                self.max_room_size == old(self).max_room_size,
                self.room_area_quota_percentage == old(self).room_area_quota_percentage,
                self.max_door_count == old(self).max_door_count,
                self.tile_library == old(self).tile_library,
                self.taken_positions@ == old(self).taken_positions@,
                forall|k: int| old_len <= k < self.possible_room_positions@.len() ==> {
                    &&& 1 <= #[trigger] self.possible_room_positions@[k].x < ex - 1
                    &&& 1 <= self.possible_room_positions@[k].y < ey - 1
                },
                forall|i: int, j: int| 0 <= i < x - 1 && 0 <= j < rows
                    ==> #[trigger] self.possible_room_positions@[old_len + i * rows + j] == grid_pos(Position { x: 1, y: 1 }, i, j),
            decreases ex - x,
        {
            let ghost before = self.possible_room_positions@;
            let ghost i0: int = x - 1;
            let mut y: u16 = 1;
            while y < ey - 1
                invariant
                    ex == self.map_area.end_position.x,
                    ey == self.map_area.end_position.y,
                    ey >= 1,
                    1 <= x,
                    x < ex - 1,
                    i0 == x - 1,
                    rows == if ey >= 2 { ey - 2 } else { 0 },
                    1 <= y,
                    y <= ey - 1 || y == 1,
                    before.len() == old_len + i0 * rows,
                    self.possible_room_positions@.len() == before.len() + (y - 1),
                    forall|k: int| 0 <= k < before.len() ==> self.possible_room_positions@[k] == before[k],
                    0 <= old_len <= before.len(),
                    forall|k: int| old_len <= k < self.possible_room_positions@.len() ==> {
                        &&& 1 <= #[trigger] self.possible_room_positions@[k].x < ex - 1
                        &&& 1 <= self.possible_room_positions@[k].y < ey - 1
                    },
                    forall|j: int| 0 <= j < y - 1 ==> #[trigger] self.possible_room_positions@[old_len + i0 * rows + j] == grid_pos(Position { x: 1, y: 1 }, i0, j),
                    self.map_area == old(self).map_area,
                    self.min_room_size == old(self).min_room_size,
                    self.max_room_size == old(self).max_room_size,
                    self.room_area_quota_percentage == old(self).room_area_quota_percentage,
                    self.max_door_count == old(self).max_door_count,
                    self.tile_library == old(self).tile_library,
                    self.taken_positions@ == old(self).taken_positions@,
                decreases ey - y,
            {
                let ghost prev = self.possible_room_positions@;
                self.possible_room_positions.push(Position { x, y });
                proof {
                    assert(self.possible_room_positions@ == prev.push(Position { x, y }));
                    assert forall|k: int| old_len <= k < self.possible_room_positions@.len() implies {
                        &&& 1 <= #[trigger] self.possible_room_positions@[k].x < ex - 1
                        &&& 1 <= self.possible_room_positions@[k].y < ey - 1
                    } by {
                        if k < prev.len() {
                            assert(prev.push(Position { x, y })[k] == prev[k]);
                        }
                    }
                }
                y += 1;
            }
            proof {
                if ey >= 2 {
                    assert(y - 1 == rows);
                } else {
                    assert(y == 1);
                    assert(rows == 0);
                }
                assert forall|i: int, j: int| 0 <= i <= i0 && 0 <= j < rows
                    implies #[trigger] self.possible_room_positions@[old_len + i * rows + j] == grid_pos(Position { x: 1, y: 1 }, i, j) by {
                    if i < i0 {
                        lemma_index_in_column(i, j, i0, rows);
                        assert(self.possible_room_positions@[old_len + i * rows + j] == before[old_len + i * rows + j]);
                    }
                }
                assert(x * rows == (x - 1) * rows + rows) by (nonlinear_arith);
                assert(self.possible_room_positions@.subrange(0, old_len) =~= old_seq) by {
                    assert forall|k: int| 0 <= k < old_len implies self.possible_room_positions@[k] == old_seq[k] by {
                        assert(before.subrange(0, old_len)[k] == old_seq[k]);
                    }
                }
            }
            x += 1;
        }
        proof {
            if ex >= 2 {
                assert(x - 1 == cols);
            } else {
                assert(x == 1);
                assert(cols == 0);
            }
            lemma_candidate_grid(old_seq, self.possible_room_positions@, self.map_area, cols, rows);
        }
    }

    /// A grid of empty tiles covering the map area, one row per row of the area.
    pub fn build_empty_tiles(&self) -> (tiles: Vec<Vec<TileDetails>>)
        requires
            self.tile_library.wf(),
            self.map_area.start_position.x <= self.map_area.end_position.x,
            self.map_area.start_position.y <= self.map_area.end_position.y,
        ensures
            tiles@.len() == self.map_area.end_position.y - self.map_area.start_position.y + 1,
            forall|y: int| 0 <= y < tiles@.len() ==> #[trigger] tiles@[y]@.len() == self.map_area.end_position.x - self.map_area.start_position.x + 1,
            forall|y: int, x: int| 0 <= y < tiles@.len() && 0 <= x < tiles@[y]@.len() ==> is_library_entry(#[trigger] tiles@[y]@[x], Tile::NoTile),
    {
        let sx = self.map_area.start_position.x as u32;
        let sy = self.map_area.start_position.y as u32;
        let ex = self.map_area.end_position.x as u32;
        let ey = self.map_area.end_position.y as u32;
        let mut map_tiles: Vec<Vec<TileDetails>> = Vec::new();
        let mut y: u32 = sy;
        while y <= ey
            invariant
                self.tile_library.wf(),
                sx <= ex,
                sy <= y,
                y <= ey + 1,
                ey <= u16::MAX,
                ex <= u16::MAX,
                map_tiles@.len() == y - sy,
                forall|r: int| 0 <= r < map_tiles@.len() ==> #[trigger] map_tiles@[r]@.len() == ex - sx + 1,
                forall|r: int, c: int| 0 <= r < map_tiles@.len() && 0 <= c < map_tiles@[r]@.len() ==> is_library_entry(#[trigger] map_tiles@[r]@[c], Tile::NoTile),
            decreases ey + 1 - y,
        {
            let mut row: Vec<TileDetails> = Vec::new();
            let mut x: u32 = sx;
            while x <= ex
                invariant
                    self.tile_library.wf(),
                    sx <= x,
                    x <= ex + 1,
                    ex <= u16::MAX,
                    row@.len() == x - sx,
                    forall|c: int| 0 <= c < row@.len() ==> is_library_entry(#[trigger] row@[c], Tile::NoTile),
                decreases ex + 1 - x,
            {
                row.push(self.tile_library.get(Tile::NoTile));
                x += 1;
            }
            map_tiles.push(row);
            y += 1;
        }
        map_tiles
    }

    /// A square room of `size` at `room_pos` with a random number of doors, from one up to the
    /// maximum: for each door a random side is drawn, and a door is placed at the middle of that
    /// side unless the side already has one.
    pub fn generate_room(&self, rng: &mut Pcg64, room_pos: Position, size: u16) -> (room: Room)
        requires
            line_fits(room_pos, size),
            self.max_door_count >= 1,
        ensures
            generated_room(room, room_pos, size),
    {
        let room_area = build_square_area(room_pos, size);
        let room_sides = room_area.get_sides();
        let door_count = seeded_range(rng, 1, self.max_door_count as u64 + 1);
        let mut chosen_sides: Vec<Side> = Vec::new();
        let mut doors: Vec<Door> = Vec::new();
        let mut n: u64 = 0;
        while n < door_count
            invariant
                1 <= door_count,
                n <= door_count,
                room_sides@ == seq![
                    line(room_pos, size, Side::LEFT),
                    line(room_pos, size, Side::RIGHT),
                    line(room_pos, size, Side::TOP),
                    line(room_pos, size, Side::BOTTOM),
                ],
                line_fits(room_pos, size),
                doors_on_distinct_sides(room_pos, size, doors@, chosen_sides@),
                n > 0 ==> doors@.len() >= 1,
                doors@.len() <= n,
                doors@.len() <= 4,
            decreases door_count - n,
        {
            let side = side_from_roll(seeded_range(rng, 0, 8) as u32);
            let mut taken = false;
            let mut k: usize = 0;
            while k < chosen_sides.len()
                invariant
                    k <= chosen_sides@.len(),
                    taken == exists|j: int| 0 <= j < k && chosen_sides@[j] == side,
                decreases chosen_sides@.len() - k,
            {
                if chosen_sides[k] == side {
                    taken = true;
                }
                k += 1;
            }
            if !taken {
                proof {
                    lemma_sides_bound(chosen_sides@, side);
                }
                let mut idx: usize = 0;
                while idx < 3 && room_sides[idx].side != side
                    invariant
                        idx <= 3,
                        room_sides@ == seq![
                            line(room_pos, size, Side::LEFT),
                            line(room_pos, size, Side::RIGHT),
                            line(room_pos, size, Side::TOP),
                            line(room_pos, size, Side::BOTTOM),
                        ],
                        forall|j: int| 0 <= j < idx ==> room_sides@[j].side != side,
                    decreases 3 - idx,
                {
                    idx += 1;
                }
                let area_side = room_sides[idx];
                assert(area_side == line(room_pos, size, side));
                let door_position = area_side.get_mid_point();
                let door = build_door(door_position);
                let ghost old_sides = chosen_sides@;
                let ghost old_doors = doors@;
                chosen_sides.push(side);
                doors.push(door);
                proof {
                    assert forall|i: int| 0 <= i < doors@.len() implies #[trigger] new_door_at(doors@[i], mid_point(line(room_pos, size, chosen_sides@[i]))) by {
                        if i < old_doors.len() {
                            assert(doors@[i] == old_doors[i]);
                            assert(chosen_sides@[i] == old_sides[i]);
                        }
                    }
                    assert(chosen_sides@.no_duplicates()) by {
                        assert forall|a: int, b: int| 0 <= a < b < chosen_sides@.len() implies chosen_sides@[a] != chosen_sides@[b] by {
                            if b < old_sides.len() {
                                assert(old_sides.no_duplicates());
                            } else {
                                assert(chosen_sides@[a] == old_sides[a]);
                            }
                        }
                    }
                }
            }
            n += 1;
        }
        let mut room = build_room(room_area, doors);
        proof {
            assert(doors_on_distinct_sides(room_pos, size, room.doors(), chosen_sides@));
        }
        room
    }
}


/// A placed room: a generated square room of an allowed size that fits in the map area.
pub open spec fn valid_room(r: Room, map_area: Area, min: u16, max: u16) -> bool {
    let s = r.area().start_position;
    let z = r.area().size_x;
    &&& generated_room(r, s, z)
    &&& map_area.can_fit_spec(s, z)
    &&& min <= z <= max
}

/// No room overlaps or touches a room placed before it.
pub open spec fn rooms_apart(rooms: Seq<Room>) -> bool {
    forall|i: int, j: int| 0 <= i < j < rooms.len() ==> !intersects_spec(grown(#[trigger] rooms[i].area()), #[trigger] rooms[j].area())
}

/// Every candidate position leaves room for the largest room on both axes.
pub open spec fn positions_bounded(s: Seq<Position>, max: u16) -> bool {
    forall|i: int| 0 <= i < s.len() ==> #[trigger] s[i].x + max <= u16::MAX && s[i].y + max <= u16::MAX
}

proof fn lemma_square_within(size: int, sx: int, sy: int)
    requires
        0 <= size <= sx,
        size <= sy,
    ensures
        size * size <= sx * sy,
{
    assert(size * size <= sx * size) by (nonlinear_arith)
        requires 0 <= size <= sx;
    assert(sx * size <= sx * sy) by (nonlinear_arith)
        requires 0 <= size <= sy, 0 <= sx;
}

proof fn lemma_percentage(room_area: int, total: int)
    requires
        0 <= room_area <= total,
        total > 0,
    ensures
        0 <= room_area * 100 / total <= 100,
{
    assert(room_area * 100 <= total * 100) by (nonlinear_arith)
        requires room_area <= total;
    assert(room_area * 100 / total <= total * 100 / total) by (nonlinear_arith)
        requires room_area * 100 <= total * 100, total > 0, room_area >= 0;
    assert(total * 100 / total == 100) by (nonlinear_arith)
        requires total > 0;
    assert(room_area * 100 / total >= 0) by (nonlinear_arith)
        requires room_area >= 0, total > 0;
}

impl MapGenerator {
    /// The generator's settings allow rooms to be placed: room sizes are at least 1 and ordered,
    /// rooms have at least one door, the map area is consistent and leaves room for the largest
    /// room before the end of the position range, and the quota leaves room to count past it.
    pub open spec fn can_generate(&self) -> bool {
        &&& 1 <= self.min_room_size <= self.max_room_size
        &&& self.max_door_count >= 1
        &&& self.map_area.wf()
        &&& self.map_area.size_x * self.map_area.size_y <= u16::MAX
        &&& self.map_area.end_position.x >= 1
        &&& self.map_area.end_position.y >= 1
        &&& self.map_area.end_position.x + self.max_room_size < u16::MAX
        &&& self.map_area.end_position.y + self.max_room_size < u16::MAX
        &&& self.room_area_quota_percentage <= u16::MAX - 100
        &&& positions_bounded(self.possible_room_positions@, self.max_room_size)
    }

    /// Whether a square room of `size` can be placed at `position` (see `room_fits`).
    fn room_fits_at(&self, rooms: &Vec<Room>, position: Position, size: u16, room_area_total: u32, total_area: u16) -> (r: bool)
        requires
            self.can_generate(),
            position.x + self.max_room_size <= u16::MAX,
            position.y + self.max_room_size <= u16::MAX,
            1 <= size <= self.max_room_size,
        ensures
            r == room_fits(self.map_area, rooms@, position, size, room_area_total as int, total_area as int),
    {
        let potential_area = build_square_area(position, size);
        let mut position_taken = false;
        let mut k: usize = 0;
        while k < rooms.len()
            invariant
                k <= rooms@.len(),
                potential_area == rect(position, size, size),
                position_taken == exists|j: int| 0 <= j < k && intersects_spec(grown(#[trigger] rooms@[j].area()), potential_area),
            decreases rooms@.len() - k,
        {
            let taken_area = rooms[k].get_area();
            if taken_area.intersects_or_touches(potential_area) {
                position_taken = true;
            }
            k += 1;
        }
        self.map_area.can_fit(position, size) && !position_taken && room_area_total < total_area as u32
    }

    /// The first candidate position, in list order, with the smallest size that can be placed
    /// there; `None` when every candidate is blocked for every size (see `all_blocked`).
    fn fitting_spot(&self, rooms: &Vec<Room>, room_area_total: u32, total_area: u16) -> (r: Option<(usize, u16)>)
        requires
            self.can_generate(),
        ensures
            match r {
                Some((k, size)) => {
                    &&& k < self.possible_room_positions@.len()
                    &&& self.min_room_size <= size <= self.max_room_size
                    &&& room_fits(self.map_area, rooms@, self.possible_room_positions@[k as int], size, room_area_total as int, total_area as int)
                },
                None => forall|k: int, size: u16| 0 <= k < self.possible_room_positions@.len() && self.min_room_size <= size <= self.max_room_size
                    ==> !#[trigger] room_fits(self.map_area, rooms@, self.possible_room_positions@[k], size, room_area_total as int, total_area as int),
            },
    {
        let mut k: usize = 0;
        while k < self.possible_room_positions.len()
            invariant
                self.can_generate(),
                k <= self.possible_room_positions@.len(),
                forall|j: int, size: u16| 0 <= j < k && self.min_room_size <= size <= self.max_room_size
                    ==> !#[trigger] room_fits(self.map_area, rooms@, self.possible_room_positions@[j], size, room_area_total as int, total_area as int),
            decreases self.possible_room_positions@.len() - k,
        {
            let position = self.possible_room_positions[k];
            proof {
                assert(positions_bounded(self.possible_room_positions@, self.max_room_size));
                assert(self.possible_room_positions@[k as int] == position);
            }
            let mut size: u16 = self.min_room_size;
            while size <= self.max_room_size
                invariant
                    self.can_generate(),
                    k < self.possible_room_positions@.len(),
                    position == self.possible_room_positions@[k as int],
                    position.x + self.max_room_size <= u16::MAX,
                    position.y + self.max_room_size <= u16::MAX,
                    self.min_room_size <= size <= self.max_room_size + 1,
                    forall|sz: u16| self.min_room_size <= sz < size
                        ==> !#[trigger] room_fits(self.map_area, rooms@, position, sz, room_area_total as int, total_area as int),
                decreases self.max_room_size + 1 - size,
            {
                if self.room_fits_at(rooms, position, size, room_area_total, total_area) {
                    return Some((k, size));
                }
                size += 1;
            }
            proof {
                assert forall|j: int, sz: u16| 0 <= j < k + 1 && self.min_room_size <= sz <= self.max_room_size
                    implies !#[trigger] room_fits(self.map_area, rooms@, self.possible_room_positions@[j], sz, room_area_total as int, total_area as int) by {
                    if j == k {
                        assert(!room_fits(self.map_area, rooms@, position, sz, room_area_total as int, total_area as int));
                    }
                }
            }
            k += 1;
        }
        None
    }

    /// Places a square room of `size` at `position` when it can be placed there (see
    /// `room_fits`): the room is generated with its doors and appended to `rooms`, and the
    /// candidate positions it covers move to the taken ones. Otherwise nothing changes.
    fn try_place_room(&mut self, rng: &mut Pcg64, rooms: &mut Vec<Room>, position: Position, size: u16, room_area_total: u32, total_area: u16) -> (placed: bool)
        requires
            old(self).can_generate(),
            position.x + old(self).max_room_size <= u16::MAX,
            position.y + old(self).max_room_size <= u16::MAX,
            1 <= size <= old(self).max_room_size,
        ensures
            placed == room_fits(old(self).map_area, old(rooms)@, position, size, room_area_total as int, total_area as int),
            final(self).can_generate(),
            final(self).min_room_size == old(self).min_room_size,
            final(self).max_room_size == old(self).max_room_size,
            final(self).max_door_count == old(self).max_door_count,
            final(self).map_area == old(self).map_area,
            final(self).tile_library == old(self).tile_library,
            final(self).room_area_quota_percentage == old(self).room_area_quota_percentage,
            final(self).room_area_percentage == old(self).room_area_percentage,
            final(self).rounds_drawn == old(self).rounds_drawn,
            placed ==> {
                &&& final(rooms)@.len() == old(rooms)@.len() + 1
                &&& final(rooms)@.drop_last() == old(rooms)@
                &&& generated_room(final(rooms)@.last(), position, size)
                &&& moved_into(
                    old(self).possible_room_positions@,
                    old(self).taken_positions@,
                    final(self).possible_room_positions@,
                    final(self).taken_positions@,
                    rect(position, size, size),
                )
            },
            !placed ==> {
                &&& final(rooms)@ == old(rooms)@
                &&& final(self).possible_room_positions@ == old(self).possible_room_positions@
                &&& final(self).taken_positions@ == old(self).taken_positions@
            },
    {
        if !self.room_fits_at(rooms, position, size, room_area_total, total_area) {
            return false;
        }
        let room = self.generate_room(rng, position, size);
        let ghost o_p = self.possible_room_positions@;
        let ghost o_t = self.taken_positions@;
        proof {
            lemma_square_within(size as int, self.map_area.size_x as int, self.map_area.size_y as int);
        }
        let room_area_value = room.get_area();
        let room_positions = room_area_value.get_positions();
        proof {
            lemma_listed_positions(room.area(), room_positions@);
            assert(o_t.subrange(0, o_t.len() as int) =~= o_t);
            assert(o_t.subrange(o_t.len() as int, o_t.len() as int) =~= Seq::<Position>::empty());
            assert(o_p.to_multiset().add(Seq::<Position>::empty().to_multiset()) =~= o_p.to_multiset()) by {
                broadcast use vstd::seq_lib::group_to_multiset_ensures;
            }
        }
        let mut p: usize = 0;
        while p < room_positions.len()
            invariant
                self.can_generate(),
                self.min_room_size == old(self).min_room_size,
                self.max_room_size == old(self).max_room_size,
                self.max_door_count == old(self).max_door_count,
                self.map_area == old(self).map_area,
                self.tile_library == old(self).tile_library,
                self.room_area_quota_percentage == old(self).room_area_quota_percentage,
                self.room_area_percentage == old(self).room_area_percentage,
                self.rounds_drawn == old(self).rounds_drawn,
                o_p == old(self).possible_room_positions@,
                o_t == old(self).taken_positions@,
                positions_bounded(o_p, self.max_room_size),
                p <= room_positions@.len(),
                forall|q: int| 0 <= q < room_positions@.len() ==> room.area().contains_spec(#[trigger] room_positions@[q]),
                self.taken_positions@.len() >= o_t.len(),
                self.taken_positions@.subrange(0, o_t.len() as int) == o_t,
                self.possible_room_positions@.to_multiset().add(
                    self.taken_positions@.subrange(o_t.len() as int, self.taken_positions@.len() as int).to_multiset(),
                ) == o_p.to_multiset(),
                forall|k: int| o_t.len() <= k < self.taken_positions@.len() ==> room.area().contains_spec(#[trigger] self.taken_positions@[k]),
                forall|k: int| 0 <= k < self.possible_room_positions@.len() ==> o_p.contains(#[trigger] self.possible_room_positions@[k]),
                o_p.no_duplicates() ==> {
                    &&& self.possible_room_positions@.no_duplicates()
                    &&& forall|k: int, q: int| 0 <= k < self.possible_room_positions@.len() && 0 <= q < p
                        ==> #[trigger] self.possible_room_positions@[k] != #[trigger] room_positions@[q]
                },
            decreases room_positions@.len() - p,
        {
            let ghost before = self.possible_room_positions@;
            let ghost before_t = self.taken_positions@;
            let ghost pos = room_positions@[p as int];
            proof {
                lemma_first_index_range(before, room_positions@[p as int], 0);
            }
            self.remove_possible_position(room_positions[p]);
            proof {
                lemma_take_position(before, before_t, self.possible_room_positions@, self.taken_positions@, o_t, o_p, pos);
                assert(room.area().contains_spec(pos));
                assert forall|k: int| o_t.len() <= k < self.taken_positions@.len() implies room.area().contains_spec(#[trigger] self.taken_positions@[k]) by {
                    if self.taken_positions@[k] != pos {
                        assert(room.area().contains_spec(before_t[k]));
                    }
                }
                assert forall|k: int| 0 <= k < self.possible_room_positions@.len() implies o_p.contains(#[trigger] self.possible_room_positions@[k]) by {
                    let j = choose|j: int| 0 <= j < before.len() && before[j] == self.possible_room_positions@[k];
                    assert(o_p.contains(before[j]));
                }
                if o_p.no_duplicates() {
                    assert forall|k: int, q: int| 0 <= k < self.possible_room_positions@.len() && 0 <= q < p + 1 implies
                        #[trigger] self.possible_room_positions@[k] != #[trigger] room_positions@[q] by {
                        let j = choose|j: int| 0 <= j < before.len() && before[j] == self.possible_room_positions@[k];
                        assert(self.possible_room_positions@[k] != pos);
                    }
                }
                assert forall|i: int| 0 <= i < self.possible_room_positions@.len() implies
                    #[trigger] self.possible_room_positions@[i].x + self.max_room_size <= u16::MAX
                    && self.possible_room_positions@[i].y + self.max_room_size <= u16::MAX by {
                    let j = choose|j: int| 0 <= j < o_p.len() && o_p[j] == self.possible_room_positions@[i];
                    assert(positions_bounded(o_p, self.max_room_size));
                    assert(o_p[j].x + self.max_room_size <= u16::MAX);
                }
            }
            p += 1;
        }
        proof {
            if o_p.no_duplicates() {
                assert forall|k: int| 0 <= k < self.possible_room_positions@.len() implies !room.area().contains_spec(#[trigger] self.possible_room_positions@[k]) by {
                    let x = self.possible_room_positions@[k];
                    if room.area().contains_spec(x) {
                        let q = choose|q: int| 0 <= q < room_positions@.len() && #[trigger] room_positions@[q] == x;
                        assert(x != room_positions@[q]);
                    }
                }
            }
        }
        let ghost old_rooms = rooms@;
        rooms.push(room);
        proof {
            assert(rooms@.drop_last() =~= old_rooms);
        }
        true
    }

    /// `try_place_room`, adding a placed room's tiles and its share of the map, in whole
    /// percent, to the running totals.
    fn place_and_count(
        &mut self,
        rng: &mut Pcg64,
        rooms: &mut Vec<Room>,
        position: Position,
        size: u16,
        room_area_total: &mut u32,
        usage: &mut u16,
        total_area: u16,
        Ghost(g0): Ghost<MapGenerator>,
        Ghost(old_taken): Ghost<Seq<Position>>,
        Ghost(cand): Ghost<Seq<Position>>,
    ) -> (placed: bool)
        requires
            generation_state(*old(self), g0, old(rooms)@, *old(room_area_total) as int, *old(usage) as int, total_area as int, old_taken, cand),
            *old(usage) < old(self).room_area_quota_percentage,
            position.x + old(self).max_room_size <= u16::MAX,
            position.y + old(self).max_room_size <= u16::MAX,
            old(self).min_room_size <= size <= old(self).max_room_size,
        ensures
            placed == room_fits(old(self).map_area, old(rooms)@, position, size, *old(room_area_total) as int, total_area as int),
            generation_state(*final(self), g0, final(rooms)@, *final(room_area_total) as int, *final(usage) as int, total_area as int, old_taken, cand),
            final(self).rounds_drawn == old(self).rounds_drawn,
            placed ==> final(rooms)@.len() == old(rooms)@.len() + 1 && *final(room_area_total) > *old(room_area_total),
            !placed ==> {
                &&& final(rooms)@ == old(rooms)@
                &&& *final(room_area_total) == *old(room_area_total)
                &&& *final(usage) == *old(usage)
                &&& final(self).possible_room_positions@ == old(self).possible_room_positions@
            },
    {
        let ghost p0 = self.possible_room_positions@;
        let ghost t0 = self.taken_positions@;
        let ghost old_rooms = rooms@;
        if !self.try_place_room(rng, rooms, position, size, *room_area_total, total_area) {
            return false;
        }
        proof {
            lemma_square_within(size as int, self.map_area.size_x as int, self.map_area.size_y as int);
        }
        let room_area: u16 = size * size;
        proof {
            let room = rooms@.last();
            assert(rooms@ =~= old_rooms.push(room));
            lemma_tracked_step(p0, t0, self.possible_room_positions@, self.taken_positions@, old_taken, cand, old_rooms, room);
            assert(room_area == room.area().size_x * room.area().size_y);
            assert(rooms@.drop_last() =~= old_rooms);
            lemma_percentage(room_area as int, total_area as int);
            assert forall|i: int, j: int| 0 <= i < j < rooms@.len() implies
                !intersects_spec(grown(#[trigger] rooms@[i].area()), #[trigger] rooms@[j].area()) by {
                if j < old_rooms.len() {
                    assert(rooms@[i] == old_rooms[i] && rooms@[j] == old_rooms[j]);
                } else {
                    assert(rooms@[i] == old_rooms[i]);
                    assert(rooms@[j].area() == rect(position, size, size));
                }
            }
            assert forall|i: int| 0 <= i < rooms@.len() implies
                valid_room(#[trigger] rooms@[i], g0.map_area, g0.min_room_size, g0.max_room_size) by {
                if i < old_rooms.len() {
                    assert(rooms@[i] == old_rooms[i]);
                }
            }
            assert(size >= 1);
            assert(room_area >= 1) by (nonlinear_arith)
                requires size >= 1, room_area == size * size;
        }
        *room_area_total = *room_area_total + room_area as u32;
        let area_usage_percentage: u16 = (room_area as u32 * 100 / total_area as u32) as u16;
        *usage = *usage + area_usage_percentage;
        true
    }

    /// Places rooms until they cover the area quota, no candidate position is left, or no
    /// room of any size fits at any candidate (`all_blocked`). Each round draws a candidate
    /// position and tries up to three random sizes there, placing a room of the first size
    /// that can be placed (`try_place_room`); after a round that places nothing, the search
    /// ends when every candidate is blocked. The rounds are counted in `rounds_drawn`; after
    /// `u64::MAX` of them, rooms go to the first candidate and smallest size that fit.
    pub fn generate_rooms(&mut self, rng: &mut Pcg64) -> (rooms: Vec<Room>)
        requires
            old(self).can_generate(),
        ensures
            final(self).can_generate(),
            final(self).min_room_size == old(self).min_room_size,
            final(self).max_room_size == old(self).max_room_size,
            final(self).max_door_count == old(self).max_door_count,
            final(self).map_area == old(self).map_area,
            final(self).tile_library == old(self).tile_library,
            final(self).room_area_quota_percentage == old(self).room_area_quota_percentage,
            forall|i: int| 0 <= i < rooms@.len() ==> valid_room(#[trigger] rooms@[i], old(self).map_area, old(self).min_room_size, old(self).max_room_size),
            rooms_apart(rooms@),
            candidates_tracked(
                final(self).possible_room_positions@,
                final(self).taken_positions@,
                old(self).taken_positions@,
                old(self).possible_room_positions@ + candidate_grid(old(self).map_area),
                rooms@,
            ),
            room_usage(rooms@, old(self).map_area.size_x * old(self).map_area.size_y) >= old(self).room_area_quota_percentage
                || final(self).possible_room_positions@.len() == 0
                || all_blocked(old(self).map_area, rooms@, final(self).possible_room_positions@, old(self).min_room_size, old(self).max_room_size),
            old(self).room_area_quota_percentage > 0 && rooms@.len() == 0 ==> forall|k: int, size: u16|
                0 <= k < (old(self).possible_room_positions@ + candidate_grid(old(self).map_area)).len()
                && old(self).min_room_size <= size <= old(self).max_room_size
                ==> !#[trigger] room_fits(
                    old(self).map_area,
                    Seq::<Room>::empty(),
                    (old(self).possible_room_positions@ + candidate_grid(old(self).map_area))[k],
                    size,
                    0,
                    old(self).map_area.size_x * old(self).map_area.size_y,
                ),
            old(self).room_area_quota_percentage == 0 ==> rooms@.len() == 0 && final(self).rounds_drawn == 0,
            (old(self).possible_room_positions@ + candidate_grid(old(self).map_area)).len() == 0
                ==> rooms@.len() == 0 && final(self).rounds_drawn == 0,
    {
        let ghost g0 = *self;
        let total_area = self.map_area.get_total_area();
        let mut room_area_total: u32 = 0;
        let mut total_area_usage_percentage: u16 = 0;
        let mut rooms: Vec<Room> = Vec::new();
        self.find_possible_room_positions();
        proof {
            let old_len = old(self).possible_room_positions@.len() as int;
            assert forall|k: int| 0 <= k < self.possible_room_positions@.len() implies
                #[trigger] self.possible_room_positions@[k].x + self.max_room_size <= u16::MAX
                && self.possible_room_positions@[k].y + self.max_room_size <= u16::MAX by {
                if k < old_len {
                    assert(self.possible_room_positions@[k] == self.possible_room_positions@.subrange(0, old_len)[k]);
                    assert(self.possible_room_positions@[k] == old(self).possible_room_positions@[k]);
                } else {
                    assert(1 <= self.possible_room_positions@[k].x < self.map_area.end_position.x - 1);
                }
            }
            let sx = self.map_area.size_x as int;
            let sy = self.map_area.size_y as int;
            assert(sx * sy > 0) by (nonlinear_arith)
                requires sx >= 1, sy >= 1;
        }
        let ghost old_taken = old(self).taken_positions@;
        let ghost cand = self.possible_room_positions@;
        proof {
            let t = self.taken_positions@;
            assert(t.subrange(0, old_taken.len() as int) =~= old_taken);
            assert(t.subrange(old_taken.len() as int, t.len() as int) =~= Seq::<Position>::empty());
            assert(self.possible_room_positions@.to_multiset().add(Seq::<Position>::empty().to_multiset()) =~= cand.to_multiset()) by {
                broadcast use vstd::seq_lib::group_to_multiset_ensures;
            }
            assert(candidates_tracked(self.possible_room_positions@, self.taken_positions@, old_taken, cand, rooms@));
        }
        let mut attempts: u64 = 0;
        self.rounds_drawn = 0;
        loop
            invariant
                generation_state(*self, g0, rooms@, room_area_total as int, total_area_usage_percentage as int, total_area as int, old_taken, cand),
                g0 == *old(self),
                self.rounds_drawn == attempts,
                old_taken == old(self).taken_positions@,
                cand == old(self).possible_room_positions@ + candidate_grid(old(self).map_area),
                attempts == 0 ==> rooms@.len() == 0 && self.possible_room_positions@ == cand,
                attempts > 0 ==> cand.len() > 0 && self.room_area_quota_percentage > 0,
            ensures
                total_area_usage_percentage >= self.room_area_quota_percentage
                    || self.possible_room_positions@.len() == 0
                    || all_blocked(self.map_area, rooms@, self.possible_room_positions@, self.min_room_size, self.max_room_size),
            decreases (if attempts < u64::MAX { 1int } else { 0int }), u64::MAX - attempts, 2 * u16::MAX - room_area_total,
        {
            if total_area_usage_percentage >= self.room_area_quota_percentage || self.possible_room_positions.is_empty() {
                break;
            }
            let mut placed = false;
            if attempts < u64::MAX {
                attempts += 1;
                self.rounds_drawn = attempts;
                let random_pos = seeded_range(rng, 0, self.possible_room_positions.len() as u64) as usize;
                let position = self.possible_room_positions[random_pos];
                proof {
                    assert(positions_bounded(self.possible_room_positions@, self.max_room_size));
                    assert(self.possible_room_positions@[random_pos as int] == position);
                }
                let mut tries: u32 = 0;
                while tries < 3 && !placed
                    invariant
                        generation_state(*self, g0, rooms@, room_area_total as int, total_area_usage_percentage as int, total_area as int, old_taken, cand),
                        g0 == *old(self),
                        self.rounds_drawn == attempts,
                        attempts > 0,
                        position.x + self.max_room_size <= u16::MAX,
                        position.y + self.max_room_size <= u16::MAX,
                        !placed ==> total_area_usage_percentage < self.room_area_quota_percentage,
                        !placed ==> self.possible_room_positions@.len() > 0,
                        cand.len() > 0,
                        self.room_area_quota_percentage > 0,
                    decreases 3 - tries,
                {
                    let size = seeded_range(rng, self.min_room_size as u64, self.max_room_size as u64 + 1) as u16;
                    placed = self.place_and_count(rng, &mut rooms, position, size, &mut room_area_total,
                        &mut total_area_usage_percentage, total_area, Ghost(g0), Ghost(old_taken), Ghost(cand));
                    tries += 1;
                }
            } else {
                match self.fitting_spot(&rooms, room_area_total, total_area) {
                    Some((k, size)) => {
                        let position = self.possible_room_positions[k];
                        proof {
                            assert(positions_bounded(self.possible_room_positions@, self.max_room_size));
                            assert(self.possible_room_positions@[k as int] == position);
                        }
                        placed = self.place_and_count(rng, &mut rooms, position, size, &mut room_area_total,
                            &mut total_area_usage_percentage, total_area, Ghost(g0), Ghost(old_taken), Ghost(cand));
                    },
                    None => {
                        break;
                    },
                }
            }
            if !placed {
                if self.fitting_spot(&rooms, room_area_total, total_area).is_none() {
                    break;
                }
            }
        }
        proof {
            if self.room_area_quota_percentage > 0 && rooms@.len() == 0 {
                assert(rooms@ =~= Seq::<Room>::empty());
                assert(room_usage(rooms@, total_area as int) == 0);
                lemma_nothing_placed(self.possible_room_positions@, self.taken_positions@, old_taken, cand, g0.map_area,
                    g0.min_room_size, g0.max_room_size);
            }
        }
        rooms
    }
}

/// Sides are four: a list of distinct sides that lacks one has at most three entries.
proof fn lemma_sides_bound(s: Seq<Side>, missing: Side)
    requires
        s.no_duplicates(),
        forall|j: int| 0 <= j < s.len() ==> s[j] != missing,
    ensures
        s.len() <= 3,
{
    if s.len() >= 4 {
        assert(s[0] != missing && s[1] != missing && s[2] != missing && s[3] != missing);
        assert(s[0] != s[1] && s[0] != s[2] && s[0] != s[3] && s[1] != s[2] && s[1] != s[3] && s[2] != s[3]);
        assert(false);
    }
}

/// An index within an earlier column lies before the start of a later column.
proof fn lemma_index_in_column(i: int, j: int, i0: int, rows: int)
    requires
        0 <= i < i0,
        0 <= j < rows,
    ensures
        0 <= i * rows + j < i0 * rows,
{
    assert(0 <= i * rows) by (nonlinear_arith)
        requires 0 <= i, 0 <= rows;
    assert((i + 1) * rows <= i0 * rows) by (nonlinear_arith)
        requires i + 1 <= i0, 0 <= rows;
    assert((i + 1) * rows == i * rows + rows) by (nonlinear_arith);
}


/// Whether `p` lies on one of the four walls of room `r`, as `Room::get_sides` lists them.
pub open spec fn on_walls(r: Room, p: Position) -> bool {
    let s = r.area().start_position;
    ||| line(s, r.area().size_y, Side::LEFT).area.contains_spec(p)
    ||| line(s, r.area().size_y, Side::RIGHT).area.contains_spec(p)
    ||| line(s, r.area().size_x, Side::TOP).area.contains_spec(p)
    ||| line(s, r.area().size_x, Side::BOTTOM).area.contains_spec(p)
}

/// The tile of the last of `doors` that stands at `p`.
pub open spec fn door_tile_at(doors: Seq<Door>, p: Position) -> Option<TileDetails>
    decreases doors.len(),
{
    if doors.len() == 0 {
        None
    } else if doors.last().position == p {
        Some(doors.last().tile_details)
    } else {
        door_tile_at(doors.drop_last(), p)
    }
}

/// The tile that drawing room `r` puts at `p`, if it draws there: the tile of its last door at
/// `p`, else `wall` on its walls, else `floor` inside them.
pub open spec fn room_tile_at(r: Room, p: Position, floor: TileDetails, wall: TileDetails) -> Option<TileDetails> {
    match door_tile_at(r.doors(), p) {
        Some(t) => Some(t),
        None => if on_walls(r, p) {
            Some(wall)
        } else if r.inside_area().contains_spec(p) {
            Some(floor)
        } else {
            None
        },
    }
}

/// The tile at `p` after drawing `rooms` in order over `base` with the given floor and wall tiles.
pub open spec fn drawn_tile(rooms: Seq<Room>, p: Position, base: TileDetails, floor: TileDetails, wall: TileDetails) -> TileDetails
    decreases rooms.len(),
{
    if rooms.len() == 0 {
        base
    } else {
        match room_tile_at(rooms.last(), p, floor, wall) {
            Some(t) => t,
            None => drawn_tile(rooms.drop_last(), p, base, floor, wall),
        }
    }
}

/// What drawing `rooms` in order over the tile `base` leaves at `p` is `t`: the last room that
/// draws at `p` decides, with the tile of its last door standing there, else a wall tile on its
/// walls, else a room tile inside them; where no room draws, `base` stays.
pub open spec fn drawn_as(rooms: Seq<Room>, p: Position, base: TileDetails, t: TileDetails) -> bool
    decreases rooms.len(),
{
    if rooms.len() == 0 {
        t == base
    } else {
        let r = rooms.last();
        match door_tile_at(r.doors(), p) {
            Some(d) => t == d,
            None => if on_walls(r, p) {
                is_library_entry(t, Tile::Wall)
            } else if r.inside_area().contains_spec(p) {
                is_library_entry(t, Tile::Room)
            } else {
                drawn_as(rooms.drop_last(), p, base, t)
            },
        }
    }
}

/// A room that can be drawn on the tile grid: its walls and inside can be listed, and every
/// position that drawing it touches has a tile.
pub open spec fn drawable(r: Room, tiles: Seq<Vec<TileDetails>>) -> bool {
    let s = r.area().start_position;
    &&& r.has_inside()
    &&& s.x + r.area().size_x <= u16::MAX
    &&& s.x + r.area().size_y <= u16::MAX
    &&& s.y + r.area().size_x <= u16::MAX
    &&& s.y + r.area().size_y <= u16::MAX
    &&& forall|p: Position| #[trigger] on_walls(r, p) ==> tile_at(tiles, p) is Some
    &&& forall|p: Position| #[trigger] r.inside_area().contains_spec(p) ==> tile_at(tiles, p) is Some
    &&& forall|i: int| 0 <= i < r.doors().len() ==> #[trigger] tile_at(tiles, r.doors()[i].position) is Some
}

/// The tile grid has a tile at the same positions in both.
pub open spec fn same_shape(a: Seq<Vec<TileDetails>>, b: Seq<Vec<TileDetails>>) -> bool {
    forall|p: Position| (#[trigger] tile_at(a, p) is Some) == (tile_at(b, p) is Some)
}

proof fn lemma_drawn_as(rooms: Seq<Room>, p: Position, base: TileDetails, floor: TileDetails, wall: TileDetails)
    requires
        is_library_entry(floor, Tile::Room),
        is_library_entry(wall, Tile::Wall),
    ensures
        drawn_as(rooms, p, base, drawn_tile(rooms, p, base, floor, wall)),
    decreases rooms.len(),
{
    if rooms.len() > 0 {
        lemma_drawn_as(rooms.drop_last(), p, base, floor, wall);
    }
}

/// Every position listed by `Area::get_positions` lies in the area, and every position of the
/// area is listed.
proof fn lemma_positions_cover(area: Area, positions: Seq<Position>)
    requires
        positions.len() == area.columns() * area.rows(),
        forall|i: int, j: int| 0 <= i < area.columns() && 0 <= j < area.rows()
            ==> #[trigger] positions[i * area.rows() + j] == grid_pos(area.start_position, i, j),
    ensures
        forall|k: int| 0 <= k < positions.len() ==> area.contains_spec(#[trigger] positions[k]),
        forall|p: Position| #[trigger] area.contains_spec(p) ==> exists|k: int| 0 <= k < positions.len() && positions[k] == p,
{
    let cols = area.columns();
    let rows = area.rows();
    assert forall|k: int| 0 <= k < positions.len() implies area.contains_spec(#[trigger] positions[k]) by {
        assert(rows > 0) by (nonlinear_arith)
            requires 0 <= k < cols * rows, cols >= 0, rows >= 0;
        let i = k / rows;
        let j = k % rows;
        assert(k == i * rows + j && 0 <= j < rows && 0 <= i) by (nonlinear_arith)
            requires rows > 0, k >= 0, i == k / rows, j == k % rows;
        assert(i < cols) by (nonlinear_arith)
            requires k == i * rows + j, 0 <= j < rows, k < cols * rows, 0 <= i;
        assert(positions[i * rows + j] == grid_pos(area.start_position, i, j));
    }
    assert forall|p: Position| #[trigger] area.contains_spec(p) implies exists|k: int| 0 <= k < positions.len() && positions[k] == p by {
        let i = p.x - area.start_position.x;
        let j = p.y - area.start_position.y;
        lemma_index_in_column(i, j, cols, rows);
        assert(positions[i * rows + j] == grid_pos(area.start_position, i, j));
    }
}

/// Sets every tile of `area` to `tile`.
fn paint_area(map: &mut GameMap, area: Area, tile: &TileDetails)
    requires
        area.end_position.x < u16::MAX,
        area.end_position.y < u16::MAX,
        forall|p: Position| #[trigger] area.contains_spec(p) ==> tile_at(old(map).tiles@, p) is Some,
    ensures
        final(map).area == old(map).area,
        final(map).rooms == old(map).rooms,
        forall|p: Position| #[trigger] tile_at(final(map).tiles@, p)
            == if area.contains_spec(p) { Some(*tile) } else { tile_at(old(map).tiles@, p) },
{
    let positions = area.get_positions();
    proof {
        lemma_positions_cover(area, positions@);
    }
    let mut k: usize = 0;
    while k < positions.len()
        invariant
            k <= positions@.len(),
            forall|q: int| 0 <= q < positions@.len() ==> area.contains_spec(#[trigger] positions@[q]),
            forall|p: Position| #[trigger] area.contains_spec(p) ==> tile_at(old(map).tiles@, p) is Some,
            map.area == old(map).area,
            map.rooms == old(map).rooms,
            forall|p: Position| #[trigger] tile_at(map.tiles@, p)
                == if exists|q: int| 0 <= q < k && positions@[q] == p { Some(*tile) } else { tile_at(old(map).tiles@, p) },
        decreases positions@.len() - k,
    {
        let position = positions[k];
        assert(area.contains_spec(positions@[k as int]));
        map.set_tile(position, tile.clone());
        proof {
            assert forall|p: Position| #[trigger] tile_at(map.tiles@, p)
                == if exists|q: int| 0 <= q < k + 1 && positions@[q] == p { Some(*tile) } else { tile_at(old(map).tiles@, p) } by {
                if p == position {
                    assert(positions@[k as int] == p);
                }
            }
        }
        k += 1;
    }
}

/// Draws one room: floor inside its walls, then its walls, then its doors.
fn draw_room(map: &mut GameMap, room: &Room, floor: &TileDetails, wall: &TileDetails)
    requires
        drawable(*room, old(map).tiles@),
    ensures
        final(map).area == old(map).area,
        final(map).rooms == old(map).rooms,
        forall|p: Position| #[trigger] tile_at(final(map).tiles@, p)
            == match room_tile_at(*room, p, *floor, *wall) {
                Some(t) => Some(t),
                None => tile_at(old(map).tiles@, p),
            },
{
    let ghost start_tiles = map.tiles@;
    let inside_area = room.get_inside_area();
    paint_area(map, inside_area, floor);
    let ghost after_inside = map.tiles@;
    let sides = room.get_sides();
    let mut k: usize = 0;
    while k < sides.len()
        invariant
            k <= sides@.len(),
            drawable(*room, start_tiles),
            sides@ == seq![
                line(room.area().start_position, room.area().size_y, Side::LEFT),
                line(room.area().start_position, room.area().size_y, Side::RIGHT),
                line(room.area().start_position, room.area().size_x, Side::TOP),
                line(room.area().start_position, room.area().size_x, Side::BOTTOM),
            ],
            map.area == old(map).area,
            map.rooms == old(map).rooms,
            forall|p: Position| #[trigger] tile_at(after_inside, p)
                == if room.inside_area().contains_spec(p) { Some(*floor) } else { tile_at(start_tiles, p) },
            forall|p: Position| #[trigger] tile_at(map.tiles@, p)
                == if exists|q: int| 0 <= q < k && (#[trigger] sides@[q]).area.contains_spec(p) { Some(*wall) } else { tile_at(after_inside, p) },
        decreases sides@.len() - k,
    {
        let side_area = sides[k].area;
        proof {
            assert forall|p: Position| #[trigger] side_area.contains_spec(p) implies tile_at(map.tiles@, p) is Some by {
                assert(on_walls(*room, p));
            }
        }
        let ghost before = map.tiles@;
        paint_area(map, side_area, wall);
        proof {
            assert forall|p: Position| #[trigger] tile_at(map.tiles@, p)
                == if exists|q: int| 0 <= q < k + 1 && (#[trigger] sides@[q]).area.contains_spec(p) { Some(*wall) } else { tile_at(after_inside, p) } by {
                if side_area.contains_spec(p) {
                    assert(sides@[k as int].area.contains_spec(p));
                }
            }
        }
        k += 1;
    }
    let ghost after_walls = map.tiles@;
    proof {
        assert forall|p: Position| #[trigger] tile_at(after_walls, p)
            == if on_walls(*room, p) { Some(*wall) } else { tile_at(after_inside, p) } by {
            if on_walls(*room, p) {
                if line(room.area().start_position, room.area().size_y, Side::LEFT).area.contains_spec(p) {
                    assert(sides@[0].area.contains_spec(p));
                } else if line(room.area().start_position, room.area().size_y, Side::RIGHT).area.contains_spec(p) {
                    assert(sides@[1].area.contains_spec(p));
                } else if line(room.area().start_position, room.area().size_x, Side::TOP).area.contains_spec(p) {
                    assert(sides@[2].area.contains_spec(p));
                } else {
                    assert(sides@[3].area.contains_spec(p));
                }
            }
        }
    }
    let doors = room.get_doors();
    let mut d: usize = 0;
    while d < doors.len()
        invariant
            d <= doors@.len(),
            doors@ == room.doors(),
            drawable(*room, start_tiles),
            map.area == old(map).area,
            map.rooms == old(map).rooms,
            forall|p: Position| #[trigger] tile_at(after_walls, p) is Some == tile_at(start_tiles, p) is Some,
            forall|p: Position| #[trigger] tile_at(map.tiles@, p)
                == match door_tile_at(doors@.take(d as int), p) {
                    Some(t) => Some(t),
                    None => tile_at(after_walls, p),
                },
        decreases doors@.len() - d,
    {
        let door = &doors[d];
        proof {
            assert(tile_at(start_tiles, room.doors()[d as int].position) is Some);
            assert(tile_at(after_walls, door.position) is Some);
        }
        let ghost before = map.tiles@;
        map.set_tile(door.position, door.tile_details.clone());
        proof {
            assert(doors@.take(d + 1).drop_last() =~= doors@.take(d as int));
            assert(doors@.take(d + 1).last() == doors@[d as int]);
        }
        d += 1;
    }
    proof {
        assert(doors@.take(doors@.len() as int) =~= doors@);
    }
}

impl MapGenerator {
    /// Draws the map's rooms over its tiles, in order: each room's floor inside its walls, then
    /// its walls, then its doors. The floor and wall tiles are those of the tile library.
    pub fn add_rooms_to_map(&self, map: GameMap) -> (m: GameMap)
        requires
            forall|i: int| 0 <= i < map.rooms@.len() ==> #[trigger] drawable(map.rooms@[i], map.tiles@),
        ensures
            m.area == map.area,
            m.rooms == map.rooms,
            same_shape(m.tiles@, map.tiles@),
            forall|p: Position| #[trigger] tile_at(map.tiles@, p) is Some
                ==> drawn_as(map.rooms@, p, tile_at(map.tiles@, p)->0, tile_at(m.tiles@, p)->0),
    {
        let tile_library = build_library();
        let floor = tile_library.get(Tile::Room);
        let wall = tile_library.get(Tile::Wall);
        let GameMap { area, tiles, rooms, containers } = map;
        let mut drawn = GameMap { area, tiles, rooms: Vec::new(), containers };
        let ghost start_tiles = drawn.tiles@;
        let mut i: usize = 0;
        while i < rooms.len()
            invariant
                i <= rooms@.len(),
                rooms@ == map.rooms@,
                start_tiles == map.tiles@,
                drawn.area == map.area,
                drawn.rooms@.len() == 0,
                forall|j: int| 0 <= j < rooms@.len() ==> #[trigger] drawable(rooms@[j], start_tiles),
                same_shape(drawn.tiles@, start_tiles),
                forall|p: Position| #[trigger] tile_at(drawn.tiles@, p)
                    == match tile_at(start_tiles, p) {
                        Some(b) => Some(drawn_tile(rooms@.take(i as int), p, b, floor, wall)),
                        None => None,
                    },
            decreases rooms@.len() - i,
        {
            let room = &rooms[i];
            let ghost before = drawn.tiles@;
            proof {
                let r = rooms@[i as int];
                assert(drawable(r, start_tiles));
                assert forall|p: Position| #[trigger] on_walls(r, p) implies tile_at(before, p) is Some by {
                    assert(tile_at(start_tiles, p) is Some);
                }
                assert forall|p: Position| #[trigger] r.inside_area().contains_spec(p) implies tile_at(before, p) is Some by {
                    assert(tile_at(start_tiles, p) is Some);
                }
                assert forall|k: int| 0 <= k < r.doors().len() implies #[trigger] tile_at(before, r.doors()[k].position) is Some by {
                    assert(tile_at(start_tiles, r.doors()[k].position) is Some);
                }
            }
            draw_room(&mut drawn, room, &floor, &wall);
            proof {
                let r = rooms@[i as int];
                assert(rooms@.take(i + 1).drop_last() =~= rooms@.take(i as int));
                assert(rooms@.take(i + 1).last() == r);
                assert forall|p: Position| (#[trigger] tile_at(drawn.tiles@, p) is Some) == (tile_at(start_tiles, p) is Some) by {
                    assert(tile_at(before, p) is Some == tile_at(start_tiles, p) is Some);
                    if room_tile_at(r, p, floor, wall) is Some {
                        if door_tile_at(r.doors(), p) is Some {
                            lemma_door_tile_at(r.doors(), p);
                        }
                    }
                }
            }
            i += 1;
        }
        proof {
            assert(rooms@.take(rooms@.len() as int) =~= rooms@);
            assert forall|p: Position| #[trigger] tile_at(start_tiles, p) is Some
                implies drawn_as(rooms@, p, tile_at(start_tiles, p)->0, tile_at(drawn.tiles@, p)->0) by {
                lemma_drawn_as(rooms@, p, tile_at(start_tiles, p)->0, floor, wall);
            }
        }
        GameMap { area: drawn.area, tiles: drawn.tiles, rooms, containers: drawn.containers }
    }
}

/// The last door at a position is one of the doors, standing there.
proof fn lemma_door_tile_at(doors: Seq<Door>, p: Position)
    requires
        door_tile_at(doors, p) is Some,
    ensures
        exists|i: int| 0 <= i < doors.len() && doors[i].position == p,
    decreases doors.len(),
{
    if doors.last().position == p {
        assert(doors[doors.len() - 1].position == p);
    } else {
        lemma_door_tile_at(doors.drop_last(), p);
        let i = choose|i: int| 0 <= i < doors.drop_last().len() && doors.drop_last()[i].position == p;
        assert(doors[i].position == p);
    }
}

/// A grid of `rows` rows of `cols` tiles each.
pub open spec fn grid_shape(tiles: Seq<Vec<TileDetails>>, cols: int, rows: int) -> bool {
    &&& tiles.len() == rows
    &&& forall|y: int| 0 <= y < tiles.len() ==> #[trigger] tiles[y]@.len() == cols
}

/// A room placed by the generator in a map area that starts at the origin can be drawn on a
/// tile grid that covers the area.
proof fn lemma_valid_room_drawable(r: Room, area: Area, min: u16, max: u16, tiles: Seq<Vec<TileDetails>>)
    requires
        valid_room(r, area, min, max),
        min >= 3,
        area.start_position == (Position { x: 0, y: 0 }),
        area.end_position.x + max < u16::MAX,
        area.end_position.y + max < u16::MAX,
        grid_shape(tiles, area.end_position.x + 1, area.end_position.y + 1),
    ensures
        drawable(r, tiles),
{
    let s = r.area().start_position;
    let z = r.area().size_x;
    assert forall|p: Position| #[trigger] on_walls(r, p) implies tile_at(tiles, p) is Some by {
        assert(tiles[p.y as int]@.len() == area.end_position.x + 1);
    }
    assert forall|p: Position| #[trigger] r.inside_area().contains_spec(p) implies tile_at(tiles, p) is Some by {
        assert(tiles[p.y as int]@.len() == area.end_position.x + 1);
    }
    let sides = choose|sides: Seq<Side>| doors_on_distinct_sides(s, z, r.doors(), sides);
    assert forall|i: int| 0 <= i < r.doors().len() implies #[trigger] tile_at(tiles, r.doors()[i].position) is Some by {
        assert(new_door_at(r.doors()[i], mid_point(line(s, z, sides[i]))));
        let p = r.doors()[i].position;
        assert(p.x <= area.end_position.x && p.y <= area.end_position.y);
        assert(tiles[p.y as int]@.len() == area.end_position.x + 1);
    }
}

impl MapGenerator {
    /// Places rooms and builds a map of the generator's area with empty tiles, holding those
    /// rooms; the rooms are not drawn on the tiles yet.
    pub fn build_map(&mut self, rng: &mut Pcg64) -> (map: GameMap)
        requires
            old(self).can_generate(),
            old(self).tile_library.wf(),
        ensures
            final(self).can_generate(),
            final(self).min_room_size == old(self).min_room_size,
            final(self).max_room_size == old(self).max_room_size,
            final(self).max_door_count == old(self).max_door_count,
            final(self).map_area == old(self).map_area,
            final(self).tile_library == old(self).tile_library,
            final(self).room_area_quota_percentage == old(self).room_area_quota_percentage,
            map.area == old(self).map_area,
            forall|i: int| 0 <= i < map.rooms@.len() ==> valid_room(#[trigger] map.rooms@[i], old(self).map_area, old(self).min_room_size, old(self).max_room_size),
            rooms_apart(map.rooms@),
            grid_shape(
                map.tiles@,
                map.area.end_position.x - map.area.start_position.x + 1,
                map.area.end_position.y - map.area.start_position.y + 1,
            ),
            forall|y: int, x: int| 0 <= y < map.tiles@.len() && 0 <= x < map.tiles@[y]@.len() ==> is_library_entry(#[trigger] map.tiles@[y]@[x], Tile::NoTile),
    {
        let rooms = self.generate_rooms(rng);
        let map_area = self.map_area;
        let map_tiles = self.build_empty_tiles();
        GameMap { area: map_area, tiles: map_tiles, rooms, containers: Vec::new() }
    }

    /// Generates a map of the generator's area: places rooms at random and draws them on empty
    /// tiles. The area starts at the origin, since tiles are indexed by absolute position.
    pub fn generate(&mut self, rng: &mut Pcg64) -> (map: GameMap)
        requires
            old(self).can_generate(),
            old(self).tile_library.wf(),
            old(self).min_room_size >= 3,
            old(self).map_area.start_position == (Position { x: 0, y: 0 }),
        ensures
            final(self).can_generate(),
            final(self).min_room_size == old(self).min_room_size,
            final(self).max_room_size == old(self).max_room_size,
            final(self).max_door_count == old(self).max_door_count,
            final(self).map_area == old(self).map_area,
            final(self).tile_library == old(self).tile_library,
            final(self).room_area_quota_percentage == old(self).room_area_quota_percentage,
            map.area == old(self).map_area,
            forall|i: int| 0 <= i < map.rooms@.len() ==> valid_room(#[trigger] map.rooms@[i], old(self).map_area, old(self).min_room_size, old(self).max_room_size),
            rooms_apart(map.rooms@),
            forall|p: Position| (#[trigger] tile_at(map.tiles@, p) is Some) == map.area.contains_spec(p),
            forall|p: Position| #[trigger] tile_at(map.tiles@, p) is Some ==> exists|b: TileDetails|
                is_library_entry(b, Tile::NoTile) && drawn_as(map.rooms@, p, b, tile_at(map.tiles@, p)->0),
    {
        let map = self.build_map(rng);
        proof {
            assert forall|i: int| 0 <= i < map.rooms@.len() implies #[trigger] drawable(map.rooms@[i], map.tiles@) by {
                lemma_valid_room_drawable(map.rooms@[i], self.map_area, self.min_room_size, self.max_room_size, map.tiles@);
            }
        }
        let ghost empty = map.tiles@;
        let drawn = self.add_rooms_to_map(map);
        proof {
            assert forall|p: Position| (#[trigger] tile_at(empty, p) is Some) == map.area.contains_spec(p) by {
                if p.y < empty.len() {
                    assert(empty[p.y as int]@.len() == map.area.end_position.x + 1);
                }
            }
            assert forall|p: Position| #[trigger] tile_at(drawn.tiles@, p) is Some implies exists|b: TileDetails|
                is_library_entry(b, Tile::NoTile) && drawn_as(drawn.rooms@, p, b, tile_at(drawn.tiles@, p)->0) by {
                assert(tile_at(empty, p) is Some);
                let b = tile_at(empty, p)->0;
                assert(is_library_entry(empty[p.y as int]@[p.x as int], Tile::NoTile));
            }
        }
        drawn
    }
}

} // verus!
