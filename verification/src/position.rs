use vstd::prelude::*;

verus! {

/// A tile co-ordinate on a map or screen.
#[derive(Copy, Clone, PartialEq, Eq, Structural, Debug, Hash)]
pub struct Position {
    pub x: u16,
    pub y: u16,
}

/// A rectangle of positions, `start_position` and `end_position` being its inclusive corners.
#[derive(Copy, Clone, PartialEq, Eq, Structural, Debug)]
pub struct Area {
    pub start_position: Position,
    pub end_position: Position,
    pub size_x: u16,
    pub size_y: u16,
}

/// One of the four sides of an area.
#[derive(Copy, Clone, PartialEq, Eq, Structural, Debug)]
pub enum Side {
    LEFT,
    RIGHT,
    TOP,
    BOTTOM,
}

/// A one-tile-thick strip along a side of an area.
#[derive(Copy, Clone, PartialEq, Eq, Structural, Debug)]
pub struct AreaSide {
    pub area: Area,
    pub side: Side,
}

/// Clamps an integer co-ordinate into the `u16` range.
pub open spec fn clamp_u16(v: int) -> u16 {
    if v < 0 {
        0u16
    } else if v > u16::MAX {
        u16::MAX
    } else {
        v as u16
    }
}

/// The in-range orthogonal neighbours of a position: above, below, left, right.
pub open spec fn neighbors_of(p: Position) -> Seq<Position> {
    let up: Seq<Position> = if p.y > 0 { seq![Position { x: p.x, y: (p.y - 1) as u16 }] } else { seq![] };
    let down: Seq<Position> = if p.y < u16::MAX { seq![Position { x: p.x, y: (p.y + 1) as u16 }] } else { seq![] };
    let left: Seq<Position> = if p.x > 0 { seq![Position { x: (p.x - 1) as u16, y: p.y }] } else { seq![] };
    let right: Seq<Position> = if p.x < u16::MAX { seq![Position { x: (p.x + 1) as u16, y: p.y }] } else { seq![] };
    up + down + left + right
}

/// Two positions differ by exactly one step along one axis.
pub open spec fn adjacent(a: Position, b: Position) -> bool {
    (a.x == b.x && (a.y == b.y + 1 || b.y == a.y + 1))
    || (a.y == b.y && (a.x == b.x + 1 || b.x == a.x + 1))
}

impl Position {
    pub fn new(x: u16, y: u16) -> (p: Position)
        ensures
            p.x == x,
            p.y == y,
    {
        Position { x, y }
    }

    /// Moves this position by the given deltas, clamping each co-ordinate to the `u16` range.
    pub fn offset(&self, dx: i32, dy: i32) -> (p: Position)
        ensures
            p.x == clamp_u16(self.x + dx),
            p.y == clamp_u16(self.y + dy),
    {
        let nx: i64 = self.x as i64 + dx as i64;
        let ny: i64 = self.y as i64 + dy as i64;
        let x: u16 = if nx < 0 { 0 } else if nx > 65535 { 65535 } else { nx as u16 };
        let y: u16 = if ny < 0 { 0 } else if ny > 65535 { 65535 } else { ny as u16 };
        Position { x, y }
    }

    /// The orthogonal neighbours of this position that stay within the `u16` range.
    pub fn get_neighbors(&self) -> (r: Vec<Position>)
        ensures
            r@ == neighbors_of(*self),
    {
        let mut r: Vec<Position> = Vec::new();
        if self.y > 0 {
            r.push(Position { x: self.x, y: self.y - 1 });
        }
        if self.y < 65535 {
            r.push(Position { x: self.x, y: self.y + 1 });
        }
        if self.x > 0 {
            r.push(Position { x: self.x - 1, y: self.y });
        }
        if self.x < 65535 {
            r.push(Position { x: self.x + 1, y: self.y });
        }
        assert(r@ =~= neighbors_of(*self));
        r
    }
}

/// The rectangle starting at `start` with the given sizes; its end is `start + size - 1` on each axis.
pub open spec fn rect(start: Position, size_x: u16, size_y: u16) -> Area {
    Area {
        start_position: start,
        end_position: Position { x: (start.x + size_x - 1) as u16, y: (start.y + size_y - 1) as u16 },
        size_x,
        size_y,
    }
}

/// The sizes given fit: each is at least one and the far corner stays within the `u16` range.
pub open spec fn rect_fits(start: Position, size_x: u16, size_y: u16) -> bool {
    &&& size_x >= 1
    &&& size_y >= 1
    &&& start.x + size_x - 1 <= u16::MAX
    &&& start.y + size_y - 1 <= u16::MAX
}

/// The strip of length `size` along the given side of the square of that size starting at `start`.
pub open spec fn line(start: Position, size: u16, side: Side) -> AreaSide {
    let z = size - 1;
    let area = match side {
        Side::LEFT => Area {
            start_position: start,
            end_position: Position { x: start.x, y: (start.y + z) as u16 },
            size_x: 1,
            size_y: size,
        },
        Side::RIGHT => Area {
            start_position: Position { x: (start.x + z) as u16, y: start.y },
            end_position: Position { x: (start.x + z) as u16, y: (start.y + z) as u16 },
            size_x: 1,
            size_y: size,
        },
        Side::TOP => Area {
            start_position: start,
            end_position: Position { x: (start.x + z) as u16, y: start.y },
            size_x: size,
            size_y: 1,
        },
        Side::BOTTOM => Area {
            start_position: Position { x: start.x, y: (start.y + z) as u16 },
            end_position: Position { x: (start.x + z) as u16, y: (start.y + z) as u16 },
            size_x: size,
            size_y: 1,
        },
    };
    AreaSide { area, side }
}

/// A line of `size` tiles fits from `start` along both axes.
pub open spec fn line_fits(start: Position, size: u16) -> bool {
    size >= 1 && start.x + size - 1 <= u16::MAX && start.y + size - 1 <= u16::MAX
}

/// Whether `v` lies in the inclusive range `lo..=hi`.
pub open spec fn in_range(v: u16, lo: u16, hi: u16) -> bool {
    lo <= v && v <= hi
}

/// The overlap test used for room placement: one of `other`'s start or end columns lies within
/// this area's columns, and one of its start or end rows lies within this area's rows.
pub open spec fn intersects_spec(a: Area, other: Area) -> bool {
    (in_range(other.start_position.x, a.start_position.x, a.end_position.x)
        || in_range(other.end_position.x, a.start_position.x, a.end_position.x))
    && (in_range(other.start_position.y, a.start_position.y, a.end_position.y)
        || in_range(other.end_position.y, a.start_position.y, a.end_position.y))
}

/// This area grown by one tile on every side, stopping at the edges of the `u16` range.
pub open spec fn grown(a: Area) -> Area {
    let sx = if a.start_position.x > 0 { (a.start_position.x - 1) as u16 } else { a.start_position.x };
    let sy = if a.start_position.y > 0 { (a.start_position.y - 1) as u16 } else { a.start_position.y };
    let ex = if a.end_position.x < u16::MAX { (a.end_position.x + 1) as u16 } else { a.end_position.x };
    let ey = if a.end_position.y < u16::MAX { (a.end_position.y + 1) as u16 } else { a.end_position.y };
    let size_x = if sx >= ex { (sx - ex) as u16 } else { (ex - sx) as u16 };
    let size_y = if sy >= ey { (sy - ey) as u16 } else { (ey - sy) as u16 };
    Area {
        start_position: Position { x: sx, y: sy },
        end_position: Position { x: ex, y: ey },
        size_x,
        size_y,
    }
}

/// The position at column `i` and row `j` of the positions listing that starts at `start`.
pub open spec fn grid_pos(start: Position, i: int, j: int) -> Position {
    Position { x: (start.x + i) as u16, y: (start.y + j) as u16 }
}

impl Area {
    pub open spec fn size_x(self) -> u16 {
        self.size_x
    }

    pub open spec fn size_y(self) -> u16 {
        self.size_y
    }

    /// The corners and sizes agree: the end is `start + size - 1` on each axis.
    pub open spec fn wf(self) -> bool {
        &&& rect_fits(self.start_position, self.size_x, self.size_y)
        &&& self == rect(self.start_position, self.size_x, self.size_y)
    }

    pub open spec fn contains_spec(self, p: Position) -> bool {
        in_range(p.x, self.start_position.x, self.end_position.x)
        && in_range(p.y, self.start_position.y, self.end_position.y)
    }

    /// Number of columns listed by `get_positions`.
    pub open spec fn columns(self) -> int {
        if self.end_position.x >= self.start_position.x {
            self.end_position.x - self.start_position.x + 1
        } else {
            0
        }
    }

    /// Number of rows listed by `get_positions`.
    pub open spec fn rows(self) -> int {
        if self.end_position.y >= self.start_position.y {
            self.end_position.y - self.start_position.y + 1
        } else {
            0
        }
    }

    pub open spec fn can_fit_spec(self, p: Position, size: u16) -> bool {
        &&& size != 0
        &&& self.contains_spec(p)
        &&& size <= self.size_x
        &&& size <= self.size_y
        &&& p.x + size - 1 <= self.end_position.x
        &&& p.y + size - 1 <= self.end_position.y
    }

    /// The rectangle with the given start and sizes.
    pub fn new(start_position: Position, size_x: u16, size_y: u16) -> (a: Area)
        requires
            rect_fits(start_position, size_x, size_y),
        ensures
            a == rect(start_position, size_x, size_y),
            a.wf(),
    {
        build_rectangular_area(start_position, size_x, size_y)
    }

    pub fn get_total_area(&self) -> (r: u16)
        requires
            self.size_x * self.size_y <= u16::MAX,
        ensures
            r == self.size_x * self.size_y,
    {
        self.size_x * self.size_y
    }

    pub fn get_size_x(&self) -> (r: u16)
        ensures
            r == self.size_x,
    {
        self.size_x
    }

    pub fn get_size_y(&self) -> (r: u16)
        ensures
            r == self.size_y,
    {
        self.size_y
    }

    /// The left, right, top and bottom strips, each built from the start corner; the left and
    /// right strips are `size_y` long and the top and bottom strips `size_x` long.
    pub fn get_sides(&self) -> (sides: Vec<AreaSide>)
        requires
            line_fits(self.start_position, self.size_x),
            line_fits(self.start_position, self.size_y),
        ensures
            sides@ == seq![
                line(self.start_position, self.size_y, Side::LEFT),
                line(self.start_position, self.size_y, Side::RIGHT),
                line(self.start_position, self.size_x, Side::TOP),
                line(self.start_position, self.size_x, Side::BOTTOM),
            ],
    {
        let start_pos = self.start_position;
        let mut sides: Vec<AreaSide> = Vec::new();
        let all = all_sides();
        let mut i: usize = 0;
        while i < 4
            invariant
                i <= 4,
                all@ == seq![Side::LEFT, Side::RIGHT, Side::TOP, Side::BOTTOM],
                line_fits(start_pos, self.size_x),
                line_fits(start_pos, self.size_y),
                start_pos == self.start_position,
                sides@.len() == i,
                forall|k: int| 0 <= k < i ==> sides@[k] == line(start_pos,
                    if all@[k] == Side::LEFT || all@[k] == Side::RIGHT { self.size_y } else { self.size_x },
                    all@[k]),
            decreases 4 - i,
        {
            let side = all[i];
            if side == Side::LEFT || side == Side::RIGHT {
                sides.push(build_line(start_pos, self.size_y, side));
            } else {
                sides.push(build_line(start_pos, self.size_x, side));
            }
            i += 1;
        }
        assert(sides@ =~= seq![
            line(self.start_position, self.size_y, Side::LEFT),
            line(self.start_position, self.size_y, Side::RIGHT),
            line(self.start_position, self.size_x, Side::TOP),
            line(self.start_position, self.size_x, Side::BOTTOM),
        ]);
        sides
    }

    pub fn intersects(&self, area: Area) -> (r: bool)
        ensures
            r == intersects_spec(*self, area),
    {
        let start_x = self.start_position.x;
        let start_y = self.start_position.y;
        let end_x = self.end_position.x;
        let end_y = self.end_position.y;

        let area_start_x_intersect = area.start_position.x >= start_x && area.start_position.x <= end_x;
        let area_end_x_intersect = area.end_position.x >= start_x && area.end_position.x <= end_x;
        let area_start_y_intersect = area.start_position.y >= start_y && area.start_position.y <= end_y;
        let area_end_y_intersect = area.end_position.y >= start_y && area.end_position.y <= end_y;

        (area_start_x_intersect || area_end_x_intersect) && (area_start_y_intersect || area_end_y_intersect)
    }

    /// The overlap test against this area grown by one tile on every side, so that areas that
    /// merely touch also count.
    pub fn intersects_or_touches(&self, area: Area) -> (r: bool)
        ensures
            r == intersects_spec(grown(*self), area),
    {
        let start_x = if self.start_position.x > 0 { self.start_position.x - 1 } else { self.start_position.x };
        let start_y = if self.start_position.y > 0 { self.start_position.y - 1 } else { self.start_position.y };
        let end_x = if self.end_position.x < 65535 { self.end_position.x + 1 } else { self.end_position.x };
        let end_y = if self.end_position.y < 65535 { self.end_position.y + 1 } else { self.end_position.y };

        let size_x = if start_x >= end_x { start_x - end_x } else { end_x - start_x };
        let size_y = if start_y >= end_y { start_y - end_y } else { end_y - start_y };

        let start_position = Position { x: start_x, y: start_y };
        let end_position = Position { x: end_x, y: end_y };
        let adjusted = Area { start_position, end_position, size_x, size_y };
        adjusted.intersects(area)
    }

    pub fn contains(&self, position: Position) -> (r: bool)
        ensures
            r == self.contains_spec(position),
    {
        position.x >= self.start_position.x && position.y >= self.start_position.y
            && position.x <= self.end_position.x && position.y <= self.end_position.y
    }

    /// Whether a square of the given size, starting at `position`, lies within this area.
    pub fn can_fit(&self, position: Position, size: u16) -> (r: bool)
        ensures
            r == self.can_fit_spec(position, size),
    {
        if size == 0 {
            return false;
        }
        let in_bounds = self.contains(position);
        if in_bounds && size <= self.size_x && size <= self.size_y {
            let end_x: u32 = position.x as u32 + size as u32 - 1;
            let end_y: u32 = position.y as u32 + size as u32 - 1;
            return end_x <= self.end_position.x as u32 && end_y <= self.end_position.y as u32;
        }
        false
    }

    /// Every position of the area, column by column: the position at column `i` and row `j` is
    /// at index `i * rows + j`. So the list holds exactly the area's positions, each once, in
    /// increasing order of column and then row.
    pub fn get_positions(&self) -> (positions: Vec<Position>)
        requires
            self.end_position.x < u16::MAX,
            self.end_position.y < u16::MAX,
        ensures
            positions@.len() == self.columns() * self.rows(),
            forall|i: int, j: int| 0 <= i < self.columns() && 0 <= j < self.rows()
                ==> #[trigger] positions@[i * self.rows() + j] == grid_pos(self.start_position, i, j),
            forall|p: Position| positions@.contains(p) <==> self.contains_spec(p),
            forall|a: int, b: int| 0 <= a < b < positions@.len()
                ==> listed_before(#[trigger] positions@[a], #[trigger] positions@[b]),
    {
        let mut positions: Vec<Position> = Vec::new();
        let sx = self.start_position.x;
        let sy = self.start_position.y;
        let ex = self.end_position.x;
        let ey = self.end_position.y;
        let ghost rows = self.rows();
        let ghost cols = self.columns();
        let mut x = sx;
        while x < ex + 1
            invariant
                sx == self.start_position.x,
                sy == self.start_position.y,
                ex == self.end_position.x,
                ey == self.end_position.y,
                ex < u16::MAX,
                ey < u16::MAX,
                rows == self.rows(),
                cols == self.columns(),
                sx <= x,
                x <= ex + 1 || x == sx,
                positions@.len() == (x - sx) * rows,
                forall|i: int, j: int| 0 <= i < x - sx && 0 <= j < rows
                    ==> #[trigger] positions@[i * rows + j] == grid_pos(self.start_position, i, j),
            decreases ex + 1 - x,
        {
            let mut y = sy;
            let ghost before = positions@;
            let ghost i0: int = x - sx;
            while y < ey + 1
                invariant
                    sx == self.start_position.x,
                    sy == self.start_position.y,
                    ex == self.end_position.x,
                    ey == self.end_position.y,
                    ey < u16::MAX,
                    rows == self.rows(),
                    x < ex + 1,
                    i0 == x - sx,
                    sy <= y,
                    y <= ey + 1 || y == sy,
                    rows == if ey >= sy { ey - sy + 1 } else { 0 },
                    before.len() == i0 * rows,
                    positions@.len() == i0 * rows + (y - sy),
                    forall|k: int| 0 <= k < before.len() ==> positions@[k] == before[k],
                    forall|j: int| 0 <= j < y - sy ==> #[trigger] positions@[i0 * rows + j] == grid_pos(self.start_position, i0, j),
                decreases ey + 1 - y,
            {
                positions.push(Position { x, y });
                y += 1;
            }
            assert(y - sy == rows);
            assert forall|i: int, j: int| 0 <= i < x + 1 - sx && 0 <= j < rows
                implies #[trigger] positions@[i * rows + j] == grid_pos(self.start_position, i, j) by {
                if i < i0 {
                    lemma_row_index_below(i, j, i0, rows);
                    assert(positions@[i * rows + j] == before[i * rows + j]);
                }
            }
            assert((x + 1 - sx) * rows == (x - sx) * rows + rows) by (nonlinear_arith);
            x += 1;
        }
        if ex + 1 >= sx {
            assert(x == ex + 1);
            assert(cols == x - sx);
        } else {
            assert(cols == 0);
            assert(x == sx);
        }
        proof {
            let start = self.start_position;
            assert(cols >= 0 && rows >= 0);
            assert forall|p: Position| positions@.contains(p) <==> self.contains_spec(p) by {
                if self.contains_spec(p) {
                    let i: int = p.x - sx;
                    let j: int = p.y - sy;
                    assert(0 <= i * rows + j < cols * rows) by (nonlinear_arith)
                        requires
                            0 <= i < cols,
                            0 <= j < rows,
                    ;
                    assert(positions@[i * rows + j] == grid_pos(start, i, j));
                    assert(grid_pos(start, i, j) == p);
                }
                if positions@.contains(p) {
                    let k = choose|k: int| 0 <= k < positions@.len() && positions@[k] == p;
                    let (i, j) = lemma_index_split(k, rows, cols);
                    assert(positions@[i * rows + j] == grid_pos(start, i, j));
                }
            }
            assert forall|a: int, b: int| 0 <= a < b < positions@.len()
                implies listed_before(#[trigger] positions@[a], #[trigger] positions@[b]) by {
                let (i1, j1) = lemma_index_split(a, rows, cols);
                let (i2, j2) = lemma_index_split(b, rows, cols);
                assert(i1 < i2 || (i1 == i2 && j1 < j2)) by (nonlinear_arith)
                    requires
                        a == i1 * rows + j1,
                        b == i2 * rows + j2,
                        0 <= j1 < rows,
                        0 <= j2 < rows,
                        a < b,
                ;
                assert(positions@[i1 * rows + j1] == grid_pos(start, i1, j1));
                assert(positions@[i2 * rows + j2] == grid_pos(start, i2, j2));
            }
        }
        positions
    }
}

/// `p` comes before `q` column by column: it is in an earlier column, or in the same column
/// and an earlier row.
pub open spec fn listed_before(p: Position, q: Position) -> bool {
    p.x < q.x || (p.x == q.x && p.y < q.y)
}

/// An index below `cols * rows` splits into a column below `cols` and a row below `rows`.
proof fn lemma_index_split(k: int, rows: int, cols: int) -> (ij: (int, int))
    requires
        0 <= k < cols * rows,
        rows >= 0,
        cols >= 0,
    ensures
        0 <= ij.0 < cols,
        0 <= ij.1 < rows,
        k == ij.0 * rows + ij.1,
{
    assert(rows > 0) by (nonlinear_arith)
        requires
            0 <= k < cols * rows,
            rows >= 0,
            cols >= 0,
    ;
    vstd::arithmetic::div_mod::lemma_fundamental_div_mod(k, rows);
    vstd::arithmetic::div_mod::lemma_mod_pos_bound(k, rows);
    let i = k / rows;
    let j = k % rows;
    assert(k == i * rows + j) by (nonlinear_arith)
        requires
            k == rows * (k / rows) + k % rows,
            i == k / rows,
            j == k % rows,
    ;
    assert(0 <= i < cols) by (nonlinear_arith)
        requires
            k == i * rows + j,
            0 <= j < rows,
            0 <= k < cols * rows,
            rows > 0,
    ;
    (i, j)
}

/// An index inside an earlier column stays before the start of a later column.
proof fn lemma_row_index_below(i: int, j: int, i0: int, rows: int)
    requires
        0 <= i < i0,
        0 <= j < rows,
    ensures
        0 <= i * rows + j < i0 * rows,
{
    assert(0 <= i * rows) by (nonlinear_arith)
        requires 0 <= i, 0 <= rows;
    assert((i + 1) * rows <= i0 * rows) by (nonlinear_arith)
        requires i + 1 <= i0, 0 <= rows;
    assert((i + 1) * rows == i * rows + rows) by (nonlinear_arith);
}

/// The point halfway along an area side, rounding towards its start.
pub open spec fn mid_point(s: AreaSide) -> Position {
    match s.side {
        Side::LEFT => Position {
            x: s.area.start_position.x,
            y: (s.area.start_position.y + (s.area.size_y - 1) / 2) as u16,
        },
        Side::RIGHT => Position {
            x: s.area.end_position.x,
            y: (s.area.start_position.y + (s.area.size_y - 1) / 2) as u16,
        },
        Side::TOP => Position {
            x: (s.area.start_position.x + (s.area.size_x - 1) / 2) as u16,
            y: s.area.start_position.y,
        },
        Side::BOTTOM => Position {
            x: (s.area.start_position.x + (s.area.size_x - 1) / 2) as u16,
            y: s.area.end_position.y,
        },
    }
}

impl AreaSide {
    pub open spec fn mid_point_fits(self) -> bool {
        match self.side {
            Side::LEFT | Side::RIGHT => self.area.size_y >= 1
                && self.area.start_position.y + (self.area.size_y - 1) / 2 <= u16::MAX,
            Side::TOP | Side::BOTTOM => self.area.size_x >= 1
                && self.area.start_position.x + (self.area.size_x - 1) / 2 <= u16::MAX,
        }
    }

    pub fn get_mid_point(&self) -> (p: Position)
        requires
            self.mid_point_fits(),
        ensures
            p == mid_point(*self),
    {
        match self.side {
            Side::LEFT => Position {
                x: self.area.start_position.x,
                y: self.area.start_position.y + (self.area.size_y - 1) / 2,
            },
            Side::RIGHT => Position {
                x: self.area.end_position.x,
                y: self.area.start_position.y + (self.area.size_y - 1) / 2,
            },
            Side::TOP => Position {
                x: self.area.start_position.x + (self.area.size_x - 1) / 2,
                y: self.area.start_position.y,
            },
            Side::BOTTOM => Position {
                x: self.area.start_position.x + (self.area.size_x - 1) / 2,
                y: self.area.end_position.y,
            },
        }
    }
}

pub fn all_sides() -> (r: [Side; 4])
    ensures
        r@ == seq![Side::LEFT, Side::RIGHT, Side::TOP, Side::BOTTOM],
{
    let r = [Side::LEFT, Side::RIGHT, Side::TOP, Side::BOTTOM];
    assert(r@ =~= seq![Side::LEFT, Side::RIGHT, Side::TOP, Side::BOTTOM]);
    r
}

pub fn build_line(start_position: Position, size: u16, side: Side) -> (r: AreaSide)
    requires
        line_fits(start_position, size),
    ensures
        r == line(start_position, size, side),
{
    let start_x = start_position.x;
    let start_y = start_position.y;
    let z = size - 1;
    let area = match side {
        Side::LEFT => Area {
            start_position: Position { x: start_x, y: start_y },
            end_position: Position { x: start_x, y: start_y + z },
            size_x: 1,
            size_y: size,
        },
        Side::RIGHT => Area {
            start_position: Position { x: start_x + z, y: start_y },
            end_position: Position { x: start_x + z, y: start_y + z },
            size_x: 1,
            size_y: size,
        },
        Side::TOP => Area {
            start_position: Position { x: start_x, y: start_y },
            end_position: Position { x: start_x + z, y: start_y },
            size_x: size,
            size_y: 1,
        },
        Side::BOTTOM => Area {
            start_position: Position { x: start_x, y: start_y + z },
            end_position: Position { x: start_x + z, y: start_y + z },
            size_x: size,
            size_y: 1,
        },
    };
    AreaSide { area, side }
}

pub fn build_square_area(start_position: Position, size: u16) -> (a: Area)
    requires
        rect_fits(start_position, size, size),
    ensures
        a == rect(start_position, size, size),
        a.wf(),
{
    build_rectangular_area(start_position, size, size)
}

pub fn build_rectangular_area(start_position: Position, size_x: u16, size_y: u16) -> (a: Area)
    requires
        rect_fits(start_position, size_x, size_y),
    ensures
        a == rect(start_position, size_x, size_y),
        a.wf(),
{
    let end_position = Position { x: start_position.x + (size_x - 1), y: start_position.y + (size_y - 1) };
    Area { start_position, end_position, size_x, size_y }
}

/// Maps a roll in `0..8` to a side: the first four rolls pick each side in turn and every
/// other roll picks the left side.
pub fn side_from_roll(roll: u32) -> (s: Side)
    ensures
        s == (if roll == 1 { Side::RIGHT } else if roll == 2 { Side::TOP } else if roll == 3 { Side::BOTTOM } else { Side::LEFT }),
{
    if roll == 1 {
        Side::RIGHT
    } else if roll == 2 {
        Side::TOP
    } else if roll == 3 {
        Side::BOTTOM
    } else {
        Side::LEFT
    }
}

} // verus!
