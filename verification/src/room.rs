use vstd::prelude::*;

use crate::door::Door;
use crate::position::{line, line_fits, rect, rect_fits, Area, AreaSide, Position, Side, build_rectangular_area};
use crate::random::{new_id, random_range};

verus! {

/// A room of the map: its outer area (walls included), its doors, and optional entry and exit
/// positions that lead to the previous and next level.
#[derive(Debug)]
pub struct Room {
    id: u128,
    area: Area,
    doors: Vec<Door>,
    entry: Option<Position>,
    exit: Option<Position>,
}

/// Copies a list of doors.
pub fn clone_doors(doors: &Vec<Door>) -> (r: Vec<Door>)
    ensures
        r@ == doors@,
{
    let mut out: Vec<Door> = Vec::new();
    let mut i: usize = 0;
    while i < doors.len()
        invariant
            i <= doors@.len(),
            out@ == doors@.subrange(0, i as int),
        decreases doors@.len() - i,
    {
        out.push(doors[i].clone());
        i += 1;
        assert(out@ =~= doors@.subrange(0, i as int));
    }
    assert(out@ =~= doors@);
    out
}

/// The same room: identical fields, with the doors compared by content.
pub open spec fn same_room(a: Room, b: Room) -> bool {
    &&& a.id() == b.id()
    &&& a.area() == b.area()
    &&& a.doors() == b.doors()
    &&& a.entry() == b.entry()
    &&& a.exit() == b.exit()
}

impl Clone for Room {
    fn clone(&self) -> (r: Self)
        ensures
            same_room(r, *self),
    {
        Room { id: self.id, area: self.area, doors: clone_doors(&self.doors), entry: self.entry, exit: self.exit }
    }
}

pub fn build_room(area: Area, doors: Vec<Door>) -> (r: Room)
    ensures
        r.area() == area,
        r.doors() == doors@,
        r.entry() == None::<Position>,
        r.exit() == None::<Position>,
{
    Room { id: new_id(), area, doors, entry: None, exit: None }
}

impl Room {
    pub closed spec fn id(self) -> u128 {
        self.id
    }

    pub closed spec fn area(self) -> Area {
        self.area
    }

    pub closed spec fn doors(self) -> Seq<Door> {
        self.doors@
    }

    pub closed spec fn entry(self) -> Option<Position> {
        self.entry
    }

    pub closed spec fn exit(self) -> Option<Position> {
        self.exit
    }

    /// The room's walls can be listed: its sides fit in the position range.
    pub open spec fn sides_fit(self) -> bool {
        line_fits(self.area().start_position, self.area().size_x)
        && line_fits(self.area().start_position, self.area().size_y)
    }

    /// The room has an inside: it is at least three tiles across on each axis.
    pub open spec fn has_inside(self) -> bool {
        &&& self.area().size_x >= 3
        &&& self.area().size_y >= 3
        &&& self.area().start_position.x + self.area().size_x - 2 <= u16::MAX
        &&& self.area().start_position.y + self.area().size_y - 2 <= u16::MAX
    }

    /// The area within the room's walls.
    pub open spec fn inside_area(self) -> Area {
        rect(
            Position { x: (self.area().start_position.x + 1) as u16, y: (self.area().start_position.y + 1) as u16 },
            (self.area().size_x - 2) as u16,
            (self.area().size_y - 2) as u16,
        )
    }

    pub fn get_sides(&self) -> (sides: Vec<AreaSide>)
        requires
            self.sides_fit(),
        ensures
            sides@ == seq![
                line(self.area().start_position, self.area().size_y, Side::LEFT),
                line(self.area().start_position, self.area().size_y, Side::RIGHT),
                line(self.area().start_position, self.area().size_x, Side::TOP),
                line(self.area().start_position, self.area().size_x, Side::BOTTOM),
            ],
    {
        self.area.get_sides()
    }

    /// The room's area without its one-tile border of walls.
    pub fn get_inside_area(&self) -> (a: Area)
        requires
            self.has_inside(),
        ensures
            a == self.inside_area(),
            a.wf(),
    {
        let start_pos = self.area.start_position;
        let start_position = Position { x: start_pos.x + 1, y: start_pos.y + 1 };
        build_rectangular_area(start_position, self.area.size_x - 2, self.area.size_y - 2)
    }

    /// A position chosen at random inside the room's walls.
    pub fn random_inside_pos(&self) -> (p: Position)
        requires
            self.has_inside(),
        ensures
            self.inside_area().contains_spec(p),
    {
        let inside_area = self.get_inside_area();
        let size_x = inside_area.get_size_x();
        let size_y = inside_area.get_size_y();
        let random_x = random_range(0, size_x as u64) as u16;
        let random_y = random_range(0, size_y as u64) as u16;
        Position { x: inside_area.start_position.x + random_x, y: inside_area.start_position.y + random_y }
    }

    pub fn get_id(&self) -> (r: u128)
        ensures
            r == self.id(),
    {
        self.id
    }

    /// Whether two rooms carry the same identifier.
    pub fn uuid_equals(&self, other: &Room) -> (r: bool)
        ensures
            r == (self.id() == other.id()),
    {
        self.id == other.id
    }

    pub fn get_area(&self) -> (r: Area)
        ensures
            r == self.area(),
    {
        self.area
    }

    pub fn get_doors(&self) -> (r: &Vec<Door>)
        ensures
            r@ == self.doors(),
    {
        &self.doors
    }

    pub fn set_doors(&mut self, doors: Vec<Door>)
        ensures
            final(self).doors() == doors@,
            final(self).id() == old(self).id(),
            final(self).area() == old(self).area(),
            final(self).entry() == old(self).entry(),
            final(self).exit() == old(self).exit(),
    {
        self.doors = doors;
    }

    pub fn get_entry(&self) -> (r: Option<Position>)
        ensures
            r == self.entry(),
    {
        self.entry
    }

    pub fn set_entry(&mut self, entry: Option<Position>)
        ensures
            final(self).entry() == entry,
            final(self).id() == old(self).id(),
            final(self).area() == old(self).area(),
            final(self).doors() == old(self).doors(),
            final(self).exit() == old(self).exit(),
    {
        self.entry = entry;
    }

    pub fn get_exit(&self) -> (r: Option<Position>)
        ensures
            r == self.exit(),
    {
        self.exit
    }

    pub fn set_exit(&mut self, exit: Option<Position>)
        ensures
            final(self).exit() == exit,
            final(self).id() == old(self).id(),
            final(self).area() == old(self).area(),
            final(self).doors() == old(self).doors(),
            final(self).entry() == old(self).entry(),
    {
        self.exit = exit;
    }
}

} // verus!
