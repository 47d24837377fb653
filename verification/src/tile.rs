use vstd::prelude::*;

verus! {

#[derive(Copy, Clone, PartialEq, Eq, Structural, Debug, Hash)]
pub enum Tile {
    NoTile,
    Corridor,
    Room,
    Wall,
    Window,
    Door,
    Entry,
    Exit,
    Deadly,
}

#[derive(Copy, Clone, PartialEq, Eq, Structural, Debug)]
pub enum Colour {
    NoColour,
    Red,
    Green,
    Blue,
    Cyan,
    Brown,
    White,
    Black,
}

/// How a kind of tile looks and whether it can be walked on.
#[derive(Debug)]
pub struct TileDetails {
    pub id: u64,
    pub tile_type: Tile,
    pub traversable: bool,
    pub symbol: char,
    pub colour: Colour,
    pub name: String,
}

impl Clone for TileDetails {
    fn clone(&self) -> (r: Self)
        ensures
            r == *self,
    {
        TileDetails {
            id: self.id,
            tile_type: self.tile_type,
            traversable: self.traversable,
            symbol: self.symbol,
            colour: self.colour,
            name: self.name.clone(),
        }
    }
}

/// The position of a tile kind in the library, in declaration order.
pub open spec fn tile_index(t: Tile) -> int {
    match t {
        Tile::NoTile => 0,
        Tile::Corridor => 1,
        Tile::Room => 2,
        Tile::Wall => 3,
        Tile::Window => 4,
        Tile::Door => 5,
        Tile::Entry => 6,
        Tile::Exit => 7,
        Tile::Deadly => 8,
    }
}

/// Whether a tile kind can be walked on.
pub open spec fn tile_traversable(t: Tile) -> bool {
    match t {
        Tile::Corridor | Tile::Room | Tile::Door | Tile::Entry | Tile::Exit => true,
        _ => false,
    }
}

pub open spec fn tile_symbol(t: Tile) -> char {
    match t {
        Tile::NoTile => ' ',
        Tile::Corridor => '-',
        Tile::Room => '-',
        Tile::Wall => '#',
        Tile::Window => '%',
        Tile::Door => '=',
        Tile::Entry => '^',
        Tile::Exit => '^',
        Tile::Deadly => '!',
    }
}

pub open spec fn tile_colour(t: Tile) -> Colour {
    match t {
        Tile::NoTile => Colour::NoColour,
        Tile::Corridor => Colour::Blue,
        Tile::Room => Colour::Blue,
        Tile::Wall => Colour::Brown,
        Tile::Window => Colour::Cyan,
        Tile::Door => Colour::White,
        Tile::Entry => Colour::Green,
        Tile::Exit => Colour::Red,
        Tile::Deadly => Colour::Red,
    }
}

pub open spec fn tile_name(t: Tile) -> Seq<char> {
    match t {
        Tile::NoTile => "Empty"@,
        Tile::Corridor => "Corridor"@,
        Tile::Room => "Room"@,
        Tile::Wall => "Wall"@,
        Tile::Window => "Window"@,
        Tile::Door => "Door"@,
        Tile::Entry => "Entry"@,
        Tile::Exit => "Exit"@,
        Tile::Deadly => "Deadly"@,
    }
}

/// The library's entry for the given tile kind: its id is its index in declaration order.
pub open spec fn is_library_entry(d: TileDetails, t: Tile) -> bool {
    &&& d.tile_type == t
    &&& d.id == tile_index(t)
    &&& d.traversable == tile_traversable(t)
    &&& d.symbol == tile_symbol(t)
    &&& d.colour == tile_colour(t)
    &&& d.name@ == tile_name(t)
}

/// The details of every kind of tile, looked up by kind.
#[derive(Debug)]
pub struct TileLibrary {
    entries: Vec<TileDetails>,
}

/// Every kind of tile, in declaration order.
pub open spec fn all_tiles() -> Seq<Tile> {
    seq![Tile::NoTile, Tile::Corridor, Tile::Room, Tile::Wall, Tile::Window, Tile::Door, Tile::Entry, Tile::Exit, Tile::Deadly]
}

impl View for TileLibrary {
    type V = Seq<TileDetails>;

    closed spec fn view(&self) -> Seq<TileDetails> {
        self.entries@
    }
}

impl TileLibrary {

    /// One entry per tile kind, in declaration order.
    pub open spec fn wf(&self) -> bool {
        &&& self@.len() == 9
        &&& forall|i: int| 0 <= i < 9 ==> #[trigger] is_library_entry(self@[i], all_tiles()[i])
    }

    pub fn len(&self) -> (n: usize)
        ensures
            n == self@.len(),
    {
        self.entries.len()
    }

    /// The details of the given tile kind.
    pub fn get(&self, tile: Tile) -> (d: TileDetails)
        requires
            self.wf(),
        ensures
            is_library_entry(d, tile),
    {
        let i: usize = match tile {
            Tile::NoTile => 0,
            Tile::Corridor => 1,
            Tile::Room => 2,
            Tile::Wall => 3,
            Tile::Window => 4,
            Tile::Door => 5,
            Tile::Entry => 6,
            Tile::Exit => 7,
            Tile::Deadly => 8,
        };
        assert(is_library_entry(self@[i as int], all_tiles()[i as int]));
        self.entries[i].clone()
    }
}

fn entry(id: u64, tile_type: Tile, traversable: bool, symbol: char, colour: Colour, name: &str) -> (d: TileDetails)
    ensures
        d.id == id,
        d.tile_type == tile_type,
        d.traversable == traversable,
        d.symbol == symbol,
        d.colour == colour,
        d.name@ == name@,
{
    TileDetails { id, tile_type, traversable, symbol, colour, name: name.to_string() }
}

/// The details of all nine tile kinds.
pub fn build_library() -> (lib: TileLibrary)
    ensures
        lib.wf(),
{
    let mut entries: Vec<TileDetails> = Vec::new();
    entries.push(entry(0, Tile::NoTile, false, ' ', Colour::NoColour, "Empty"));
    entries.push(entry(1, Tile::Corridor, true, '-', Colour::Blue, "Corridor"));
    entries.push(entry(2, Tile::Room, true, '-', Colour::Blue, "Room"));
    entries.push(entry(3, Tile::Wall, false, '#', Colour::Brown, "Wall"));
    entries.push(entry(4, Tile::Window, false, '%', Colour::Cyan, "Window"));
    entries.push(entry(5, Tile::Door, true, '=', Colour::White, "Door"));
    entries.push(entry(6, Tile::Entry, true, '^', Colour::Green, "Entry"));
    entries.push(entry(7, Tile::Exit, true, '^', Colour::Red, "Exit"));
    entries.push(entry(8, Tile::Deadly, false, '!', Colour::Red, "Deadly"));
    let lib = TileLibrary { entries };
    assert forall|i: int| 0 <= i < 9 implies #[trigger] is_library_entry(lib@[i], all_tiles()[i]) by {
        if i == 0 {} else if i == 1 {} else if i == 2 {} else if i == 3 {} else if i == 4 {}
        else if i == 5 {} else if i == 6 {} else if i == 7 {} else {}
    }
    lib
}

} // verus!
