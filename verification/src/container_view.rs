use vstd::prelude::*;

use crate::container::{Container, ContainerType};
use crate::input::Key;
use crate::items::Item;
use crate::text::{decimal, i32_to_string};

verus! {

/// A column of the container listing: its heading and its width.
#[derive(Debug)]
pub struct Column {
    pub name: String,
    pub size: i8,
}

/// Which column of a container listing is selected.
#[derive(Debug)]
pub struct ContainerFrameHandler {
    pub selected_index: i32,
    pub columns: Vec<Column>,
}

impl ContainerFrameHandler {
    /// The listing's standard columns: name, weight and value, twelve characters each.
    pub fn new() -> (h: ContainerFrameHandler)
        ensures
            h.selected_index == 0,
            h.columns@.len() == 3,
            h.columns@[0].name@ == "NAME"@,
            h.columns@[1].name@ == "WEIGHT (Kg)"@,
            h.columns@[2].name@ == "VALUE"@,
            forall|i: int| 0 <= i < 3 ==> #[trigger] h.columns@[i].size == 12,
    {
        let columns = vec![
            Column { name: "NAME".to_string(), size: 12 },
            Column { name: "WEIGHT (Kg)".to_string(), size: 12 },
            Column { name: "VALUE".to_string(), size: 12 },
        ];
        ContainerFrameHandler { selected_index: 0, columns }
    }

    /// Selects the next column, stopping at the last.
    pub fn increment_selection(&mut self)
        requires
            old(self).columns@.len() <= i32::MAX,
        ensures
            final(self).columns@ == old(self).columns@,
            final(self).selected_index == if old(self).selected_index < old(self).columns@.len() - 1 {
                old(self).selected_index + 1
            } else {
                old(self).selected_index as int
            },
    {
        let column_count = self.columns.len() as i32;
        if self.selected_index < column_count - 1 {
            self.selected_index += 1;
        }
    }

    /// Selects the previous column, stopping at the first.
    pub fn decrement_selection(&mut self)
        ensures
            final(self).columns@ == old(self).columns@,
            final(self).selected_index == if old(self).selected_index > 0 {
                old(self).selected_index - 1
            } else {
                old(self).selected_index as int
            },
    {
        if self.selected_index > 0 {
            self.selected_index -= 1;
        }
    }
}

/// What a container view does after a key press.
#[derive(Copy, Clone, PartialEq, Eq, Structural, Debug)]
pub enum ContainerViewStep {
    /// Leave the view.
    Close,
    /// Show a view of the content at this index.
    Open(usize),
    /// Keep showing the view.
    Stay,
}

impl ContainerFrameHandler {
    /// Reacts to one key in a view of `container`: `q` closes the view, `o` opens the selected
    /// content when it can be opened, up and down move the selection, and other keys change
    /// nothing.
    pub fn handle_key(&mut self, key: Key, container: &Container) -> (step: ContainerViewStep)
        requires
            old(self).columns@.len() <= i32::MAX,
            key == Key::Char('o') ==> 0 <= old(self).selected_index < container.contents@.len(),
        ensures
            final(self).columns@ == old(self).columns@,
            step == match key {
                Key::Char('q') => ContainerViewStep::Close,
                Key::Char('o') => {
                    let c = container.contents@[old(self).selected_index as int];
                    if c.container_type == ContainerType::OBJECT || c.container_type == ContainerType::AREA {
                        ContainerViewStep::Open(old(self).selected_index as usize)
                    } else {
                        ContainerViewStep::Stay
                    }
                },
                _ => ContainerViewStep::Stay,
            },
            final(self).selected_index == match key {
                Key::Up => if old(self).selected_index > 0 {
                    old(self).selected_index - 1
                } else {
                    old(self).selected_index as int
                },
                Key::Down => if old(self).selected_index < old(self).columns@.len() - 1 {
                    old(self).selected_index + 1
                } else {
                    old(self).selected_index as int
                },
                _ => old(self).selected_index as int,
            },
    {
        match key {
            Key::Char('q') => ContainerViewStep::Close,
            Key::Char('o') => {
                let index = self.selected_index as usize;
                if container.contents[index].can_open() {
                    ContainerViewStep::Open(index)
                } else {
                    ContainerViewStep::Stay
                }
            },
            Key::Up => {
                self.decrement_selection();
                ContainerViewStep::Stay
            },
            Key::Down => {
                self.increment_selection();
                ContainerViewStep::Stay
            },
            _ => ContainerViewStep::Stay,
        }
    }
}

/// One space fewer than `length`, or none.
pub fn build_padding(length: i8) -> (s: String)
    ensures
        s@ == Seq::new(if length > 1 { (length - 1) as nat } else { 0 }, |i: int| ' '),
{
    let mut s = String::new();
    let mut i: i8 = 1;
    while i < length
        invariant
            1 <= i,
            i <= length || i == 1,
            s@ == Seq::new((i - 1) as nat, |k: int| ' '),
        decreases length - i,
    {
        s = join_space(s);
        i += 1;
    }
    proof {
        if length > 1 {
            assert(i == length);
        } else {
            assert(i == 1);
        }
        assert(s@ =~= Seq::new(if length > 1 { (length - 1) as nat } else { 0 }, |i: int| ' '));
    }
    s
}

fn join_space(s: String) -> (r: String)
    ensures
        r@ == s@.push(' '),
{
    let r = crate::text::join3(s.as_str(), " ", "");
    proof {
        reveal_strlit(" ");
        reveal_strlit("");
        assert(r@ =~= s@.push(' '));
    }
    r
}

/// The text of an item under a column: its name, weight or value, or nothing for an unknown
/// column.
pub fn build_column_text(column: &Column, item: &Item) -> (s: String)
    ensures
        s@ == if column.name@ == "NAME"@ {
            item.name@
        } else if column.name@ == "WEIGHT (Kg)"@ {
            decimal(item.weight)
        } else if column.name@ == "VALUE"@ {
            decimal(item.value)
        } else {
            Seq::empty()
        },
{
    if column.name == "NAME".to_string() {
        item.get_name()
    } else if column.name == "WEIGHT (Kg)".to_string() {
        i32_to_string(item.get_weight())
    } else if column.name == "VALUE".to_string() {
        i32_to_string(item.get_value())
    } else {
        String::new()
    }
}

} // verus!
