use vstd::prelude::*;

use std::collections::VecDeque;

use crate::items::Item;

verus! {

broadcast use vstd::std_specs::vecdeque::group_vec_dequeue_axioms;

/// What a selection over a list is used for.
#[derive(Copy, Clone, PartialEq, Eq, Structural, Debug)]
pub enum SelectionMode {
    SelectingItems,
}

/// A scrolling selection over a list of items shown a page of lines at a time. Indices into the
/// list are absolute ("container" indices); `start_index` is the index of the topmost line shown.
pub struct ItemListSelection<'a> {
    selection_mode: SelectionMode,
    selection_index: Option<i32>,
    start_index: i32,
    pivot_index: Option<i32>,
    previous_container_index: Option<i32>,
    container_index: i32,
    selecting_items: bool,
    selected_indices: VecDeque<i32>,
    selected_items: VecDeque<&'a Item>,
    items: Vec<&'a Item>,
    item_view_line_count: i32,
}

/// The state of a list selection.
pub struct ListView<'a> {
    pub selection_index: Option<i32>,
    pub start_index: i32,
    pub pivot_index: Option<i32>,
    pub previous_container_index: Option<i32>,
    pub container_index: i32,
    pub selecting_items: bool,
    pub selected_indices: Seq<i32>,
    pub selected_items: Seq<&'a Item>,
    pub items: Seq<&'a Item>,
    pub item_view_line_count: i32,
}

impl<'a> View for ItemListSelection<'a> {
    type V = ListView<'a>;

    closed spec fn view(&self) -> ListView<'a> {
        ListView {
            selection_index: self.selection_index,
            start_index: self.start_index,
            pivot_index: self.pivot_index,
            previous_container_index: self.previous_container_index,
            container_index: self.container_index,
            selecting_items: self.selecting_items,
            selected_indices: self.selected_indices@,
            selected_items: self.selected_items@,
            items: self.items@,
            item_view_line_count: self.item_view_line_count,
        }
    }
}

pub open spec fn fits_i32(x: int) -> bool {
    i32::MIN <= x <= i32::MAX
}

/// The pivot (the first index selected), or -1 when there is none.
pub open spec fn pivot(v: ListView) -> int {
    match v.pivot_index {
        Some(i) => i as int,
        None => -1,
    }
}

/// The largest start index that still fills the page.
pub open spec fn max_scroll_index(v: ListView) -> int {
    if v.items.len() > v.item_view_line_count { v.items.len() - v.item_view_line_count } else { 0 }
}

/// The lowest line of a page that holds an item.
pub open spec fn max_selection_index(v: ListView) -> int {
    if v.items.len() < v.item_view_line_count { v.items.len() - 1 } else { v.item_view_line_count - 1 }
}

/// The selected entries match the items at their indices, with no index twice.
pub open spec fn consistent(v: ListView) -> bool {
    &&& v.selected_items.len() == v.selected_indices.len()
    &&& v.selected_indices.no_duplicates()
    &&& forall|k: int| 0 <= k < v.selected_indices.len() ==> 0 <= #[trigger] v.selected_indices[k] < v.items.len()
    &&& forall|k: int| 0 <= k < v.selected_indices.len() ==> #[trigger] v.selected_items[k] == v.items[v.selected_indices[k] as int]
}

/// Selecting an index: an unselected index of an item is added at the back when it lies at or
/// after the previous position, at the front otherwise, and becomes the selection index.
pub open spec fn select_spec<'a>(v: ListView<'a>, index: i32) -> ListView<'a> {
    if v.selected_indices.contains(index) || index < 0 || index >= v.items.len() {
        v
    } else if v.previous_container_index matches Some(p) && p <= index {
        ListView {
            selected_indices: v.selected_indices.push(index),
            selected_items: v.selected_items.push(v.items[index as int]),
            selection_index: Some(index),
            ..v
        }
    } else {
        ListView {
            selected_indices: seq![index] + v.selected_indices,
            selected_items: seq![v.items[index as int]] + v.selected_items,
            selection_index: Some(index),
            ..v
        }
    }
}

/// Deselecting a selected index of an item removes the entries at position `index` of the
/// selection (when there is one) and clears the selection index if it was `index`.
pub open spec fn deselect_spec<'a>(v: ListView<'a>, index: i32) -> ListView<'a> {
    if !v.selected_indices.contains(index) || index < 0 || index >= v.items.len() {
        v
    } else {
        ListView {
            selected_indices: if index < v.selected_indices.len() { v.selected_indices.remove(index as int) } else { v.selected_indices },
            selected_items: if index < v.selected_items.len() { v.selected_items.remove(index as int) } else { v.selected_items },
            selection_index: if v.selection_index == Some(index) { None } else { v.selection_index },
            ..v
        }
    }
}

/// Selecting `start`, `start + 1`, ..., `end - 1` in turn.
pub open spec fn select_upto<'a>(v: ListView<'a>, start: int, end: int) -> ListView<'a>
    decreases end - start,
{
    if end <= start { v } else { select_spec(select_upto(v, start, end - 1), (end - 1) as i32) }
}

/// Deselecting `start`, `start + 1`, ..., `end - 1` in turn.
pub open spec fn deselect_upto<'a>(v: ListView<'a>, start: int, end: int) -> ListView<'a>
    decreases end - start,
{
    if end <= start { v } else { deselect_spec(deselect_upto(v, start, end - 1), (end - 1) as i32) }
}

/// Selecting `hi`, `hi - 1`, ..., `lo` in turn.
pub open spec fn select_down<'a>(v: ListView<'a>, hi: int, lo: int) -> ListView<'a>
    decreases hi - lo + 1,
{
    if lo > hi { v } else { select_spec(select_down(v, hi, lo + 1), lo as i32) }
}

pub open spec fn selecting_items_above<'a>(v: ListView<'a>) -> ListView<'a> {
    match v.previous_container_index {
        Some(p) => if v.container_index < p && v.container_index < pivot(v) {
            select_down(v, pivot(v), v.container_index as int)
        } else {
            v
        },
        None => v,
    }
}

pub open spec fn reducing_selection_above<'a>(v: ListView<'a>) -> ListView<'a> {
    match v.previous_container_index {
        Some(p) => if (v.container_index > p && v.container_index < pivot(v)) || v.container_index == pivot(v) {
            deselect_upto(v, p - 1, v.container_index as int)
        } else {
            v
        },
        None => v,
    }
}

pub open spec fn selecting_items_below<'a>(v: ListView<'a>) -> ListView<'a> {
    match v.previous_container_index {
        Some(p) => if v.container_index > p && v.container_index > pivot(v) {
            select_upto(v, pivot(v), v.container_index + 1)
        } else {
            v
        },
        None => v,
    }
}

pub open spec fn reducing_selection_below<'a>(v: ListView<'a>) -> ListView<'a> {
    match v.previous_container_index {
        Some(p) => if (v.container_index < p && v.container_index > pivot(v)) || v.container_index == pivot(v) {
            deselect_upto(v, v.container_index as int, p + 1)
        } else {
            v
        },
        None => v,
    }
}

/// Moving the selection to line `n` of the page: the current index becomes the previous one,
/// the new index is `n` past the start of the page, and the first such index is the pivot.
pub open spec fn update_indices<'a>(v: ListView<'a>, n: i32) -> ListView<'a> {
    match v.selection_index {
        Some(_) => {
            let ci = (n + v.start_index) as i32;
            ListView {
                previous_container_index: Some(v.container_index),
                container_index: ci,
                selection_index: Some(ci),
                pivot_index: if v.pivot_index is None { Some(ci) } else { v.pivot_index },
                ..v
            }
        },
        None => v,
    }
}

/// Moving the selection to line `n`; while selecting, the range between the pivot and the new
/// index is grown or shrunk to follow.
pub open spec fn update_selection_spec<'a>(v: ListView<'a>, n: i32) -> ListView<'a> {
    let u = update_indices(v, n);
    match u.previous_container_index {
        Some(p) => if u.container_index != p && u.selecting_items {
            reducing_selection_below(selecting_items_below(reducing_selection_above(selecting_items_above(u))))
        } else {
            u
        },
        None => u,
    }
}

/// The arithmetic of moving to line `n` stays within `i32`.
pub open spec fn update_fits(v: ListView, n: i32) -> bool {
    &&& v.selection_index is Some ==> fits_i32(n + v.start_index)
    &&& v.container_index > i32::MIN
    &&& v.previous_container_index matches Some(p) ==> p > i32::MIN
}

pub open spec fn should_turn_to_previous_page_spec(v: ListView, selection_index: i32) -> bool {
    selection_index % v.item_view_line_count == 0 && v.start_index >= v.item_view_line_count
}

pub open spec fn should_turn_to_next_page_spec(v: ListView, selection_index: i32) -> bool {
    selection_index == max_selection_index(v) && v.start_index + v.item_view_line_count <= max_scroll_index(v)
}

/// The list settings that every page movement relies on: a non-negative page size and a list
/// whose length is an `i32`.
pub open spec fn page_ok(v: ListView) -> bool {
    &&& 0 <= v.item_view_line_count
    &&& v.items.len() <= i32::MAX
}

pub open spec fn page_up_spec<'a>(v: ListView<'a>) -> ListView<'a> {
    match v.selection_index {
        Some(si) => if should_turn_to_previous_page_spec(v, si) {
            let n = max_selection_index(v) as i32;
            let turned = ListView { start_index: (v.start_index - v.item_view_line_count) as i32, ..v };
            let w = if v.selecting_items { select_upto(turned, n as int, si as int) } else { turned };
            update_selection_spec(w, n)
        } else if si == 0 {
            update_selection_spec(ListView { start_index: 0, ..v }, 0)
        } else {
            update_selection_spec(v, 0)
        },
        None => if v.start_index >= v.item_view_line_count {
            ListView { start_index: (v.start_index - v.item_view_line_count) as i32, ..v }
        } else {
            v
        },
    }
}

pub open spec fn page_down_spec<'a>(v: ListView<'a>) -> ListView<'a> {
    match v.selection_index {
        Some(si) => if should_turn_to_next_page_spec(v, si) {
            update_selection_spec(ListView { start_index: (v.start_index + v.item_view_line_count) as i32, ..v }, 0)
        } else {
            update_selection_spec(v, max_selection_index(v) as i32)
        },
        None => ListView { start_index: v.item_view_line_count, ..v },
    }
}

/// The line a move up goes to: one line up, or line -1 at the top of a scrolled page.
pub open spec fn move_up_target(v: ListView, si: i32) -> int {
    if si > 0 { si - 1 } else if si == 0 && v.start_index > 0 { si - 1 } else { si as int }
}

/// The line a move down goes to: one line down, or one past the start of the page at the
/// bottom of a page that can scroll.
pub open spec fn move_down_target(v: ListView, si: i32) -> int {
    if si < max_selection_index(v) {
        si + 1
    } else if si == v.item_view_line_count - 1 && v.start_index < max_scroll_index(v) {
        v.start_index + 1
    } else {
        si as int
    }
}

pub open spec fn move_up_spec<'a>(v: ListView<'a>) -> ListView<'a> {
    match v.selection_index {
        Some(si) => update_selection_spec(v, move_up_target(v, si) as i32),
        None => v,
    }
}

pub open spec fn move_down_spec<'a>(v: ListView<'a>) -> ListView<'a> {
    match v.selection_index {
        Some(si) => update_selection_spec(v, move_down_target(v, si) as i32),
        None => v,
    }
}

/// The current and previous indices can be stepped below.
pub open spec fn indices_above_min(v: ListView) -> bool {
    &&& v.container_index > i32::MIN
    &&& v.previous_container_index matches Some(p) ==> p > i32::MIN
}

impl<'a> ItemListSelection<'a> {
    fn get_pivot_index(&self) -> (r: i32)
        ensures
            r == pivot(self@),
    {
        match self.pivot_index {
            Some(idx) => idx,
            None => -1,
        }
    }

    fn determine_max_scroll_index(&self) -> (r: i32)
        requires
            page_ok(self@),
        ensures
            r == max_scroll_index(self@),
    {
        let item_count = self.items.len() as i32;
        let mut max_scroll_index: i32 = 0;
        if item_count > self.item_view_line_count {
            max_scroll_index = item_count - self.item_view_line_count;
        }
        max_scroll_index
    }

    fn determine_max_selection_index(&self) -> (r: i32)
        requires
            page_ok(self@),
        ensures
            r == max_selection_index(self@),
    {
        let item_count = self.items.len() as i32;
        let mut max_selection_index = self.item_view_line_count - 1;
        if item_count < self.item_view_line_count {
            max_selection_index = self.item_view_line_count - (self.item_view_line_count - item_count) - 1;
        }
        max_selection_index
    }

    pub fn get_start_index(&self) -> (r: i32)
        ensures
            r == self@.start_index,
    {
        self.start_index
    }

    /// The listed items, in order.
    pub fn get_items(&self) -> (r: Vec<&'a Item>)
        ensures
            r@ == self@.items,
    {
        let mut out: Vec<&'a Item> = Vec::new();
        let mut i: usize = 0;
        while i < self.items.len()
            invariant
                i <= self.items@.len(),
                out@ == self.items@.subrange(0, i as int),
            decreases self.items@.len() - i,
        {
            out.push(self.items[i]);
            i += 1;
        }
        assert(out@ =~= self.items@);
        out
    }

    /// The selected items, in selection order.
    pub fn get_selected_items(&self) -> (r: VecDeque<&'a Item>)
        ensures
            r@ == self@.selected_items,
    {
        let mut out: VecDeque<&'a Item> = VecDeque::new();
        let mut i: usize = 0;
        while i < self.selected_items.len()
            invariant
                i <= self.selected_items@.len(),
                out@ == self.selected_items@.subrange(0, i as int),
            decreases self.selected_items@.len() - i,
        {
            out.push_back(self.selected_items[i]);
            i += 1;
        }
        assert(out@ =~= self.selected_items@);
        out
    }

    pub fn get_selected_count(&self) -> (r: i32)
        requires
            self@.selected_indices.len() <= i32::MAX,
        ensures
            r == self@.selected_indices.len(),
    {
        self.selected_indices.len() as i32
    }

    pub fn is_selecting(&self) -> (r: bool)
        ensures
            r == self@.selecting_items,
    {
        self.selecting_items
    }

    /// Switches between moving over the list and selecting while moving.
    pub fn toggle_select(&mut self)
        ensures
            final(self)@ == (ListView { selecting_items: !old(self)@.selecting_items, ..old(self)@ }),
    {
        self.selecting_items = !self.selecting_items;
    }

    pub fn is_selected(&self, index: i32) -> (r: bool)
        ensures
            r == self@.selected_indices.contains(index),
    {
        let mut i: usize = 0;
        while i < self.selected_indices.len()
            invariant
                i <= self.selected_indices@.len(),
                forall|j: int| 0 <= j < i ==> self.selected_indices@[j] != index,
            decreases self.selected_indices@.len() - i,
        {
            if self.selected_indices[i] == index {
                return true;
            }
            i += 1;
        }
        false
    }

    pub fn select(&mut self, index: i32)
        ensures
            final(self)@ == select_spec(old(self)@, index),
    {
        if !self.is_selected(index) {
            if index >= 0 && (index as usize) < self.items.len() {
                let item = self.items[index as usize];
                match self.previous_container_index {
                    Some(previous_container_index) => {
                        if previous_container_index <= index {
                            self.selected_indices.push_back(index);
                            self.selected_items.push_back(item);
                            self.selection_index = Some(index);
                            return;
                        }
                    },
                    None => {},
                }
                self.selected_indices.push_front(index);
                self.selected_items.push_front(item);
                self.selection_index = Some(index);
            }
        }
    }

    pub fn deselect(&mut self, index: i32)
        ensures
            final(self)@ == deselect_spec(old(self)@, index),
    {
        if self.is_selected(index) {
            if index >= 0 && (index as usize) < self.items.len() {
                self.selected_indices.remove(index as usize);
                self.selected_items.remove(index as usize);
                match self.selection_index {
                    Some(idx) => {
                        if idx == index {
                            self.selection_index = None;
                        }
                    },
                    None => {},
                }
            }
        }
    }

    fn select_range(&mut self, start: i32, end: i32)
        ensures
            final(self)@ == select_upto(old(self)@, start as int, end as int),
    {
        let mut i: i64 = start as i64;
        while i < end as i64
            invariant
                start <= i,
                i <= end || i == start,
                self@ == select_upto(old(self)@, start as int, i as int),
            decreases end - i,
        {
            self.select(i as i32);
            i += 1;
        }
    }
}

impl<'a> ItemListSelection<'a> {
    fn deselect_range_from(&mut self, start: i64, end: i64)
        requires
            i32::MIN <= start,
            end <= i32::MAX + 1,
        ensures
            final(self)@ == deselect_upto(old(self)@, start as int, end as int),
    {
        let mut i: i64 = start;
        while i < end
            invariant
                i32::MIN <= start <= i,
                i <= end || i == start,
                end <= i32::MAX + 1,
                self@ == deselect_upto(old(self)@, start as int, i as int),
            decreases end - i,
        {
            self.deselect(i as i32);
            i += 1;
        }
    }

    fn select_range_from(&mut self, start: i64, end: i64)
        requires
            i32::MIN <= start,
            end <= i32::MAX + 1,
        ensures
            final(self)@ == select_upto(old(self)@, start as int, end as int),
    {
        let mut i: i64 = start;
        while i < end
            invariant
                i32::MIN <= start <= i,
                i <= end || i == start,
                end <= i32::MAX + 1,
                self@ == select_upto(old(self)@, start as int, i as int),
            decreases end - i,
        {
            self.select(i as i32);
            i += 1;
        }
    }

    fn check_reducing_selection_below(&mut self)
        ensures
            final(self)@ == reducing_selection_below(old(self)@),
    {
        match self.previous_container_index {
            Some(previous_container_index) => {
                let reducing_selection_below = self.container_index < previous_container_index
                    && self.container_index > self.get_pivot_index();
                if reducing_selection_below || self.selected_start_position() {
                    self.deselect_range_from(self.container_index as i64, previous_container_index as i64 + 1);
                }
            },
            None => {},
        }
    }

    fn check_selecting_items_above(&mut self)
        ensures
            final(self)@ == selecting_items_above(old(self)@),
    {
        match self.previous_container_index {
            Some(previous_container_index) => {
                let pivot_index = self.get_pivot_index();
                let selecting_items_above = self.container_index < previous_container_index
                    && self.container_index < pivot_index;
                if selecting_items_above {
                    let low = self.container_index as i64;
                    let ghost v0 = self@;
                    let mut i: i64 = pivot_index as i64;
                    while i >= low
                        invariant
                            low <= pivot_index + 1,
                            i32::MIN <= low,
                            low - 1 <= i <= pivot_index,
                            v0 == old(self)@,
                            pivot_index == pivot(v0),
                            low == v0.container_index,
                            self@ == select_down(v0, pivot_index as int, i + 1),
                        decreases i - low + 1,
                    {
                        self.select(i as i32);
                        i -= 1;
                    }
                }
            },
            None => {},
        }
    }

    fn check_selecting_items_below(&mut self)
        ensures
            final(self)@ == selecting_items_below(old(self)@),
    {
        match self.previous_container_index {
            Some(previous_container_index) => {
                let pivot_index = self.get_pivot_index();
                let selecting_items_below = self.container_index > previous_container_index
                    && self.container_index > pivot_index;
                if selecting_items_below {
                    self.select_range_from(pivot_index as i64, self.container_index as i64 + 1);
                }
            },
            None => {},
        }
    }

    fn selected_start_position(&self) -> (r: bool)
        ensures
            r == (self@.container_index == pivot(self@)),
    {
        self.container_index == self.get_pivot_index()
    }

    fn check_reducing_selection_above(&mut self)
        requires
            old(self)@.previous_container_index matches Some(p) ==> p > i32::MIN,
        ensures
            final(self)@ == reducing_selection_above(old(self)@),
    {
        match self.previous_container_index {
            Some(previous_container_index) => {
                let reducing_selection_above = self.container_index > previous_container_index
                    && self.container_index < self.get_pivot_index();
                if reducing_selection_above || self.selected_start_position() {
                    self.deselect_range_from(previous_container_index as i64 - 1, self.container_index as i64);
                }
            },
            None => {},
        }
    }

    fn has_pivot_point(&self) -> (r: bool)
        ensures
            r == self@.pivot_index is Some,
    {
        match self.pivot_index {
            Some(_) => true,
            None => false,
        }
    }

    fn update_selection_indices(&mut self, new_selection_index: i32)
        requires
            old(self)@.selection_index is Some ==> fits_i32(new_selection_index + old(self)@.start_index),
        ensures
            final(self)@ == update_indices(old(self)@, new_selection_index),
    {
        match self.selection_index {
            Some(_) => {
                self.previous_container_index = Some(self.container_index);
                self.container_index = new_selection_index + self.start_index;
                self.selection_index = Some(self.container_index);
                let no_pivot_point = !self.has_pivot_point();
                if no_pivot_point {
                    self.pivot_index = Some(self.container_index);
                }
            },
            None => {},
        }
    }

    /// Moves the selection to line `new_selection_index` of the page; while selecting, the
    /// selected range follows from the pivot to the new index.
    pub fn update_selection(&mut self, new_selection_index: i32)
        requires
            update_fits(old(self)@, new_selection_index),
        ensures
            final(self)@ == update_selection_spec(old(self)@, new_selection_index),
    {
        self.update_selection_indices(new_selection_index);
        match self.previous_container_index {
            Some(previous_container_index) => {
                let selection_changed = self.container_index != previous_container_index;
                if selection_changed && self.selecting_items {
                    proof {
                        lemma_checks_frame(self@);
                    }
                    self.check_selecting_items_above();
                    self.check_reducing_selection_above();
                    self.check_selecting_items_below();
                    self.check_reducing_selection_below();
                }
            },
            None => {},
        }
    }

    fn should_turn_to_previous_page(&self, selection_index: i32) -> (r: bool)
        requires
            self@.item_view_line_count > 0,
        ensures
            r == should_turn_to_previous_page_spec(self@, selection_index),
    {
        let rem = selection_index % self.item_view_line_count;
        assert(selection_index >= 0 ==> rem == selection_index as int % self.item_view_line_count as int);
        assert(selection_index < 0 ==> rem == -((-selection_index) as int % self.item_view_line_count as int));
        proof {
            lemma_mod_zero_neg(selection_index as int, self.item_view_line_count as int);
        }
        let selection_at_start_of_a_page = rem == 0;
        let can_turn_back = self.start_index >= self.item_view_line_count;
        selection_at_start_of_a_page && can_turn_back
    }

    fn should_turn_to_next_page(&self, selection_index: i32) -> (r: bool)
        requires
            page_ok(self@),
        ensures
            r == should_turn_to_next_page_spec(self@, selection_index),
    {
        let max_scroll_index = self.determine_max_scroll_index();
        let max_selection_index = self.determine_max_selection_index();
        let end_of_page = selection_index == max_selection_index;
        let can_scroll = self.start_index as i64 + self.item_view_line_count as i64 <= max_scroll_index as i64;
        end_of_page && can_scroll
    }
}

/// A number is a multiple of `m` exactly when its negation is.
proof fn lemma_mod_zero_neg(x: int, m: int)
    requires
        m > 0,
    ensures
        (x % m == 0) == ((-x) % m == 0),
{
    vstd::arithmetic::div_mod::lemma_fundamental_div_mod(x, m);
    vstd::arithmetic::div_mod::lemma_fundamental_div_mod(-x, m);
    if x % m == 0 {
        vstd::arithmetic::div_mod::lemma_mod_multiples_basic(-(x / m), m);
        assert(-x == (-(x / m)) * m) by (nonlinear_arith)
            requires x == m * (x / m);
    }
    if (-x) % m == 0 {
        vstd::arithmetic::div_mod::lemma_mod_multiples_basic(-((-x) / m), m);
        assert(x == (-((-x) / m)) * m) by (nonlinear_arith)
            requires -x == m * ((-x) / m);
    }
}

/// Two states agree on everything but the selection itself.
pub open spec fn same_frame(a: ListView, b: ListView) -> bool {
    &&& a.previous_container_index == b.previous_container_index
    &&& a.container_index == b.container_index
    &&& a.pivot_index == b.pivot_index
    &&& a.start_index == b.start_index
    &&& a.selecting_items == b.selecting_items
    &&& a.items == b.items
    &&& a.item_view_line_count == b.item_view_line_count
}

proof fn lemma_select_upto_frame(v: ListView, start: int, end: int)
    ensures
        same_frame(select_upto(v, start, end), v),
    decreases end - start,
{
    if end > start {
        lemma_select_upto_frame(v, start, end - 1);
    }
}

proof fn lemma_deselect_upto_frame(v: ListView, start: int, end: int)
    ensures
        same_frame(deselect_upto(v, start, end), v),
    decreases end - start,
{
    if end > start {
        lemma_deselect_upto_frame(v, start, end - 1);
    }
}

proof fn lemma_select_down_frame(v: ListView, hi: int, lo: int)
    ensures
        same_frame(select_down(v, hi, lo), v),
    decreases hi - lo + 1,
{
    if lo <= hi {
        lemma_select_down_frame(v, hi, lo + 1);
    }
}

proof fn lemma_checks_frame(v: ListView)
    ensures
        same_frame(selecting_items_above(v), v),
        same_frame(reducing_selection_above(v), v),
        same_frame(selecting_items_below(v), v),
        same_frame(reducing_selection_below(v), v),
{
    lemma_select_down_frame(v, pivot(v), v.container_index as int);
    if v.previous_container_index is Some {
        let p = v.previous_container_index->0;
        lemma_deselect_upto_frame(v, p - 1, v.container_index as int);
        lemma_select_upto_frame(v, pivot(v), v.container_index + 1);
        lemma_deselect_upto_frame(v, v.container_index as int, p + 1);
    }
}

impl<'a> ItemListSelection<'a> {
    /// Selects line `index` of the page and moves the selection there.
    pub fn set_initial_selection(&mut self, index: i32)
        requires
            fits_i32(index + old(self)@.start_index),
            indices_above_min(old(self)@),
        ensures
            final(self)@ == update_selection_spec(select_spec(old(self)@, (index + old(self)@.start_index) as i32), index),
    {
        let container_index = index + self.start_index;
        self.select(container_index);
        self.update_selection(index);
    }

    /// Moves the selection to the top of the page, or turns back a page from the top line
    /// (selecting the lines passed over while selecting).
    pub fn page_up(&mut self)
        requires
            page_ok(old(self)@),
            indices_above_min(old(self)@),
            old(self)@.selection_index is Some ==> old(self)@.item_view_line_count > 0,
        ensures
            final(self)@ == page_up_spec(old(self)@),
    {
        match self.selection_index {
            Some(selection_index) => {
                let max_selection = self.determine_max_selection_index();
                let new_selection_index;
                if self.should_turn_to_previous_page(selection_index) {
                    new_selection_index = max_selection;
                    self.start_index = self.start_index - self.item_view_line_count;
                    if self.selecting_items {
                        proof {
                            lemma_select_upto_frame(self@, new_selection_index as int, selection_index as int);
                        }
                        self.select_range(new_selection_index, selection_index);
                    }
                } else if selection_index == 0 {
                    new_selection_index = 0;
                    self.start_index = 0;
                } else {
                    new_selection_index = 0;
                }
                self.update_selection(new_selection_index);
            },
            None => {
                if self.start_index >= self.item_view_line_count {
                    self.start_index = self.start_index - self.item_view_line_count;
                }
            },
        }
    }

    /// Moves the selection to the bottom of the page, or turns to the next page from the bottom
    /// line when the list goes on.
    pub fn page_down(&mut self)
        requires
            page_ok(old(self)@),
            indices_above_min(old(self)@),
            old(self)@.selection_index matches Some(si) && !should_turn_to_next_page_spec(old(self)@, si)
                ==> fits_i32(max_selection_index(old(self)@) + old(self)@.start_index),
        ensures
            final(self)@ == page_down_spec(old(self)@),
    {
        match self.selection_index {
            Some(selection_index) => {
                let new_selection_index;
                if self.should_turn_to_next_page(selection_index) {
                    new_selection_index = 0;
                    self.start_index = self.start_index + self.item_view_line_count;
                } else {
                    new_selection_index = self.determine_max_selection_index();
                }
                self.update_selection(new_selection_index);
            },
            None => {
                self.start_index = self.item_view_line_count;
            },
        }
    }

    /// Stops selecting and drops everything selected.
    pub fn cancel_selection(&mut self)
        ensures
            final(self)@ == (ListView {
                selecting_items: false,
                selected_indices: Seq::<i32>::empty(),
                selected_items: Seq::<&'a Item>::empty(),
                ..old(self)@
            }),
    {
        self.selecting_items = false;
        self.selected_indices = VecDeque::new();
        self.selected_items = VecDeque::new();
    }

    /// Moves the selection up a line.
    pub fn move_up(&mut self)
        requires
            indices_above_min(old(self)@),
            old(self)@.selection_index matches Some(si) ==> fits_i32(move_up_target(old(self)@, si) + old(self)@.start_index),
        ensures
            final(self)@ == move_up_spec(old(self)@),
    {
        match self.selection_index {
            Some(selection_index) => {
                let mut new_selection_index = selection_index;
                if selection_index > 0 {
                    new_selection_index = selection_index - 1;
                } else if selection_index == 0 && self.start_index > 0 {
                    new_selection_index = selection_index - 1;
                }
                self.update_selection(new_selection_index);
            },
            None => {},
        }
    }

    /// Moves the selection down a line.
    pub fn move_down(&mut self)
        requires
            page_ok(old(self)@),
            indices_above_min(old(self)@),
            old(self)@.selection_index matches Some(si) ==> fits_i32(move_down_target(old(self)@, si) + old(self)@.start_index),
        ensures
            final(self)@ == move_down_spec(old(self)@),
    {
        match self.selection_index {
            Some(selection_index) => {
                let mut new_selection_index = selection_index;
                let max_scroll_index = self.determine_max_scroll_index();
                let max_selection_index = self.determine_max_selection_index();
                if selection_index < max_selection_index {
                    new_selection_index = selection_index + 1;
                } else if selection_index == self.item_view_line_count - 1 && self.start_index < max_scroll_index {
                    new_selection_index = self.start_index + 1;
                }
                self.update_selection(new_selection_index);
            },
            None => {},
        }
    }
}

/// A selection over the given items, showing `item_view_line_count` lines at a time: nothing
/// selected, at the top of the list, not selecting.
pub fn build_list_selection<'a>(items: Vec<&'a Item>, item_view_line_count: i32) -> (s: ItemListSelection<'a>)
    ensures
        s@ == (ListView {
            selection_index: None,
            start_index: 0,
            pivot_index: None,
            previous_container_index: None,
            container_index: 0,
            selecting_items: false,
            selected_indices: Seq::empty(),
            selected_items: Seq::empty(),
            items: items@,
            item_view_line_count,
        }),
{
    ItemListSelection {
        selection_mode: SelectionMode::SelectingItems,
        selection_index: None,
        start_index: 0,
        pivot_index: None,
        previous_container_index: None,
        container_index: 0,
        selecting_items: false,
        selected_indices: VecDeque::new(),
        selected_items: VecDeque::new(),
        items,
        item_view_line_count,
    }
}

proof fn lemma_select_consistent(v: ListView, index: i32)
    requires
        consistent(v),
    ensures
        consistent(select_spec(v, index)),
{
    let w = select_spec(v, index);
    if !(v.selected_indices.contains(index) || index < 0 || index >= v.items.len()) {
        if v.previous_container_index matches Some(p) && p <= index {
            assert forall|a: int, b: int| 0 <= a < b < w.selected_indices.len() implies w.selected_indices[a] != w.selected_indices[b] by {
                if b == v.selected_indices.len() {
                    assert(v.selected_indices[a] != index);
                }
            }
            assert forall|k: int| 0 <= k < w.selected_indices.len() implies #[trigger] w.selected_items[k] == w.items[w.selected_indices[k] as int] by {
                if k < v.selected_indices.len() {
                    assert(v.selected_items[k] == v.items[v.selected_indices[k] as int]);
                }
            }
        } else {
            assert forall|a: int, b: int| 0 <= a < b < w.selected_indices.len() implies w.selected_indices[a] != w.selected_indices[b] by {
                if a == 0 {
                    assert(w.selected_indices[b] == v.selected_indices[b - 1]);
                } else {
                    assert(w.selected_indices[a] == v.selected_indices[a - 1]);
                    assert(w.selected_indices[b] == v.selected_indices[b - 1]);
                }
            }
            assert forall|k: int| 0 <= k < w.selected_indices.len() implies #[trigger] w.selected_items[k] == w.items[w.selected_indices[k] as int] by {
                if k > 0 {
                    assert(w.selected_indices[k] == v.selected_indices[k - 1]);
                    assert(w.selected_items[k] == v.selected_items[k - 1]);
                    assert(v.selected_items[k - 1] == v.items[v.selected_indices[k - 1] as int]);
                }
            }
            assert forall|k: int| 0 <= k < w.selected_indices.len() implies 0 <= #[trigger] w.selected_indices[k] < w.items.len() by {
                if k > 0 {
                    assert(w.selected_indices[k] == v.selected_indices[k - 1]);
                }
            }
        }
    }
}

proof fn lemma_deselect_consistent(v: ListView, index: i32)
    requires
        consistent(v),
    ensures
        consistent(deselect_spec(v, index)),
{
    let w = deselect_spec(v, index);
    if v.selected_indices.contains(index) && 0 <= index < v.items.len() && index < v.selected_indices.len() {
        let i = index as int;
        assert forall|a: int, b: int| 0 <= a < b < w.selected_indices.len() implies w.selected_indices[a] != w.selected_indices[b] by {
            let a0 = if a < i { a } else { a + 1 };
            let b0 = if b < i { b } else { b + 1 };
            assert(w.selected_indices[a] == v.selected_indices[a0]);
            assert(w.selected_indices[b] == v.selected_indices[b0]);
        }
        assert forall|k: int| 0 <= k < w.selected_indices.len() implies #[trigger] w.selected_items[k] == w.items[w.selected_indices[k] as int] by {
            let k0 = if k < i { k } else { k + 1 };
            assert(w.selected_indices[k] == v.selected_indices[k0]);
            assert(w.selected_items[k] == v.selected_items[k0]);
            assert(v.selected_items[k0] == v.items[v.selected_indices[k0] as int]);
        }
        assert forall|k: int| 0 <= k < w.selected_indices.len() implies 0 <= #[trigger] w.selected_indices[k] < w.items.len() by {
            let k0 = if k < i { k } else { k + 1 };
            assert(w.selected_indices[k] == v.selected_indices[k0]);
        }
    }
}

proof fn lemma_select_upto_consistent(v: ListView, start: int, end: int)
    requires
        consistent(v),
    ensures
        consistent(select_upto(v, start, end)),
    decreases end - start,
{
    if end > start {
        lemma_select_upto_consistent(v, start, end - 1);
        lemma_select_consistent(select_upto(v, start, end - 1), (end - 1) as i32);
    }
}

proof fn lemma_deselect_upto_consistent(v: ListView, start: int, end: int)
    requires
        consistent(v),
    ensures
        consistent(deselect_upto(v, start, end)),
    decreases end - start,
{
    if end > start {
        lemma_deselect_upto_consistent(v, start, end - 1);
        lemma_deselect_consistent(deselect_upto(v, start, end - 1), (end - 1) as i32);
    }
}

proof fn lemma_select_down_consistent(v: ListView, hi: int, lo: int)
    requires
        consistent(v),
    ensures
        consistent(select_down(v, hi, lo)),
    decreases hi - lo + 1,
{
    if lo <= hi {
        lemma_select_down_consistent(v, hi, lo + 1);
        lemma_select_consistent(select_down(v, hi, lo + 1), lo as i32);
    }
}

proof fn lemma_update_consistent(v: ListView, n: i32)
    requires
        consistent(v),
    ensures
        consistent(update_selection_spec(v, n)),
{
    let u = update_indices(v, n);
    let a = selecting_items_above(u);
    lemma_select_down_consistent(u, pivot(u), u.container_index as int);
    lemma_checks_frame(u);
    let b = reducing_selection_above(a);
    lemma_checks_frame(a);
    if a.previous_container_index is Some {
        lemma_deselect_upto_consistent(a, a.previous_container_index->0 - 1, a.container_index as int);
    }
    let c = selecting_items_below(b);
    lemma_checks_frame(b);
    if b.previous_container_index is Some {
        lemma_select_upto_consistent(b, pivot(b), b.container_index + 1);
    }
    lemma_checks_frame(c);
    if c.previous_container_index is Some {
        lemma_deselect_upto_consistent(c, c.container_index as int, c.previous_container_index->0 + 1);
    }
}

/// Every operation on a list selection keeps its selected items in step with its selected
/// indices: each selected entry is the item at its index, and no index is selected twice.
pub proof fn lemma_selection_stays_consistent(v: ListView, index: i32)
    requires
        consistent(v),
    ensures
        consistent(select_spec(v, index)),
        consistent(deselect_spec(v, index)),
        consistent(update_selection_spec(v, index)),
        consistent(update_selection_spec(select_spec(v, (index + v.start_index) as i32), index)),
        consistent(page_up_spec(v)),
        consistent(page_down_spec(v)),
        consistent(move_up_spec(v)),
        consistent(move_down_spec(v)),
        consistent(ListView { selecting_items: !v.selecting_items, ..v }),
{
    lemma_select_consistent(v, index);
    lemma_deselect_consistent(v, index);
    lemma_update_consistent(v, index);
    lemma_update_consistent(select_spec(v, (index + v.start_index) as i32), index);
    if v.selection_index is Some {
        let si = v.selection_index->0;
        let n = max_selection_index(v) as i32;
        let turned = ListView { start_index: (v.start_index - v.item_view_line_count) as i32, ..v };
        lemma_select_upto_consistent(turned, n as int, si as int);
        lemma_update_consistent(select_upto(turned, n as int, si as int), n);
        lemma_update_consistent(turned, n);
        lemma_update_consistent(ListView { start_index: 0, ..v }, 0);
        lemma_update_consistent(v, 0);
        lemma_update_consistent(ListView { start_index: (v.start_index + v.item_view_line_count) as i32, ..v }, 0);
        lemma_update_consistent(v, n);
        lemma_update_consistent(v, move_up_target(v, si) as i32);
        lemma_update_consistent(v, move_down_target(v, si) as i32);
    }
}

} // verus!
