use vstd::prelude::*;

use crate::items::{build_container_item, Item, ItemType};

verus! {

broadcast use {vstd::std_specs::vec::axiom_vec_decreases_to_view, vstd::std_specs::vec::axiom_vec_index_decreases};

#[derive(Copy, Clone, PartialEq, Eq, Structural, Debug)]
pub enum ContainerType {
    /// No storage, just a wrapped item.
    ITEM,
    /// A movable container, such as a bag.
    OBJECT,
    /// A fixed container, such as the floor or a player's inventory.
    AREA,
}

/// An item wrapper at its most basic (ITEM); otherwise a store of further containers.
#[derive(Debug)]
pub struct Container {
    pub item: Item,
    pub container_type: ContainerType,
    pub weight_limit: i32,
    pub contents: Vec<Container>,
}

/// `v`, or its magnitude when `abs` is set.
pub open spec fn term(v: int, abs: bool) -> int {
    if abs && v < 0 { -v } else { v }
}

/// A container that stores things: an OBJECT or AREA whose own item is a container item.
pub open spec fn is_true(c: Container) -> bool {
    (c.container_type == ContainerType::OBJECT || c.container_type == ContainerType::AREA)
    && c.item.item_type == ItemType::CONTAINER
}

/// The number of everything stored in a container, at any depth.
pub open spec fn total_count(c: Container) -> nat
    decreases c, 0int,
{
    if is_true(c) { kids_count(c.contents@, c.contents@.len() as int) } else { 0 }
}

/// Each of the first `n` containers of `s`, plus everything stored in it.
pub open spec fn kids_count(s: Seq<Container>, n: int) -> nat
    decreases s, n,
{
    if n <= 0 || n > s.len() { 0 } else { kids_count(s, n - 1) + 1 + total_count(s[n - 1]) }
}

/// The weight of a container's own item plus, unless it is a wrapped item, the total weight of
/// its contents (with magnitudes instead when `abs` is set).
pub open spec fn weight_total(c: Container, abs: bool) -> int
    decreases c, 0int,
{
    term(c.item.weight as int, abs) + if c.container_type == ContainerType::ITEM {
        0
    } else {
        kids_weight(c.contents@, c.contents@.len() as int, abs)
    }
}

pub open spec fn kids_weight(s: Seq<Container>, n: int, abs: bool) -> int
    decreases s, n,
{
    if n <= 0 || n > s.len() { 0 } else { kids_weight(s, n - 1, abs) + weight_total(s[n - 1], abs) }
}

/// The loot value of a container: for each thing stored in it, its own value plus, unless it is
/// a wrapped item, the loot value of each thing stored in that (with magnitudes instead when
/// `abs` is set).
pub open spec fn loot(c: Container, abs: bool) -> int
    decreases c, 0int,
{
    kids_loot(c.contents@, c.contents@.len() as int, abs)
}

pub open spec fn kids_loot(s: Seq<Container>, n: int, abs: bool) -> int
    decreases s, n,
{
    if n <= 0 || n > s.len() { 0 } else { kids_loot(s, n - 1, abs) + child_loot(s[n - 1], abs) }
}

pub open spec fn child_loot(ch: Container, abs: bool) -> int
    decreases ch, 0int,
{
    term(ch.item.value as int, abs) + if ch.container_type == ContainerType::ITEM {
        0
    } else {
        inner_loot(ch.contents@, ch.contents@.len() as int, abs)
    }
}

pub open spec fn inner_loot(s: Seq<Container>, n: int, abs: bool) -> int
    decreases s, n,
{
    if n <= 0 || n > s.len() { 0 } else { inner_loot(s, n - 1, abs) + loot(s[n - 1], abs) }
}

proof fn lemma_kids_count_mono(s: Seq<Container>, a: int, b: int)
    requires
        0 <= a <= b <= s.len(),
    ensures
        kids_count(s, a) <= kids_count(s, b),
    decreases b - a,
{
    if a < b {
        lemma_kids_count_mono(s, a, b - 1);
    }
}

/// Magnitude bounds for the weights.
pub(crate) proof fn lemma_weight_bound(c: Container)
    ensures
        weight_total(c, true) >= 0,
        -weight_total(c, true) <= weight_total(c, false) <= weight_total(c, true),
    decreases c, 0int,
{
    lemma_kids_weight_bound(c.contents@, c.contents@.len() as int);
}

proof fn lemma_kids_weight_bound(s: Seq<Container>, n: int)
    ensures
        kids_weight(s, n, true) >= 0,
        -kids_weight(s, n, true) <= kids_weight(s, n, false) <= kids_weight(s, n, true),
        forall|m: int| 0 <= m <= n && n <= s.len() ==> #[trigger] kids_weight(s, m, true) <= kids_weight(s, n, true),
    decreases s, n,
{
    if n > 0 && n <= s.len() {
        lemma_kids_weight_bound(s, n - 1);
        lemma_weight_bound(s[n - 1]);
    }
}

/// Magnitude bounds for the loot values.
proof fn lemma_loot_bound(c: Container)
    ensures
        loot(c, true) >= 0,
        -loot(c, true) <= loot(c, false) <= loot(c, true),
    decreases c, 0int,
{
    lemma_kids_loot_bound(c.contents@, c.contents@.len() as int);
}

proof fn lemma_kids_loot_bound(s: Seq<Container>, n: int)
    ensures
        kids_loot(s, n, true) >= 0,
        -kids_loot(s, n, true) <= kids_loot(s, n, false) <= kids_loot(s, n, true),
        forall|m: int| 0 <= m <= n && n <= s.len() ==> #[trigger] kids_loot(s, m, true) <= kids_loot(s, n, true),
    decreases s, n,
{
    if n > 0 && n <= s.len() {
        lemma_kids_loot_bound(s, n - 1);
        lemma_child_loot_bound(s[n - 1]);
    }
}

proof fn lemma_child_loot_bound(ch: Container)
    ensures
        child_loot(ch, true) >= 0,
        -child_loot(ch, true) <= child_loot(ch, false) <= child_loot(ch, true),
        ch.container_type != ContainerType::ITEM ==> inner_loot(ch.contents@, ch.contents@.len() as int, true) <= child_loot(ch, true),
    decreases ch, 0int,
{
    lemma_inner_loot_bound(ch.contents@, ch.contents@.len() as int);
}

proof fn lemma_inner_loot_bound(s: Seq<Container>, n: int)
    ensures
        inner_loot(s, n, true) >= 0,
        -inner_loot(s, n, true) <= inner_loot(s, n, false) <= inner_loot(s, n, true),
        forall|m: int| 0 <= m <= n && n <= s.len() ==> #[trigger] inner_loot(s, m, true) <= inner_loot(s, n, true),
    decreases s, n,
{
    if n > 0 && n <= s.len() {
        lemma_inner_loot_bound(s, n - 1);
        lemma_loot_bound(s[n - 1]);
    }
}

/// Wraps an item in a container of type ITEM that stores nothing.
pub open spec fn wrapped(c: Container, item: Item) -> bool {
    &&& c.item == item
    &&& c.container_type == ContainerType::ITEM
    &&& c.weight_limit == 0
    &&& c.contents@.len() == 0
}

impl Container {
    pub fn wrap(item: Item) -> (c: Container)
        ensures
            wrapped(c, item),
    {
        Container { item, container_type: ContainerType::ITEM, weight_limit: 0, contents: Vec::new() }
    }

    pub fn is_true_container(&self) -> (r: bool)
        ensures
            r == is_true(*self),
    {
        let container_type_valid = self.container_type == ContainerType::OBJECT || self.container_type == ContainerType::AREA;
        let item_type_valid = self.item.item_type == ItemType::CONTAINER;
        container_type_valid && item_type_valid
    }

    pub fn get_self_item(&self) -> (r: &Item)
        ensures
            *r == self.item,
    {
        &self.item
    }

    /// Whether two containers wrap items with the same identifier.
    pub fn id_equals(&self, other: &Container) -> (r: bool)
        ensures
            r == (self.item.id == other.item.id),
    {
        self.item.id == other.item.id
    }

    pub fn get_contents(&self) -> (r: &Vec<Container>)
        ensures
            r@ == self.contents@,
    {
        &self.contents
    }

    pub fn get_container_type(&self) -> (r: ContainerType)
        ensures
            r == self.container_type,
    {
        self.container_type
    }

    /// The number of top-level contents of a true container; 0 for anything else.
    pub fn get_top_level_count(&self) -> (r: usize)
        ensures
            r == if is_true(*self) { self.contents@.len() } else { 0 },
    {
        if self.is_true_container() {
            self.contents.len()
        } else {
            0
        }
    }

    /// The number of everything stored in this container, at any depth.
    pub fn get_total_count(&self) -> (r: usize)
        requires
            total_count(*self) <= usize::MAX,
        ensures
            r == total_count(*self),
        decreases self,
    {
        if !self.is_true_container() {
            return 0;
        }
        let mut item_count: usize = 0;
        let mut i: usize = 0;
        proof {
            lemma_kids_count_mono(self.contents@, 0, self.contents@.len() as int);
        }
        while i < self.contents.len()
            invariant
                is_true(*self),
                i <= self.contents@.len(),
                item_count == kids_count(self.contents@, i as int),
                total_count(*self) == kids_count(self.contents@, self.contents@.len() as int),
                total_count(*self) <= usize::MAX,
            decreases self.contents@.len() - i,
        {
            proof {
                lemma_kids_count_mono(self.contents@, i + 1, self.contents@.len() as int);
                assert(decreases_to!(self => self.contents));
            }
            let count = self.contents[i].count_contents();
            item_count = item_count + 1 + count;
            i += 1;
        }
        item_count
    }

    /// The number of everything stored in this container, at any depth, counted through
    /// `get_total_count` on each content.
    fn count_contents(&self) -> (r: usize)
        requires
            total_count(*self) <= usize::MAX,
        ensures
            r == total_count(*self),
        decreases self,
    {
        let mut item_count: usize = 0;
        if self.is_true_container() {
            let mut i: usize = 0;
            proof {
                lemma_kids_count_mono(self.contents@, 0, self.contents@.len() as int);
            }
            while i < self.contents.len()
                invariant
                    is_true(*self),
                    i <= self.contents@.len(),
                    item_count == kids_count(self.contents@, i as int),
                    total_count(*self) == kids_count(self.contents@, self.contents@.len() as int),
                    total_count(*self) <= usize::MAX,
                decreases self.contents@.len() - i,
            {
                proof {
                    lemma_kids_count_mono(self.contents@, i + 1, self.contents@.len() as int);
                    assert(decreases_to!(self => self.contents));
                }
                item_count = item_count + 1;
                let count = self.contents[i].get_total_count();
                item_count = item_count + count;
                i += 1;
            }
        }
        item_count
    }

    pub fn get_weight_limit(&self) -> (r: i32)
        ensures
            r == self.weight_limit,
    {
        self.weight_limit
    }

    /// The container's own weight plus, unless it is a wrapped item, all its contents' weight.
    pub fn get_weight_total(&self) -> (r: i64)
        requires
            weight_total(*self, true) <= i64::MAX,
        ensures
            r == weight_total(*self, false),
        decreases self,
    {
        let mut total: i64 = self.item.weight as i64;
        if self.container_type == ContainerType::ITEM {
            return total;
        }
        let ghost s = self.contents@;
        proof {
            lemma_kids_weight_bound(s, s.len() as int);
        }
        let mut i: usize = 0;
        while i < self.contents.len()
            invariant
                self.container_type != ContainerType::ITEM,
                s == self.contents@,
                i <= s.len(),
                total == self.item.weight + kids_weight(s, i as int, false),
                weight_total(*self, true) == term(self.item.weight as int, true) + kids_weight(s, s.len() as int, true),
                weight_total(*self, true) <= i64::MAX,
                forall|m: int| 0 <= m <= s.len() ==> #[trigger] kids_weight(s, m, true) <= kids_weight(s, s.len() as int, true),
            decreases s.len() - i,
        {
            proof {
                lemma_kids_weight_bound(s, i as int);
                lemma_kids_weight_bound(s, i + 1);
                lemma_weight_bound(s[i as int]);
                assert(kids_weight(s, i + 1, true) <= kids_weight(s, s.len() as int, true));
                assert(decreases_to!(self => self.contents));
            }
            let w = self.contents[i].get_weight_total();
            total = total + w;
            i += 1;
        }
        total
    }

    /// The total weight of the contents alone.
    pub fn get_contents_weight_total(&self) -> (r: i64)
        requires
            weight_total(*self, true) <= i64::MAX,
        ensures
            r == weight_total(*self, false) - self.item.weight,
    {
        proof {
            lemma_weight_bound(*self);
            lemma_kids_weight_bound(self.contents@, self.contents@.len() as int);
        }
        self.get_weight_total() - self.item.weight as i64
    }

    /// Whether `item` weighs no more than the weight this container has left.
    pub fn can_fit_container_item(&self, item: &Container) -> (r: bool)
        requires
            weight_total(*self, true) <= 0x1000_0000_0000_0000,
            weight_total(*item, true) <= 0x1000_0000_0000_0000,
        ensures
            r == (weight_total(*item, false) <= self.weight_limit - (weight_total(*self, false) - self.item.weight)),
    {
        proof {
            lemma_weight_bound(*self);
            lemma_weight_bound(*item);
        }
        let content_weight_total = self.get_contents_weight_total();
        let free_weight: i64 = self.weight_limit as i64 - content_weight_total;
        item.get_weight_total() <= free_weight
    }

    /// The loot value of everything stored (see `loot`).
    pub fn get_loot_value(&self) -> (r: i32)
        requires
            loot(*self, true) <= i32::MAX,
        ensures
            r == loot(*self, false),
        decreases self,
    {
        let ghost s = self.contents@;
        let ghost total_abs = loot(*self, true);
        proof {
            lemma_kids_loot_bound(s, s.len() as int);
        }
        let mut loot_total: i32 = 0;
        let mut i: usize = 0;
        while i < self.contents.len()
            invariant
                s == self.contents@,
                i <= s.len(),
                loot_total == kids_loot(s, i as int, false),
                total_abs == kids_loot(s, s.len() as int, true),
                total_abs <= i32::MAX,
                forall|m: int| 0 <= m <= s.len() ==> #[trigger] kids_loot(s, m, true) <= total_abs,
            decreases s.len() - i,
        {
            let c = &self.contents[i];
            proof {
                lemma_kids_loot_bound(s, i as int);
                lemma_kids_loot_bound(s, i + 1);
                lemma_child_loot_bound(s[i as int]);
                lemma_inner_loot_bound(s[i as int].contents@, s[i as int].contents@.len() as int);
                assert(kids_loot(s, i + 1, true) <= total_abs);
                assert(kids_loot(s, i + 1, true) == kids_loot(s, i as int, true) + child_loot(s[i as int], true));
            }
            let ghost base = loot_total as int;
            loot_total = loot_total + c.item.value;
            if c.container_type != ContainerType::ITEM {
                let ghost gs = c.contents@;
                proof {
                    lemma_inner_loot_bound(gs, gs.len() as int);
                }
                let mut j: usize = 0;
                while j < c.contents.len()
                    invariant
                        gs == c.contents@,
                        c.container_type != ContainerType::ITEM,
                        j <= gs.len(),
                        i < s.len(),
                        s == self.contents@,
                        c == s[i as int],
                        loot_total == base + c.item.value + inner_loot(gs, j as int, false),
                        -kids_loot(s, i as int, true) <= base <= kids_loot(s, i as int, true),
                        kids_loot(s, i as int, true) + child_loot(s[i as int], true) <= total_abs,
                        total_abs <= i32::MAX,
                        inner_loot(gs, gs.len() as int, true) + term(c.item.value as int, true) == child_loot(*c, true),
                        forall|m: int| 0 <= m <= gs.len() ==> #[trigger] inner_loot(gs, m, true) <= inner_loot(gs, gs.len() as int, true),
                    decreases gs.len() - j,
                {
                    proof {
                        lemma_inner_loot_bound(gs, j as int);
                        lemma_inner_loot_bound(gs, j + 1);
                        lemma_loot_bound(gs[j as int]);
                        assert(inner_loot(gs, j + 1, true) <= inner_loot(gs, gs.len() as int, true));
                        assert(inner_loot(gs, j + 1, true) == inner_loot(gs, j as int, true) + loot(gs[j as int], true));
                        assert(decreases_to!(self => self.contents));
                        assert(decreases_to!(self.contents => self.contents[i as int]));
                        assert(decreases_to!(c => c.contents));
                        assert(decreases_to!(c.contents => c.contents[j as int]));
                    }
                    let v = c.contents[j].get_loot_value();
                    loot_total = loot_total + v;
                    j += 1;
                }
            }
            i += 1;
        }
        loot_total
    }

    /// Whether the container can be opened: an OBJECT or an AREA.
    pub fn can_open(&self) -> (r: bool)
        ensures
            r == (self.container_type == ContainerType::OBJECT || self.container_type == ContainerType::AREA),
    {
        self.container_type == ContainerType::OBJECT || self.container_type == ContainerType::AREA
    }

    /// Stores `container` when this is a true container, `container` is movable (an ITEM or an
    /// OBJECT), and both `container`'s own weight limit and its total weight fit in what this
    /// container has left.
    pub fn add(&mut self, container: Container)
        requires
            weight_total(*old(self), true) <= 0x1000_0000_0000_0000,
            weight_total(container, true) <= 0x1000_0000_0000_0000,
        ensures
            final(self).item == old(self).item,
            final(self).container_type == old(self).container_type,
            final(self).weight_limit == old(self).weight_limit,
            final(self).contents@ == if is_true(*old(self))
                && container.container_type != ContainerType::AREA
                && (weight_total(*old(self), false) - old(self).item.weight) + container.weight_limit <= old(self).weight_limit
                && (weight_total(*old(self), false) - old(self).item.weight) + weight_total(container, false) <= old(self).weight_limit {
                old(self).contents@.push(container)
            } else {
                old(self).contents@
            },
    {
        proof {
            lemma_weight_bound(*self);
            lemma_weight_bound(container);
        }
        if self.is_true_container() {
            match container.container_type {
                ContainerType::ITEM | ContainerType::OBJECT => {
                    let total_weight = self.get_contents_weight_total();
                    let max_weight_limit = total_weight + container.weight_limit as i64;
                    let within_potential_weight_limit = max_weight_limit <= self.weight_limit as i64;
                    let potential_weight = total_weight + container.get_weight_total();
                    if within_potential_weight_limit && potential_weight <= self.weight_limit as i64 {
                        self.contents.push(container);
                    }
                },
                _ => {},
            }
        }
    }

    /// Stores a wrapped copy of `item`, unless it is a container item, when the total weight
    /// with it added stays within the weight limit.
    pub fn add_item(&mut self, item: Item)
        requires
            weight_total(*old(self), true) <= 0x1000_0000_0000_0000,
        ensures
            final(self).item == old(self).item,
            final(self).container_type == old(self).container_type,
            final(self).weight_limit == old(self).weight_limit,
            item.item_type != ItemType::CONTAINER && weight_total(*old(self), false) + item.weight <= old(self).weight_limit ==> {
                &&& final(self).contents@.len() == old(self).contents@.len() + 1
                &&& final(self).contents@.drop_last() == old(self).contents@
                &&& wrapped(final(self).contents@.last(), item)
            },
            !(item.item_type != ItemType::CONTAINER && weight_total(*old(self), false) + item.weight <= old(self).weight_limit)
                ==> final(self).contents@ == old(self).contents@,
    {
        proof {
            lemma_weight_bound(*self);
        }
        match item.item_type {
            ItemType::CONTAINER => {
                return;
            },
            _ => {
                if self.get_weight_total() + item.weight as i64 <= self.weight_limit as i64 {
                    let container = Container::wrap(item);
                    self.contents.push(container);
                    assert(self.contents@.drop_last() =~= old(self).contents@);
                }
            },
        }
    }

    /// Appends the given containers to the contents, in order.
    pub fn push(&mut self, containers: Vec<Container>)
        ensures
            final(self).item == old(self).item,
            final(self).container_type == old(self).container_type,
            final(self).weight_limit == old(self).weight_limit,
            final(self).contents@ == old(self).contents@ + containers@,
    {
        let mut containers = containers;
        self.contents.append(&mut containers);
    }

    /// Inserts the given containers at `index`, in order.
    pub fn insert(&mut self, index: usize, containers: Vec<Container>)
        requires
            index <= old(self).contents@.len(),
        ensures
            final(self).item == old(self).item,
            final(self).container_type == old(self).container_type,
            final(self).weight_limit == old(self).weight_limit,
            final(self).contents@ == old(self).contents@.subrange(0, index as int) + containers@
                + old(self).contents@.subrange(index as int, old(self).contents@.len() as int),
    {
        let mut tail = self.contents.split_off(index);
        let mut containers = containers;
        self.contents.append(&mut containers);
        self.contents.append(&mut tail);
    }

    /// Replaces the content at `index` when there is one.
    pub fn replace(&mut self, index: usize, container: Container)
        ensures
            final(self).item == old(self).item,
            final(self).container_type == old(self).container_type,
            final(self).weight_limit == old(self).weight_limit,
            final(self).contents@ == if index < old(self).contents@.len() {
                old(self).contents@.update(index as int, container)
            } else {
                old(self).contents@
            },
    {
        if self.contents.len() > 0 && index < self.contents.len() {
            self.contents.set(index, container);
        }
    }

    /// The content at `index`.
    pub fn get(&self, index: usize) -> (r: &Container)
        requires
            index < self.contents@.len(),
        ensures
            *r == self.contents@[index as int],
    {
        &self.contents[index]
    }

    /// The content at `index`, if any.
    pub fn get_optional(&self, index: usize) -> (r: Option<&Container>)
        ensures
            r == if index < self.contents@.len() { Some(&self.contents@[index as int]) } else { None::<&Container> },
    {
        if index < self.contents.len() {
            Some(&self.contents[index])
        } else {
            None
        }
    }

    /// The index of the first content wrapping an item with `container`'s identifier.
    pub fn position(&self, container: &Container) -> (r: Option<usize>)
        ensures
            match r {
                Some(p) => first_with_id(self.contents@, container.item.id) == Some(p as int),
                None => first_with_id(self.contents@, container.item.id) is None,
            },
    {
        self.item_position(&container.item)
    }

    /// The index of the first content wrapping an item with `item`'s identifier.
    pub fn item_position(&self, item: &Item) -> (r: Option<usize>)
        ensures
            match r {
                Some(p) => first_with_id(self.contents@, item.id) == Some(p as int),
                None => first_with_id(self.contents@, item.id) is None,
            },
    {
        let mut i: usize = 0;
        while i < self.contents.len()
            invariant
                i <= self.contents@.len(),
                forall|j: int| 0 <= j < i ==> #[trigger] self.contents@[j].item.id != item.id,
            decreases self.contents@.len() - i,
        {
            if self.contents[i].item.id == item.id {
                proof {
                    lemma_first_with_id_at(self.contents@, item.id, i as int);
                }
                return Some(i);
            }
            i += 1;
        }
        proof {
            lemma_first_with_id(self.contents@, item.id);
        }
        None
    }

    /// Removes the first content with the same item identifier as `item`; true when one was
    /// found.
    pub fn remove_item(&mut self, item: &Container) -> (r: bool)
        ensures
            final(self).item == old(self).item,
            final(self).container_type == old(self).container_type,
            final(self).weight_limit == old(self).weight_limit,
            r == first_with_id(old(self).contents@, item.item.id).is_some(),
            final(self).contents@ == match first_with_id(old(self).contents@, item.item.id) {
                Some(p) => old(self).contents@.remove(p),
                None => old(self).contents@,
            },
    {
        proof {
            lemma_first_with_id(self.contents@, item.item.id);
        }
        if let Some(position) = self.position(item) {
            self.contents.remove(position);
            return true;
        }
        false
    }

    /// The wrapped items of the top-level contents, in order.
    pub fn to_cloned_item_list(&self) -> (items: Vec<Item>)
        ensures
            items@.len() == self.contents@.len(),
            forall|i: int| 0 <= i < items@.len() ==> #[trigger] items@[i] == self.contents@[i].item,
    {
        let mut items: Vec<Item> = Vec::new();
        let mut i: usize = 0;
        while i < self.contents.len()
            invariant
                i <= self.contents@.len(),
                items@.len() == i,
                forall|k: int| 0 <= k < i ==> #[trigger] items@[k] == self.contents@[k].item,
            decreases self.contents@.len() - i,
        {
            items.push(self.contents[i].item.clone());
            i += 1;
        }
        items
    }
}

/// The index of the first container in `s`, from index `i` on, whose item has the identifier
/// `id`.
pub open spec fn first_with_id_from(s: Seq<Container>, id: u128, i: int) -> Option<int>
    decreases s.len() - i,
{
    if i < 0 || i >= s.len() {
        None
    } else if s[i].item.id == id {
        Some(i)
    } else {
        first_with_id_from(s, id, i + 1)
    }
}

/// The index of the first container in `s` whose item has the identifier `id`.
pub open spec fn first_with_id(s: Seq<Container>, id: u128) -> Option<int> {
    first_with_id_from(s, id, 0)
}

proof fn lemma_first_with_id_from(s: Seq<Container>, id: u128, i: int)
    requires
        0 <= i <= s.len(),
        forall|j: int| 0 <= j < i ==> #[trigger] s[j].item.id != id,
    ensures
        match first_with_id_from(s, id, i) {
            Some(p) => 0 <= p < s.len() && s[p].item.id == id && forall|j: int| 0 <= j < p ==> #[trigger] s[j].item.id != id,
            None => forall|j: int| 0 <= j < s.len() ==> #[trigger] s[j].item.id != id,
        },
    decreases s.len() - i,
{
    if i < s.len() && s[i].item.id != id {
        lemma_first_with_id_from(s, id, i + 1);
    }
}

/// The first index found is in range, matches, and no earlier index matches; when none is
/// found, no index matches.
pub proof fn lemma_first_with_id(s: Seq<Container>, id: u128)
    ensures
        match first_with_id(s, id) {
            Some(p) => 0 <= p < s.len() && s[p].item.id == id && forall|j: int| 0 <= j < p ==> #[trigger] s[j].item.id != id,
            None => forall|j: int| 0 <= j < s.len() ==> #[trigger] s[j].item.id != id,
        },
{
    lemma_first_with_id_from(s, id, 0);
}

/// Storing a container whose identifier is new among the contents and then removing that
/// identifier leaves the contents as they were.
pub proof fn lemma_add_then_remove(contents: Seq<Container>, c: Container)
    requires
        forall|j: int| 0 <= j < contents.len() ==> #[trigger] contents[j].item.id != c.item.id,
    ensures
        first_with_id(contents.push(c), c.item.id) == Some(contents.len() as int),
        contents.push(c).remove(contents.len() as int) == contents,
{
    let s = contents.push(c);
    lemma_first_with_id(s, c.item.id);
    assert forall|j: int| 0 <= j < contents.len() implies #[trigger] s[j].item.id != c.item.id by {
        assert(s[j] == contents[j]);
    }
    assert(s[contents.len() as int] == c);
    match first_with_id(s, c.item.id) {
        Some(p) => {
            if p < contents.len() {
                assert(s[p].item.id != c.item.id);
            }
        },
        None => {
            assert(s[contents.len() as int].item.id != c.item.id);
        },
    }
    assert(s.remove(contents.len() as int) =~= contents);
}

proof fn lemma_first_with_id_at(s: Seq<Container>, id: u128, i: int)
    requires
        0 <= i < s.len(),
        s[i].item.id == id,
        forall|j: int| 0 <= j < i ==> #[trigger] s[j].item.id != id,
    ensures
        first_with_id(s, id) == Some(i),
    decreases i,
{
    lemma_first_with_id(s, id);
    match first_with_id(s, id) {
        Some(p) => {
            if p < i {
                assert(s[p].item.id != id);
            } else if p > i {
                assert(s[i].item.id != id);
            }
        },
        None => {
            assert(s[i].item.id != id);
        },
    }
}

/// A container of the given type whose item is a new container item.
pub fn build(id: u128, name: String, symbol: char, weight: i32, value: i32, container_type: ContainerType, weight_limit: i32) -> (c: Container)
    ensures
        crate::items::built_item(c.item, id, ItemType::CONTAINER, name@, symbol, weight, value),
        c.container_type == container_type,
        c.weight_limit == weight_limit,
        c.contents@.len() == 0,
{
    let container_item = build_container_item(id, name, symbol, weight, value);
    Container { item: container_item, container_type, weight_limit, contents: Vec::new() }
}

/// Containers with the same tree weigh the same.
pub(crate) proof fn lemma_weight_tree(a: Container, b: Container, abs: bool)
    requires
        tree(a) == tree(b),
    ensures
        weight_total(a, abs) == weight_total(b, abs),
    decreases a, 0int,
{
    lemma_trees(a.contents@, a.contents@.len() as int);
    lemma_trees(b.contents@, b.contents@.len() as int);
    assert(trees(a.contents@, a.contents@.len() as int).len() == trees(b.contents@, b.contents@.len() as int).len());
    assert forall|i: int| 0 <= i < a.contents@.len() implies tree(#[trigger] a.contents@[i]) == tree(b.contents@[i]) by {
        assert(trees(a.contents@, a.contents@.len() as int)[i] == trees(b.contents@, b.contents@.len() as int)[i]);
    }
    lemma_kids_weight_tree(a.contents@, b.contents@, a.contents@.len() as int, abs);
}

proof fn lemma_kids_weight_tree(s1: Seq<Container>, s2: Seq<Container>, n: int, abs: bool)
    requires
        s1.len() == s2.len(),
        0 <= n <= s1.len(),
        forall|i: int| 0 <= i < s1.len() ==> tree(#[trigger] s1[i]) == tree(s2[i]),
    ensures
        kids_weight(s1, n, abs) == kids_weight(s2, n, abs),
    decreases s1, n,
{
    if n > 0 {
        lemma_kids_weight_tree(s1, s2, n - 1, abs);
        assert(tree(s1[n - 1]) == tree(s2[n - 1]));
        lemma_weight_tree(s1[n - 1], s2[n - 1], abs);
    }
}

/// Adding a container at the end adds its weight to the total of the contents.
pub(crate) proof fn lemma_kids_weight_push(s: Seq<Container>, x: Container, n: int, abs: bool)
    requires
        0 <= n <= s.len(),
    ensures
        kids_weight(s.push(x), n, abs) == kids_weight(s, n, abs),
        n == s.len() ==> kids_weight(s.push(x), n + 1, abs) == kids_weight(s, n, abs) + weight_total(x, abs),
    decreases n,
{
    if n > 0 {
        lemma_kids_weight_push(s, x, n - 1, abs);
        assert(s.push(x)[n - 1] == s[n - 1]);
    }
    if n == s.len() {
        assert(s.push(x)[n] == x);
        assert(kids_weight(s.push(x), n + 1, abs) == kids_weight(s.push(x), n, abs) + weight_total(s.push(x)[n], abs));
    }
}

proof fn lemma_abs_weights(items: Seq<Item>)
    ensures
        abs_weights(items) >= 0,
    decreases items.len(),
{
    if items.len() > 0 {
        lemma_abs_weights(items.drop_first());
    }
}

/// The items that adding `items` in order keeps, starting from a total weight of `w` against
/// `limit`: each item that is not a container item and still fits; the running total grows with
/// each kept item unless the container is a wrapped item (`counts` false).
pub open spec fn accepted_items(items: Seq<Item>, w: int, limit: int, counts: bool) -> Seq<Item>
    decreases items.len(),
{
    if items.len() == 0 {
        Seq::empty()
    } else {
        let it = items[0];
        if it.item_type != ItemType::CONTAINER && w + it.weight <= limit {
            seq![it] + accepted_items(items.drop_first(), if counts { w + it.weight } else { w }, limit, counts)
        } else {
            accepted_items(items.drop_first(), w, limit, counts)
        }
    }
}

/// The sum of the magnitudes of the items' weights.
pub open spec fn abs_weights(items: Seq<Item>) -> int
    decreases items.len(),
{
    if items.len() == 0 { 0 } else { term(items[0].weight as int, true) + abs_weights(items.drop_first()) }
}

impl Container {
    /// Adds each item in turn, as `add_item` does.
    pub fn add_items(&mut self, items: Vec<Item>)
        requires
            weight_total(*old(self), true) + abs_weights(items@) <= 0x1000_0000_0000_0000,
        ensures
            final(self).item == old(self).item,
            final(self).container_type == old(self).container_type,
            final(self).weight_limit == old(self).weight_limit,
            ({
                let acc = accepted_items(items@, weight_total(*old(self), false), old(self).weight_limit as int,
                    old(self).container_type != ContainerType::ITEM);
                let n = old(self).contents@.len();
                &&& final(self).contents@.len() == n + acc.len()
                &&& final(self).contents@.subrange(0, n as int) == old(self).contents@
                &&& forall|j: int| 0 <= j < acc.len() ==> #[trigger] wrapped(final(self).contents@[n + j], acc[j])
            }),
    {
        let ghost counts = self.container_type != ContainerType::ITEM;
        let ghost limit = self.weight_limit as int;
        let ghost acc_all = accepted_items(items@, weight_total(*self, false), limit, counts);
        let ghost n = self.contents@.len();
        let ghost mut done: Seq<Item> = Seq::empty();
        let mut i: usize = 0;
        proof {
            assert(items@.subrange(0, items@.len() as int) =~= items@);
        }
        while i < items.len()
            invariant
                i <= items@.len(),
                counts == (self.container_type != ContainerType::ITEM),
                limit == self.weight_limit,
                self.item == old(self).item,
                self.container_type == old(self).container_type,
                self.weight_limit == old(self).weight_limit,
                n == old(self).contents@.len(),
                acc_all == accepted_items(items@, weight_total(*old(self), false), limit, counts),
                done + accepted_items(items@.subrange(i as int, items@.len() as int), weight_total(*self, false), limit, counts) == acc_all,
                weight_total(*self, true) + abs_weights(items@.subrange(i as int, items@.len() as int)) <= 0x1000_0000_0000_0000,
                self.contents@.len() == n + done.len(),
                self.contents@.subrange(0, n as int) == old(self).contents@,
                forall|j: int| 0 <= j < done.len() ==> #[trigger] wrapped(self.contents@[n + j], done[j]),
            decreases items@.len() - i,
        {
            let item = items[i].clone();
            let ghost it = item;
            let ghost rest = items@.subrange(i as int, items@.len() as int);
            let ghost before = *self;
            proof {
                assert(rest[0] == it);
                assert(rest.drop_first() =~= items@.subrange(i + 1, items@.len() as int));
                lemma_weight_bound(*self);
                lemma_weight_bound(before);
                lemma_abs_weights(rest.drop_first());
                assert(abs_weights(rest) == term(it.weight as int, true) + abs_weights(rest.drop_first()));
            }
            self.add_item(item);
            proof {
                let fits = it.item_type != ItemType::CONTAINER && weight_total(before, false) + it.weight <= before.weight_limit;
                if fits {
                    let w = self.contents@.last();
                    assert(self.contents@ == before.contents@.push(w));
                    lemma_kids_weight_push(before.contents@, w, before.contents@.len() as int, false);
                    lemma_kids_weight_push(before.contents@, w, before.contents@.len() as int, true);
                    assert(weight_total(w, false) == it.weight);
                    assert(weight_total(w, true) == term(it.weight as int, true));
                    let old_done = done;
                    done = done.push(it);
                    assert forall|j: int| 0 <= j < done.len() implies #[trigger] wrapped(self.contents@[n + j], done[j]) by {
                        if j < old_done.len() {
                            assert(self.contents@[n + j] == before.contents@[n + j]);
                        }
                    }
                    assert(done + accepted_items(items@.subrange(i + 1, items@.len() as int), weight_total(*self, false), limit, counts)
                        =~= old_done + accepted_items(rest, weight_total(before, false), limit, counts));
                    assert(self.contents@.subrange(0, n as int) =~= before.contents@.subrange(0, n as int));
                } else {
                    assert(self.contents@ == before.contents@);
                }
            }
            i += 1;
        }
        proof {
            assert(items@.subrange(items@.len() as int, items@.len() as int) =~= Seq::<Item>::empty());
            assert(done =~= acc_all);
        }
    }
}

/// The container `find` gives for an identifier: the first top-level content with it, else the
/// first found within the contents in order.
pub open spec fn find_spec(c: Container, id: u128) -> Option<Container>
    decreases c, 1int,
{
    match first_with_id(c.contents@, id) {
        Some(i) => Some(c.contents@[i]),
        None => find_in(c.contents@, id, 0),
    }
}

/// The first container found, by `find_spec`, within `s[i]`, `s[i + 1]`, ... in order.
pub open spec fn find_in(s: Seq<Container>, id: u128, i: int) -> Option<Container>
    decreases s, s.len() - i,
{
    if i < 0 || i >= s.len() {
        None
    } else {
        match find_spec(s[i], id) {
            Some(x) => Some(x),
            None => find_in(s, id, i + 1),
        }
    }
}

/// `s` without its first content carrying `id`, if any.
pub open spec fn without_first(s: Seq<Container>, id: u128) -> Seq<Container> {
    match first_with_id(s, id) {
        Some(p) => s.remove(p),
        None => s,
    }
}

/// `s` after removing, for each identifier in turn, the first content carrying it.
pub open spec fn without_each(s: Seq<Container>, ids: Seq<u128>) -> Seq<Container>
    decreases ids.len(),
{
    if ids.len() == 0 { s } else { without_each(without_first(s, ids[0]), ids.drop_first()) }
}

impl Container {
    /// The container's own item, to be changed in place.
    pub fn get_self_item_mut(&mut self) -> (r: &mut Item)
        ensures
            *r == old(self).item,
            final(self).container_type == old(self).container_type,
            final(self).weight_limit == old(self).weight_limit,
            final(self).contents@ == old(self).contents@,
            final(self).item == *final(r),
    {
        &mut self.item
    }

    /// The contents, to be changed in place.
    pub fn get_contents_mut(&mut self) -> (r: &mut Vec<Container>)
        ensures
            r@ == old(self).contents@,
            final(self).item == old(self).item,
            final(self).container_type == old(self).container_type,
            final(self).weight_limit == old(self).weight_limit,
            final(self).contents@ == final(r)@,
    {
        &mut self.contents
    }

    /// The content at `index`, to be changed in place, when there is one.
    pub fn get_mut(&mut self, index: i32) -> (r: Option<&mut Container>)
        requires
            old(self).contents@.len() <= i32::MAX,
        ensures
            final(self).item == old(self).item,
            final(self).container_type == old(self).container_type,
            final(self).weight_limit == old(self).weight_limit,
            if 0 <= index < old(self).contents@.len() {
                &&& r is Some
                &&& *r->0 == old(self).contents@[index as int]
                &&& final(self).contents@ == old(self).contents@.update(index as int, *final(r->0))
            } else {
                r is None && final(self).contents@ == old(self).contents@
            },
    {
        let contents_size = self.contents.len() as i32;
        if index >= 0 && index < contents_size {
            return Some(&mut self.contents[index as usize]);
        }
        None
    }

    /// The stored container wrapping an item with `item`'s identifier: at the top level first,
    /// then within each content in order.
    pub fn find(&self, item: &Item) -> (r: Option<&Container>)
        ensures
            match find_spec(*self, item.id) {
                Some(x) => r is Some && *r->0 == x,
                None => r is None,
            },
        decreases self,
    {
        proof {
            lemma_first_with_id(self.contents@, item.id);
        }
        if let Some(p) = self.item_position(item) {
            return Some(&self.contents[p]);
        }
        let ghost s = self.contents@;
        let mut i: usize = 0;
        while i < self.contents.len()
            invariant
                s == self.contents@,
                i <= s.len(),
                first_with_id(s, item.id) is None,
                find_spec(*self, item.id) == find_in(s, item.id, i as int),
            decreases s.len() - i,
        {
            proof {
                assert(decreases_to!(self => self.contents));
            }
            let r = self.contents[i].find(item);
            if r.is_some() {
                return r;
            }
            i += 1;
        }
        None
    }

    /// Puts `new` in place of the first content carrying the same item identifier, if any.
    pub fn replace_container(&mut self, new: Container)
        ensures
            final(self).item == old(self).item,
            final(self).container_type == old(self).container_type,
            final(self).weight_limit == old(self).weight_limit,
            final(self).contents@ == match first_with_id(old(self).contents@, new.item.id) {
                Some(p) => old(self).contents@.update(p, new),
                None => old(self).contents@,
            },
    {
        proof {
            lemma_first_with_id(self.contents@, new.item.id);
        }
        if let Some(p) = self.item_position(&new.item) {
            self.contents.set(p, new);
        }
    }

    /// Removes, for each of the given containers in turn, the first content carrying the same
    /// item identifier.
    pub fn remove_items(&mut self, items: Vec<&Container>)
        ensures
            final(self).item == old(self).item,
            final(self).container_type == old(self).container_type,
            final(self).weight_limit == old(self).weight_limit,
            final(self).contents@ == without_each(old(self).contents@, items@.map_values(|c: &Container| c.item.id)),
    {
        let ghost ids = items@.map_values(|c: &Container| c.item.id);
        let mut i: usize = 0;
        proof {
            assert(ids.subrange(0, ids.len() as int) =~= ids);
        }
        while i < items.len()
            invariant
                i <= items@.len(),
                ids == items@.map_values(|c: &Container| c.item.id),
                self.item == old(self).item,
                self.container_type == old(self).container_type,
                self.weight_limit == old(self).weight_limit,
                without_each(self.contents@, ids.subrange(i as int, ids.len() as int))
                    == without_each(old(self).contents@, ids),
            decreases items@.len() - i,
        {
            let item = items[i];
            proof {
                let rest = ids.subrange(i as int, ids.len() as int);
                assert(rest[0] == item.item.id);
                assert(rest.drop_first() =~= ids.subrange(i + 1, ids.len() as int));
                lemma_first_with_id(self.contents@, item.item.id);
            }
            if let Some(position) = self.position(item) {
                self.contents.remove(position);
            }
            i += 1;
        }
        proof {
            assert(ids.subrange(ids.len() as int, ids.len() as int) =~= Seq::<u128>::empty());
        }
    }
}

/// The path of content indices, from the top, to the container `find_mut` gives for an
/// identifier: contents are searched in order, each one itself before what it stores.
pub open spec fn dfs_path(c: Container, id: u128) -> Option<Seq<int>>
    decreases c, 1int,
{
    dfs_in(c.contents@, id, 0)
}

/// The path to the first match within `s[i]`, `s[i + 1]`, ... in order.
pub open spec fn dfs_in(s: Seq<Container>, id: u128, i: int) -> Option<Seq<int>>
    decreases s, s.len() - i,
{
    if i < 0 || i >= s.len() {
        None
    } else if s[i].item.id == id {
        Some(seq![i])
    } else {
        match dfs_path(s[i], id) {
            Some(p) => Some(seq![i] + p),
            None => dfs_in(s, id, i + 1),
        }
    }
}

/// The container at the end of a path of content indices.
pub open spec fn at_path(c: Container, path: Seq<int>) -> Container
    decreases path.len(),
{
    if path.len() == 0 { c } else { at_path(c.contents@[path[0]], path.drop_first()) }
}

/// `new` is `old` with the container at `path` replaced by `sub`, everything else unchanged.
pub open spec fn replaced_at(old: Container, new: Container, path: Seq<int>, sub: Container) -> bool
    decreases path.len(),
{
    if path.len() == 0 {
        new == sub
    } else {
        let i = path[0];
        &&& new.item == old.item
        &&& new.container_type == old.container_type
        &&& new.weight_limit == old.weight_limit
        &&& new.contents@.len() == old.contents@.len()
        &&& 0 <= i < old.contents@.len()
        &&& forall|j: int| 0 <= j < old.contents@.len() && j != i ==> #[trigger] new.contents@[j] == old.contents@[j]
        &&& replaced_at(old.contents@[i], new.contents@[i], path.drop_first(), sub)
    }
}

impl Container {
    /// Whether `find_mut` would find a container for `target` within this one.
    pub(crate) fn has_match(&self, target: &Item) -> (r: bool)
        ensures
            r == dfs_path(*self, target.id) is Some,
        decreases self,
    {
        let ghost s = self.contents@;
        let mut i: usize = 0;
        while i < self.contents.len()
            invariant
                s == self.contents@,
                i <= s.len(),
                dfs_path(*self, target.id) == dfs_in(s, target.id, i as int),
            decreases s.len() - i,
        {
            proof {
                assert(decreases_to!(self => self.contents));
            }
            if self.contents[i].item.id == target.id || self.contents[i].has_match(target) {
                return true;
            }
            i += 1;
        }
        false
    }

    /// The stored container wrapping an item with `target`'s identifier, found in the order that
    /// `find_mut` searches: contents in order, each one itself before what it stores.
    pub fn find_first(&self, target: &Item) -> (r: Option<&Container>)
        ensures
            match dfs_path(*self, target.id) {
                Some(path) => r is Some && *r->0 == at_path(*self, path),
                None => r is None,
            },
        decreases self,
    {
        let ghost s = self.contents@;
        let mut i: usize = 0;
        while i < self.contents.len()
            invariant
                s == self.contents@,
                i <= s.len(),
                dfs_path(*self, target.id) == dfs_in(s, target.id, i as int),
            decreases s.len() - i,
        {
            proof {
                assert(decreases_to!(self => self.contents));
            }
            if self.contents[i].item.id == target.id {
                proof {
                    let path = seq![i as int];
                    assert(path.drop_first() =~= Seq::<int>::empty());
                    assert(dfs_in(s, target.id, i as int) == Some(path));
                    assert(at_path(self.contents@[i as int], path.drop_first()) == self.contents@[i as int]);
                }
                return Some(&self.contents[i]);
            }
            if self.contents[i].has_match(target) {
                let ghost sub_path = dfs_path(s[i as int], target.id)->0;
                let r = self.contents[i].find_first(target);
                proof {
                    assert((seq![i as int] + sub_path).drop_first() =~= sub_path);
                    assert((seq![i as int] + sub_path)[0] == i);
                }
                return r;
            }
            i += 1;
        }
        None
    }

    /// The stored container wrapping an item with `target`'s identifier, to be changed in place:
    /// contents are searched in order, each one itself before what it stores.
    pub fn find_mut(&mut self, target: &Item) -> (r: Option<&mut Container>)
        ensures
            match dfs_path(*old(self), target.id) {
                Some(path) => {
                    &&& r is Some
                    &&& *r->0 == at_path(*old(self), path)
                    &&& replaced_at(*old(self), *final(self), path, *final(r->0))
                },
                None => r is None && final(self).contents@ == old(self).contents@
                    && final(self).item == old(self).item
                    && final(self).container_type == old(self).container_type
                    && final(self).weight_limit == old(self).weight_limit,
            },
        decreases *old(self),
    {
        let ghost s = self.contents@;
        let mut i: usize = 0;
        while i < self.contents.len()
            invariant
                s == self.contents@,
                *self == *old(self),
                i <= s.len(),
                dfs_path(*self, target.id) == dfs_in(s, target.id, i as int),
            decreases s.len() - i,
        {
            if self.contents[i].item.id == target.id {
                let ghost path = seq![i as int];
                let r = &mut self.contents[i];
                proof {
                    assert(path.drop_first() =~= Seq::<int>::empty());
                    assert(dfs_in(s, target.id, i as int) == Some(path));
                    assert(at_path(old(self).contents@[i as int], path.drop_first()) == old(self).contents@[i as int]);
                    assert(at_path(*old(self), path) == old(self).contents@[i as int]);
                    assert(*r == old(self).contents@[i as int]);
                    assert(after_borrow(self.contents)@ == old(self).contents@.update(i as int, *final(r)));
                    assert(after_borrow(self.contents)@[i as int] == *final(r));
                    assert(replaced_at(old(self).contents@[i as int], after_borrow(self.contents)@[i as int], path.drop_first(), *final(r)));
                    assert(replaced_at(*old(self), after_borrow(*self), path, *final(r)));
                }
                return Some(r);
            }
            if self.contents[i].has_match(target) {
                proof {
                    assert(decreases_to!(*old(self) => old(self).contents));
                }
                let ghost sub_path = dfs_path(s[i as int], target.id)->0;
                let child = &mut self.contents[i];
                let r = child.find_mut(target);
                proof {
                    assert((seq![i as int] + sub_path).drop_first() =~= sub_path);
                    assert((seq![i as int] + sub_path)[0] == i);
                }
                return r;
            }
            i += 1;
        }
        None
    }
}

/// A container as a tree of values: its item, type, weight limit and the trees of its contents.
pub struct Tree {
    pub item: Item,
    pub kind: ContainerType,
    pub limit: i32,
    pub kids: Seq<Tree>,
}

/// The tree of a container.
pub open spec fn tree(c: Container) -> Tree
    decreases c, 1int,
{
    Tree { item: c.item, kind: c.container_type, limit: c.weight_limit, kids: trees(c.contents@, c.contents@.len() as int) }
}

/// The trees of the first `n` containers of `s`.
pub open spec fn trees(s: Seq<Container>, n: int) -> Seq<Tree>
    decreases s, n,
{
    if n <= 0 || n > s.len() { Seq::empty() } else { trees(s, n - 1).push(tree(s[n - 1])) }
}

pub(crate) proof fn lemma_trees(s: Seq<Container>, n: int)
    requires
        0 <= n <= s.len(),
    ensures
        trees(s, n).len() == n,
        forall|j: int| 0 <= j < n ==> #[trigger] trees(s, n)[j] == tree(s[j]),
    decreases n,
{
    if n > 0 {
        lemma_trees(s, n - 1);
    }
}

/// Copies a container and, recursively, everything stored in it.
pub fn clone_container(c: &Container) -> (r: Container)
    ensures
        tree(r) == tree(*c),
    decreases c,
{
    let mut contents: Vec<Container> = Vec::new();
    let ghost s = c.contents@;
    let mut i: usize = 0;
    while i < c.contents.len()
        invariant
            s == c.contents@,
            i <= s.len(),
            contents@.len() == i,
            forall|j: int| 0 <= j < i ==> #[trigger] tree(contents@[j]) == tree(s[j]),
        decreases s.len() - i,
    {
        proof {
            assert(decreases_to!(c => c.contents));
        }
        let copy = clone_container(&c.contents[i]);
        contents.push(copy);
        i += 1;
    }
    let r = Container { item: c.item.clone(), container_type: c.container_type, weight_limit: c.weight_limit, contents };
    proof {
        lemma_trees(r.contents@, r.contents@.len() as int);
        lemma_trees(s, s.len() as int);
        assert(trees(r.contents@, r.contents@.len() as int) =~= trees(s, s.len() as int));
    }
    r
}

impl Clone for Container {
    fn clone(&self) -> (r: Self)
        ensures
            tree(r) == tree(*self),
    {
        clone_container(self)
    }
}

/// The movable containers (OBJECTs) among `kids` and, before each, those stored within it.
pub open spec fn object_trees(kids: Seq<Tree>) -> Seq<Tree>
    decreases kids,
{
    if kids.len() == 0 {
        Seq::empty()
    } else {
        let k = kids.last();
        object_trees(kids.drop_last()) + if k.kind == ContainerType::OBJECT {
            proof {
                assert(decreases_to!(kids => k));
            }
            object_trees(k.kids).push(k)
        } else {
            Seq::empty()
        }
    }
}

/// The indices of the movable containers (OBJECTs) among `s`, in order.
pub open spec fn object_indices(s: Seq<Container>) -> Seq<usize>
    decreases s.len(),
{
    if s.len() == 0 {
        Seq::empty()
    } else if s.last().container_type == ContainerType::OBJECT {
        object_indices(s.drop_last()).push((s.len() - 1) as usize)
    } else {
        object_indices(s.drop_last())
    }
}

impl Container {
    /// Where the movable containers (OBJECTs) lie among the top-level contents, in order, given
    /// as indices into `contents`.
    pub fn find_topmost_subcontainers(&self) -> (r: Vec<usize>)
        ensures
            r@ == object_indices(self.contents@),
    {
        let mut r: Vec<usize> = Vec::new();
        let mut i: usize = 0;
        while i < self.contents.len()
            invariant
                i <= self.contents@.len(),
                r@ == object_indices(self.contents@.subrange(0, i as int)),
            decreases self.contents@.len() - i,
        {
            proof {
                assert(self.contents@.subrange(0, i + 1).drop_last() =~= self.contents@.subrange(0, i as int));
            }
            if self.contents[i].container_type == ContainerType::OBJECT {
                r.push(i);
            }
            i += 1;
        }
        proof {
            assert(self.contents@.subrange(0, self.contents@.len() as int) =~= self.contents@);
        }
        r
    }

    /// Copies of all movable containers (OBJECTs) stored at any depth: for each top-level one in
    /// order, the copies from within it come first, then the copy of itself.
    pub fn find_and_clone_subcontainers(&mut self) -> (r: Vec<Container>)
        ensures
            *final(self) == *old(self),
            r@.len() == object_trees(tree(*old(self)).kids).len(),
            forall|j: int| 0 <= j < r@.len() ==> #[trigger] tree(r@[j]) == object_trees(tree(*old(self)).kids)[j],
    {
        self.subcontainer_copies()
    }

    fn subcontainer_copies(&self) -> (r: Vec<Container>)
        ensures
            r@.len() == object_trees(tree(*self).kids).len(),
            forall|j: int| 0 <= j < r@.len() ==> #[trigger] tree(r@[j]) == object_trees(tree(*self).kids)[j],
        decreases self,
    {
        let mut containers: Vec<Container> = Vec::new();
        let ghost s = self.contents@;
        let ghost kids = tree(*self).kids;
        proof {
            lemma_trees(s, s.len() as int);
        }
        let mut i: usize = 0;
        while i < self.contents.len()
            invariant
                s == self.contents@,
                kids == tree(*self).kids,
                kids.len() == s.len(),
                forall|j: int| 0 <= j < s.len() ==> #[trigger] kids[j] == tree(s[j]),
                i <= s.len(),
                containers@.len() == object_trees(kids.subrange(0, i as int)).len(),
                forall|j: int| 0 <= j < containers@.len() ==> #[trigger] tree(containers@[j]) == object_trees(kids.subrange(0, i as int))[j],
            decreases s.len() - i,
        {
            let ghost before = containers@;
            proof {
                assert(kids.subrange(0, i + 1).drop_last() =~= kids.subrange(0, i as int));
                assert(kids.subrange(0, i + 1).last() == tree(s[i as int]));
            }
            if self.contents[i].container_type == ContainerType::OBJECT {
                proof {
                    assert(decreases_to!(self => self.contents));
                }
                let sub = self.contents[i].subcontainer_copies();
                let mut k: usize = 0;
                while k < sub.len()
                    invariant
                        k <= sub@.len(),
                        containers@.len() == before.len() + k,
                        forall|j: int| 0 <= j < before.len() ==> #[trigger] containers@[j] == before[j],
                        forall|j: int| 0 <= j < k ==> #[trigger] tree(containers@[before.len() + j]) == tree(sub@[j]),
                    decreases sub@.len() - k,
                {
                    let copy = clone_container(&sub[k]);
                    containers.push(copy);
                    k += 1;
                }
                let copy = clone_container(&self.contents[i]);
                containers.push(copy);
                proof {
                    let ot = object_trees(kids.subrange(0, i + 1));
                    assert(ot =~= object_trees(kids.subrange(0, i as int)) + object_trees(tree(s[i as int]).kids).push(tree(s[i as int])));
                    assert forall|j: int| 0 <= j < containers@.len() implies #[trigger] tree(containers@[j]) == ot[j] by {
                        if j < before.len() {
                        } else if j < before.len() + sub@.len() {
                            assert(tree(containers@[before.len() + (j - before.len())]) == tree(sub@[j - before.len()]));
                        }
                    }
                }
            } else {
                proof {
                    assert(object_trees(kids.subrange(0, i + 1)) =~= object_trees(kids.subrange(0, i as int)));
                }
            }
            i += 1;
        }
        proof {
            assert(kids.subrange(0, s.len() as int) =~= kids);
        }
        containers
    }
}

/// The index of the first tree in `s`, from `i` on, whose item has the identifier `id`.
pub open spec fn first_tree_with_id(s: Seq<Tree>, id: u128, i: int) -> Option<int>
    decreases s.len() - i,
{
    if i < 0 || i >= s.len() {
        None
    } else if s[i].item.id == id {
        Some(i)
    } else {
        first_tree_with_id(s, id, i + 1)
    }
}

/// What `remove_matching_items` does to a tree for the identifiers `ids[k..]`, given the count
/// `rlen` it keeps: for each identifier the count grows by one; a top-level content with it is
/// removed, or else every content is processed in turn with all the identifiers, and the count
/// becomes the number of identifiers when any of them reports success. `fuel` bounds the depth.
pub open spec fn rm_pass(t: Tree, ids: Seq<u128>, k: int, rlen: int, fuel: nat) -> (Tree, int)
    decreases fuel, 1int, ids.len() - k, 0int,
{
    if k < 0 || k >= ids.len() {
        (t, rlen)
    } else {
        match first_tree_with_id(t.kids, ids[k], 0) {
            Some(p) => rm_pass(Tree { kids: t.kids.remove(p), ..t }, ids, k + 1, rlen + 1, fuel),
            None => {
                let kids = rm_kids(t.kids, ids, t.kids.len() as int, fuel);
                rm_pass(Tree { kids: kids.0, ..t }, ids, k + 1, if kids.1 { ids.len() as int } else { rlen + 1 }, fuel)
            },
        }
    }
}

/// The first `n` trees of `s`, each processed with all the identifiers, and whether any of them
/// reported success.
pub open spec fn rm_kids(s: Seq<Tree>, ids: Seq<u128>, n: int, fuel: nat) -> (Seq<Tree>, bool)
    decreases fuel, 0int, 0int, n,
{
    if n <= 0 || n > s.len() {
        (Seq::empty(), false)
    } else if fuel == 0 {
        (s.subrange(0, n), false)
    } else {
        let pre = rm_kids(s, ids, n - 1, fuel);
        let last = rm_tree(s[n - 1], ids, (fuel - 1) as nat);
        (pre.0.push(last.0), pre.1 || last.1)
    }
}

/// A tree after `remove_matching_items` with the given identifiers, and its result: whether the
/// count it keeps ends equal to the number of identifiers.
pub open spec fn rm_tree(t: Tree, ids: Seq<u128>, fuel: nat) -> (Tree, bool)
    decreases fuel, 2int, 0int, 0int,
{
    let r = rm_pass(t, ids, 0, 0, fuel);
    (r.0, r.1 == ids.len())
}

/// The number of levels of a tree.
pub open spec fn depth(t: Tree) -> nat
    decreases t, 1int,
{
    1 + kids_depth(t.kids, t.kids.len() as int)
}

/// The greatest depth among the first `n` trees of `s`.
pub open spec fn kids_depth(s: Seq<Tree>, n: int) -> nat
    decreases s, n,
{
    if n <= 0 || n > s.len() {
        0
    } else {
        let a = kids_depth(s, n - 1);
        let b = depth(s[n - 1]);
        if a >= b { a } else { b }
    }
}

proof fn lemma_kids_depth_bound(s: Seq<Tree>, n: int)
    requires
        0 <= n <= s.len(),
    ensures
        forall|j: int| 0 <= j < n ==> depth(#[trigger] s[j]) <= kids_depth(s, n),
    decreases n,
{
    if n > 0 {
        lemma_kids_depth_bound(s, n - 1);
    }
}

proof fn lemma_kids_depth_le(a: Seq<Tree>, b: Seq<Tree>, n: int, m: int)
    requires
        0 <= n <= a.len(),
        0 <= m <= b.len(),
        forall|j: int| 0 <= j < n ==> depth(#[trigger] a[j]) <= kids_depth(b, m),
    ensures
        kids_depth(a, n) <= kids_depth(b, m),
    decreases n,
{
    if n > 0 {
        lemma_kids_depth_le(a, b, n - 1, m);
    }
}

proof fn lemma_kids_depth_remove(s: Seq<Tree>, p: int)
    requires
        0 <= p < s.len(),
    ensures
        kids_depth(s.remove(p), s.len() - 1) <= kids_depth(s, s.len() as int),
{
    lemma_kids_depth_bound(s, s.len() as int);
    assert forall|j: int| 0 <= j < s.len() - 1 implies depth(#[trigger] s.remove(p)[j]) <= kids_depth(s, s.len() as int) by {
        if j < p {
            assert(s.remove(p)[j] == s[j]);
        } else {
            assert(s.remove(p)[j] == s[j + 1]);
        }
    }
    lemma_kids_depth_le(s.remove(p), s, s.len() - 1, s.len() as int);
}

proof fn lemma_rm_kids_shape(s: Seq<Tree>, ids: Seq<u128>, n: int, fuel: nat)
    requires
        0 <= n <= s.len(),
    ensures
        rm_kids(s, ids, n, fuel).0.len() == n,
    decreases n,
{
    if n > 0 && fuel > 0 {
        lemma_rm_kids_shape(s, ids, n - 1, fuel);
    }
}

/// Processing never makes a tree deeper.
proof fn lemma_rm_depth(t: Tree, ids: Seq<u128>, k: int, rlen: int, fuel: nat)
    ensures
        depth(rm_pass(t, ids, k, rlen, fuel).0) <= depth(t),
    decreases fuel, 1int, ids.len() - k, 0int,
{
    if 0 <= k < ids.len() {
        match first_tree_with_id(t.kids, ids[k], 0) {
            Some(p) => {
                lemma_first_tree_with_id(t.kids, ids[k], 0);
                lemma_kids_depth_remove(t.kids, p);
                let t2 = Tree { kids: t.kids.remove(p), ..t };
                lemma_rm_depth(t2, ids, k + 1, rlen + 1, fuel);
            },
            None => {
                let kids = rm_kids(t.kids, ids, t.kids.len() as int, fuel);
                lemma_rm_kids_depth(t.kids, ids, t.kids.len() as int, fuel);
                lemma_rm_kids_shape(t.kids, ids, t.kids.len() as int, fuel);
                lemma_kids_depth_bound(t.kids, t.kids.len() as int);
                lemma_kids_depth_le(kids.0, t.kids, t.kids.len() as int, t.kids.len() as int);
                let t2 = Tree { kids: kids.0, ..t };
                lemma_rm_depth(t2, ids, k + 1, if kids.1 { ids.len() as int } else { rlen + 1 }, fuel);
            },
        }
    }
}

proof fn lemma_rm_kids_depth(s: Seq<Tree>, ids: Seq<u128>, n: int, fuel: nat)
    requires
        0 <= n <= s.len(),
    ensures
        forall|j: int| 0 <= j < n ==> depth(#[trigger] rm_kids(s, ids, n, fuel).0[j]) <= depth(s[j]),
    decreases fuel, 0int, 0int, n,
{
    if n > 0 {
        if fuel == 0 {
        } else {
            lemma_rm_kids_depth(s, ids, n - 1, fuel);
            lemma_rm_depth(s[n - 1], ids, 0, 0, (fuel - 1) as nat);
            lemma_rm_kids_shape(s, ids, n - 1, fuel);
            let r = rm_kids(s, ids, n, fuel).0;
            let pre = rm_kids(s, ids, n - 1, fuel).0;
            let last = rm_tree(s[n - 1], ids, (fuel - 1) as nat).0;
            assert(r == pre.push(last));
            assert(last == rm_pass(s[n - 1], ids, 0, 0, (fuel - 1) as nat).0);
            assert forall|j: int| 0 <= j < n implies depth(#[trigger] r[j]) <= depth(s[j]) by {
                if j < n - 1 {
                    assert(r[j] == pre[j]);
                } else {
                    assert(r[j] == last);
                }
            }
        }
    }
}

proof fn lemma_first_tree_with_id(s: Seq<Tree>, id: u128, i: int)
    requires
        0 <= i,
    ensures
        first_tree_with_id(s, id, i) matches Some(p) ==> i <= p < s.len() && s[p].item.id == id,
    decreases s.len() - i,
{
    if i < s.len() && s[i].item.id != id {
        lemma_first_tree_with_id(s, id, i + 1);
    }
}

/// Any fuel that covers the depth gives the same result.
proof fn lemma_fuel_pass(t: Tree, ids: Seq<u128>, k: int, rlen: int, f1: nat, f2: nat)
    requires
        f1 >= depth(t),
        f2 >= depth(t),
    ensures
        rm_pass(t, ids, k, rlen, f1) == rm_pass(t, ids, k, rlen, f2),
    decreases depth(t), 1int, ids.len() - k, 0int,
{
    if 0 <= k < ids.len() {
        lemma_kids_depth_bound(t.kids, t.kids.len() as int);
        match first_tree_with_id(t.kids, ids[k], 0) {
            Some(p) => {
                lemma_first_tree_with_id(t.kids, ids[k], 0);
                lemma_kids_depth_remove(t.kids, p);
                let t2 = Tree { kids: t.kids.remove(p), ..t };
                lemma_fuel_pass(t2, ids, k + 1, rlen + 1, f1, f2);
            },
            None => {
                lemma_fuel_kids(t.kids, ids, t.kids.len() as int, f1, f2, depth(t));
                let kids = rm_kids(t.kids, ids, t.kids.len() as int, f1);
                lemma_rm_kids_depth(t.kids, ids, t.kids.len() as int, f1);
                lemma_rm_kids_shape(t.kids, ids, t.kids.len() as int, f1);
                lemma_kids_depth_le(kids.0, t.kids, t.kids.len() as int, t.kids.len() as int);
                let t2 = Tree { kids: kids.0, ..t };
                lemma_fuel_pass(t2, ids, k + 1, if kids.1 { ids.len() as int } else { rlen + 1 }, f1, f2);
            },
        }
    }
}

proof fn lemma_fuel_kids(s: Seq<Tree>, ids: Seq<u128>, n: int, f1: nat, f2: nat, d: nat)
    requires
        0 <= n <= s.len(),
        forall|j: int| 0 <= j < n ==> depth(#[trigger] s[j]) < d,
        d <= f1,
        d <= f2,
    ensures
        rm_kids(s, ids, n, f1) == rm_kids(s, ids, n, f2),
    decreases d, 0int, 0int, n,
{
    if n > 0 {
        assert(depth(s[n - 1]) < d);
        lemma_fuel_kids(s, ids, n - 1, f1, f2, d);
        lemma_fuel_pass(s[n - 1], ids, 0, 0, (f1 - 1) as nat, (f2 - 1) as nat);
        assert(f1 > 0 && f2 > 0);
        assert(rm_tree(s[n - 1], ids, (f1 - 1) as nat) == rm_tree(s[n - 1], ids, (f2 - 1) as nat));
    }
}

/// The item identifiers of the given containers, in order.
pub open spec fn ids_of(items: Seq<Container>) -> Seq<u128> {
    items.map_values(|c: Container| c.item.id)
}

proof fn lemma_first_tree_from(s: Seq<Container>, id: u128, i: int)
    requires
        0 <= i <= s.len(),
    ensures
        first_with_id_from(s, id, i) == first_tree_with_id(trees(s, s.len() as int), id, i),
    decreases s.len() - i,
{
    lemma_trees(s, s.len() as int);
    if i < s.len() {
        assert(trees(s, s.len() as int)[i].item == s[i].item);
        lemma_first_tree_from(s, id, i + 1);
    }
}

proof fn lemma_trees_remove(s: Seq<Container>, p: int)
    requires
        0 <= p < s.len(),
    ensures
        trees(s.remove(p), s.len() - 1) == trees(s, s.len() as int).remove(p),
{
    lemma_trees(s, s.len() as int);
    lemma_trees(s.remove(p), s.len() - 1);
    assert(trees(s.remove(p), s.len() - 1) =~= trees(s, s.len() as int).remove(p));
}

proof fn lemma_rm_kids_elems(s: Seq<Tree>, ids: Seq<u128>, n: int, fuel: nat)
    requires
        0 <= n <= s.len(),
        fuel > 0,
    ensures
        rm_kids(s, ids, n, fuel).0.len() == n,
        forall|j: int| 0 <= j < n ==> #[trigger] rm_kids(s, ids, n, fuel).0[j] == rm_tree(s[j], ids, (fuel - 1) as nat).0,
        rm_kids(s, ids, n, fuel).1 == exists|j: int| 0 <= j < n && #[trigger] rm_tree(s[j], ids, (fuel - 1) as nat).1,
    decreases n,
{
    if n > 0 {
        lemma_rm_kids_elems(s, ids, n - 1, fuel);
        let pre = rm_kids(s, ids, n - 1, fuel);
        let r = rm_kids(s, ids, n, fuel);
        assert(r.0 == pre.0.push(rm_tree(s[n - 1], ids, (fuel - 1) as nat).0));
        assert forall|j: int| 0 <= j < n implies #[trigger] r.0[j] == rm_tree(s[j], ids, (fuel - 1) as nat).0 by {
            if j < n - 1 {
                assert(r.0[j] == pre.0[j]);
            }
        }
        if r.1 {
            if pre.1 {
                let w = choose|j: int| 0 <= j < n - 1 && #[trigger] rm_tree(s[j], ids, (fuel - 1) as nat).1;
                assert(0 <= w < n && rm_tree(s[w], ids, (fuel - 1) as nat).1);
            } else {
                assert(rm_tree(s[n - 1], ids, (fuel - 1) as nat).1);
            }
        }
        if exists|j: int| 0 <= j < n && #[trigger] rm_tree(s[j], ids, (fuel - 1) as nat).1 {
            let w = choose|j: int| 0 <= j < n && #[trigger] rm_tree(s[j], ids, (fuel - 1) as nat).1;
            if w < n - 1 {
                assert(pre.1);
            }
        }
    }
}

/// Copies each of the given containers.
pub(crate) fn clone_all(items: &Vec<Container>) -> (r: Vec<Container>)
    ensures
        ids_of(r@) == ids_of(items@),
{
    let mut out: Vec<Container> = Vec::new();
    let mut i: usize = 0;
    while i < items.len()
        invariant
            i <= items@.len(),
            out@.len() == i,
            forall|j: int| 0 <= j < i ==> (#[trigger] out@[j]).item.id == items@[j].item.id,
        decreases items@.len() - i,
    {
        let copy = clone_container(&items[i]);
        out.push(copy);
        i += 1;
    }
    assert(ids_of(out@) =~= ids_of(items@));
    out
}

impl Container {
    /// For each of the given containers in turn: counts it, and removes the first top-level
    /// content with its item identifier; when there is none, asks every content in turn to
    /// remove all of the given containers, and resets the count to their number when any
    /// content reports success. Reports whether the count ends equal to their number.
    pub fn remove_matching_items(&mut self, items: Vec<Container>) -> (r: bool)
        ensures
            tree(*final(self)) == rm_tree(tree(*old(self)), ids_of(items@), depth(tree(*old(self)))).0,
            r == rm_tree(tree(*old(self)), ids_of(items@), depth(tree(*old(self)))).1,
        decreases depth(tree(*old(self))),
    {
        let ghost ids = ids_of(items@);
        let ghost d = depth(tree(*self));
        let mut removed: u128 = 0;
        let mut k: usize = 0;
        while k < items.len()
            invariant
                k <= items@.len(),
                ids == ids_of(items@),
                d == depth(tree(*old(self))),
                depth(tree(*self)) <= d,
                removed <= items@.len() + k,
                rm_pass(tree(*self), ids, k as int, removed as int, d) == rm_pass(tree(*old(self)), ids, 0, 0, d),
            decreases items@.len() - k,
        {
            let ghost before = *self;
            let ghost r0 = removed as int;
            proof {
                lemma_trees(before.contents@, before.contents@.len() as int);
                lemma_first_tree_from(before.contents@, items@[k as int].item.id, 0);
                lemma_first_with_id(before.contents@, items@[k as int].item.id);
                lemma_kids_depth_bound(tree(before).kids, tree(before).kids.len() as int);
                assert(ids[k as int] == items@[k as int].item.id);
            }
            removed = removed + 1;
            proof {
                assert forall|i: int| 0 <= i < before.contents@.len() implies depth(#[trigger] tree(before.contents@[i])) < depth(tree(before)) by {
                    assert(tree(before).kids[i] == tree(before.contents@[i]));
                }
            }
            if !self.remove_item(&items[k]) {
                let mut any = false;
                let mut j: usize = 0;
                while j < self.contents.len()
                    invariant
                        j <= self.contents@.len(),
                        ids == ids_of(items@),
                        d == depth(tree(*old(self))),
                        depth(tree(before)) <= d,
                        self.item == before.item,
                        self.container_type == before.container_type,
                        self.weight_limit == before.weight_limit,
                        self.contents@.len() == before.contents@.len(),
                        forall|i: int| j <= i < self.contents@.len() ==> #[trigger] self.contents@[i] == before.contents@[i],
                        forall|i: int| 0 <= i < j ==> #[trigger] tree(self.contents@[i]) == rm_tree(tree(before.contents@[i]), ids, (d - 1) as nat).0,
                        any == exists|i: int| 0 <= i < j && #[trigger] rm_tree(tree(before.contents@[i]), ids, (d - 1) as nat).1,
                        forall|i: int| 0 <= i < before.contents@.len() ==> depth(#[trigger] tree(before.contents@[i])) < depth(tree(before)),
                    decreases self.contents@.len() - j,
                {
                    let copy = clone_all(&items);
                    let ghost child = self.contents@[j as int];
                    proof {
                        assert(depth(tree(child)) < d);
                        lemma_fuel_pass(tree(child), ids, 0, 0, depth(tree(child)), (d - 1) as nat);
                    }
                    let ghost prev = self.contents@;
                    let b = self.contents[j].remove_matching_items(copy);
                    if b {
                        any = true;
                    }
                    proof {
                        assert forall|i: int| 0 <= i < j + 1 implies #[trigger] tree(self.contents@[i]) == rm_tree(tree(before.contents@[i]), ids, (d - 1) as nat).0 by {
                            if i < j {
                                assert(self.contents@[i] == prev[i]);
                            }
                        }
                        assert forall|i: int| j + 1 <= i < self.contents@.len() implies #[trigger] self.contents@[i] == before.contents@[i] by {
                            assert(self.contents@[i] == prev[i]);
                        }
                    }
                    j += 1;
                }
                if any {
                    removed = items.len() as u128;
                }
                proof {
                    let kids0 = tree(before).kids;
                    lemma_trees(self.contents@, self.contents@.len() as int);
                    lemma_rm_kids_elems(kids0, ids, kids0.len() as int, d);
                    assert(tree(*self).kids =~= rm_kids(kids0, ids, kids0.len() as int, d).0);
                    lemma_rm_depth(tree(before), ids, k as int, (removed - 1) as int, d);
                    lemma_rm_kids_depth(kids0, ids, kids0.len() as int, d);
                    lemma_kids_depth_le(tree(*self).kids, kids0, kids0.len() as int, kids0.len() as int);
                    let rk = rm_kids(kids0, ids, kids0.len() as int, d);
                    if rk.1 {
                        let w = choose|w: int| 0 <= w < kids0.len() && #[trigger] rm_tree(kids0[w], ids, (d - 1) as nat).1;
                        assert(kids0[w] == tree(before.contents@[w]));
                        assert(rm_tree(tree(before.contents@[w]), ids, (d - 1) as nat).1);
                    }
                    if any {
                        let w = choose|w: int| 0 <= w < before.contents@.len() && #[trigger] rm_tree(tree(before.contents@[w]), ids, (d - 1) as nat).1;
                        assert(kids0[w] == tree(before.contents@[w]));
                        assert(rm_tree(kids0[w], ids, (d - 1) as nat).1);
                    }
                    assert(any == rk.1);
                    assert(first_tree_with_id(kids0, ids[k as int], 0) is None);
                    assert(tree(*self) == Tree { kids: rk.0, ..tree(before) });
                    assert(rm_pass(tree(before), ids, k as int, r0, d) == rm_pass(tree(*self), ids, k + 1, removed as int, d));
                }
            } else {
                proof {
                    let p = first_with_id(before.contents@, items@[k as int].item.id)->0;
                    lemma_trees_remove(before.contents@, p);
                    lemma_kids_depth_remove(tree(before).kids, p);
                    assert(tree(*self).kids == tree(before).kids.remove(p));
                    assert(tree(*self) == Tree { kids: tree(before).kids.remove(p), ..tree(before) });
                    assert(first_tree_with_id(tree(before).kids, ids[k as int], 0) == Some(p));
                    assert(rm_pass(tree(before), ids, k as int, r0, d) == rm_pass(tree(*self), ids, k + 1, removed as int, d));
                }
            }
            k += 1;
        }
        removed == items.len() as u128
    }
}

} // verus!
