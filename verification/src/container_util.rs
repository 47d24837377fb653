use vstd::prelude::*;

use crate::container::{
    find_spec, at_path, clone_all, depth, dfs_path, first_with_id, ids_of, is_true, lemma_kids_weight_push, lemma_trees,
    lemma_weight_bound, lemma_weight_tree, replaced_at, rm_tree, tree, trees, weight_total, Container, ContainerType, Tree,
};
use crate::character::Character;
use crate::items::Item;
use crate::level::Level;
use crate::map::{first_at, lemma_first_at, lemma_replace_keeps_unique, positions_unique, GameMap};
use crate::position::Position;

verus! {

/// A request to move items out of a container (`source`): into another container
/// (`target_container`) or to the place of one of the source's contents (`target_item`), with
/// the map position of the source when it lies in the world.
#[derive(Debug)]
pub struct MoveItemsData {
    pub source: Container,
    pub to_move: Vec<Item>,
    pub target_container: Option<Container>,
    pub target_item: Option<Item>,
    pub position: Option<Position>,
}

/// A request to take items from a container lying at a map position.
#[derive(Debug)]
pub struct TakeItemsData {
    pub source: Container,
    pub to_take: Vec<Item>,
    pub position: Option<Position>,
}

/// What a container view asks for, and what it is answered.
#[derive(Debug)]
pub enum ContainerFrameHandlerInputResult {
    TakeItems(TakeItemsData),
    DropItems(Vec<Item>),
    MoveItems(MoveItemsData),
}

/// The containers that the items stand for in `source`, in the order of the items: for each
/// item, the first container that `find_mut` would find for it; items not found are skipped.
pub open spec fn gathered(source: Container, items: Seq<Item>) -> Seq<Container>
    decreases items.len(),
{
    if items.len() == 0 {
        Seq::empty()
    } else {
        let g = gathered(source, items.drop_last());
        match dfs_path(source, items.last().id) {
            Some(p) => g.push(at_path(source, p)),
            None => g,
        }
    }
}

/// The items that stand for nothing in `source`, in order.
pub open spec fn left_behind(source: Container, items: Seq<Item>) -> Seq<Item>
    decreases items.len(),
{
    if items.len() == 0 {
        Seq::empty()
    } else {
        let l = left_behind(source, items.drop_last());
        match dfs_path(source, items.last().id) {
            Some(p) => l,
            None => l.push(items.last()),
        }
    }
}

/// The trees of a list of containers.
pub open spec fn trees_of(s: Seq<Container>) -> Seq<Tree> {
    s.map_values(|c: Container| tree(c))
}

/// The index of the content whose item is `target_item`, if there is one.
pub open spec fn spot_of(c: Container, target_item: Option<Item>) -> Option<int> {
    match target_item {
        Some(t) => first_with_id(c.contents@, t.id),
        None => None,
    }
}

/// Where moved items go in: at the target's index less the number moved, unless that would be
/// below zero.
pub open spec fn spot_index(pos: int, moved: int) -> int {
    if pos >= moved { pos - moved } else { pos }
}

/// `t` with `moved` put in among its contents before index `index`.
pub open spec fn placed_at(t: Tree, index: int, moved: Seq<Tree>) -> Tree {
    Tree { kids: t.kids.subrange(0, index) + moved + t.kids.subrange(index, t.kids.len() as int), ..t }
}

/// The tree of `c` with the containers of `moving` taken out wherever they are stored.
pub open spec fn without(c: Container, moving: Seq<Container>) -> Tree {
    rm_tree(tree(c), ids_of(moving), depth(tree(c))).0
}

/// Moving to a content's place puts the moved containers back at an index that still exists.
pub open spec fn spot_fits(c: Container, data_source: Container, to_move: Seq<Item>, target_item: Option<Item>) -> bool {
    spot_of(c, target_item) matches Some(pos) ==> {
        let moving = gathered(data_source, to_move);
        spot_index(pos, moving.len() as int) <= without(c, moving).kids.len()
    }
}

/// The path to the container for `id` within `root`: `root` itself when its own item has that
/// identifier, else the first stored container that `find_mut` would find.
pub open spec fn locate(root: Container, id: u128) -> Option<Seq<int>> {
    if root.item.id == id { Some(Seq::empty()) } else { dfs_path(root, id) }
}

/// `root` itself when its own item is `target`, else the stored container for `target`.
pub fn find_container_mut(root: &mut Container, target: Item) -> (r: Option<&mut Container>)
    ensures
        match locate(*old(root), target.id) {
            Some(path) => {
                &&& r is Some
                &&& *r->0 == at_path(*old(root), path)
                &&& replaced_at(*old(root), *final(root), path, *final(r->0))
            },
            None => r is None && *final(root) == *old(root),
        },
{
    if root.get_self_item().id_equals(&target) {
        proof {
            assert(at_path(*root, Seq::<int>::empty()) == *root);
        }
        return Some(root);
    }
    if root.has_match(&target) {
        root.find_mut(&target)
    } else {
        None
    }
}

/// The total magnitude of the weights of some containers.
pub open spec fn abs_sum(s: Seq<Container>) -> int
    decreases s.len(),
{
    if s.len() == 0 { 0 } else { abs_sum(s.drop_last()) + weight_total(s.last(), true) }
}

/// The container that `find_mut` (when `dfs` is set) or `find` finds for `id` in `source`.
pub open spec fn found_in(source: Container, id: u128, dfs: bool) -> Option<Container> {
    if dfs {
        match dfs_path(source, id) {
            Some(p) => Some(at_path(source, p)),
            None => None,
        }
    } else {
        find_spec(source, id)
    }
}

/// The containers found for the items, in order (see `found_in`); items not found are skipped.
pub open spec fn gathered_by(source: Container, items: Seq<Item>, dfs: bool) -> Seq<Container>
    decreases items.len(),
{
    if items.len() == 0 {
        Seq::empty()
    } else {
        let g = gathered_by(source, items.drop_last(), dfs);
        match found_in(source, items.last().id, dfs) {
            Some(c) => g.push(c),
            None => g,
        }
    }
}

/// What offering the containers for `items`, found in `source`, in turn to a target gives. The
/// target's contents weigh `w`, its weight limit is `limit`, and it stores things when `stores`.
/// A container fits when its weight is within what the limit leaves; the target then takes it
/// when it stores things, the container is no AREA, and the container's own limit is within what
/// the limit leaves too. The result: the contents' weight afterwards, the containers that fit, the
/// containers the target took, and the items whose containers did not fit. Items not found are
/// passed over.
pub open spec fn fill(w: int, limit: int, stores: bool, source: Container, items: Seq<Item>, dfs: bool) -> (int, Seq<Container>, Seq<Container>, Seq<Item>)
    decreases items.len(),
{
    if items.len() == 0 {
        (w, Seq::empty(), Seq::empty(), Seq::empty())
    } else {
        let f = fill(w, limit, stores, source, items.drop_last(), dfs);
        match found_in(source, items.last().id, dfs) {
            None => if dfs { f } else { (f.0, f.1, f.2, f.3.push(items.last())) },
            Some(c) => {
                let wc = weight_total(c, false);
                if wc <= limit - f.0 {
                    if stores && c.container_type != ContainerType::AREA && f.0 + c.weight_limit <= limit {
                        (f.0 + wc, f.1.push(c), f.2.push(c), f.3)
                    } else {
                        (f.0, f.1.push(c), f.2, f.3)
                    }
                } else {
                    (f.0, f.1, f.2, f.3.push(items.last()))
                }
            },
        }
    }
}

/// `fill` for a target container.
pub open spec fn fill_of(t: Container, source: Container, items: Seq<Item>, dfs: bool) -> (int, Seq<Container>, Seq<Container>, Seq<Item>) {
    fill(weight_total(t, false) - t.item.weight, t.weight_limit as int, is_true(t), source, items, dfs)
}

/// `t` with the trees of `added` stored after its contents.
pub open spec fn with_added(t: Tree, added: Seq<Container>) -> Tree {
    Tree { kids: t.kids + trees_of(added), ..t }
}

/// The weights of the found containers add up along the items.
proof fn lemma_abs_sum_prefix(source: Container, items: Seq<Item>, i: int, j: int, dfs: bool)
    requires
        0 <= i <= j <= items.len(),
    ensures
        abs_sum(gathered_by(source, items.subrange(0, i), dfs)) <= abs_sum(gathered_by(source, items.subrange(0, j), dfs)),
    decreases j - i,
{
    if i < j {
        lemma_abs_sum_prefix(source, items, i, j - 1, dfs);
        let pre = items.subrange(0, j - 1);
        let next = items.subrange(0, j);
        assert(next.drop_last() =~= pre);
        match found_in(source, next.last().id, dfs) {
            Some(c) => {
                lemma_weight_bound(c);
                assert(gathered_by(source, next, dfs).drop_last() =~= gathered_by(source, pre, dfs));
            },
            None => {},
        }
    }
}

/// Offers the containers for the items, found in `source`, in turn to `target`, which stores
/// each one that fits (see `fill`). Returns copies of the containers that fit and the items
/// whose containers did not fit.
fn fill_target(target: &mut Container, source: &Container, to_move: &Vec<Item>, dfs: bool) -> (r: (Vec<Container>, Vec<Item>))
    requires
        weight_total(*old(target), true) + abs_sum(gathered_by(*source, to_move@, dfs)) <= 0x1000_0000_0000_0000,
    ensures
        tree(*final(target)) == with_added(tree(*old(target)), fill_of(*old(target), *source, to_move@, dfs).2),
        weight_total(*final(target), false) - final(target).item.weight == fill_of(*old(target), *source, to_move@, dfs).0,
        trees_of(r.0@) == trees_of(fill_of(*old(target), *source, to_move@, dfs).1),
        ids_of(r.0@) == ids_of(fill_of(*old(target), *source, to_move@, dfs).1),
        r.1@ == fill_of(*old(target), *source, to_move@, dfs).3,
{
    let ghost t0 = *target;
    let ghost w0 = weight_total(t0, false) - t0.item.weight;
    let mut moved: Vec<Container> = Vec::new();
    let mut unmoved: Vec<Item> = Vec::new();
    let mut i: usize = 0;
    proof {
        assert(tree(t0).kids + trees_of(Seq::<Container>::empty()) =~= tree(t0).kids);
        assert(to_move@.subrange(0, 0) =~= Seq::<Item>::empty());
        lemma_weight_bound(t0);
    }
    while i < to_move.len()
        invariant
            i <= to_move@.len(),
            target.item == t0.item,
            target.container_type == t0.container_type,
            target.weight_limit == t0.weight_limit,
            w0 == weight_total(t0, false) - t0.item.weight,
            weight_total(t0, true) + abs_sum(gathered_by(*source, to_move@, dfs)) <= 0x1000_0000_0000_0000,
            ({
                let f = fill(w0, t0.weight_limit as int, is_true(t0), *source, to_move@.subrange(0, i as int), dfs);
                &&& tree(*target) == with_added(tree(t0), f.2)
                &&& weight_total(*target, false) - target.item.weight == f.0
                &&& trees_of(moved@) == trees_of(f.1)
                &&& ids_of(moved@) == ids_of(f.1)
                &&& unmoved@ == f.3
            }),
            weight_total(*target, true) <= weight_total(t0, true) + abs_sum(gathered_by(*source, to_move@.subrange(0, i as int), dfs)),
        decreases to_move@.len() - i,
    {
        let ghost pre = to_move@.subrange(0, i as int);
        let ghost next = to_move@.subrange(0, i + 1);
        let ghost f = fill(w0, t0.weight_limit as int, is_true(t0), *source, pre, dfs);
        let ghost tb = *target;
        let ghost m0 = moved@;
        proof {
            assert(next.drop_last() =~= pre);
            assert(next.last() == to_move@[i as int]);
            lemma_abs_sum_prefix(*source, to_move@, i as int + 1, to_move@.len() as int, dfs);
            assert(to_move@.subrange(0, to_move@.len() as int) =~= to_move@);
            assert(trees_of(m0).len() == m0.len());
            assert(trees_of(f.1).len() == f.1.len());
            lemma_weight_bound(tb);
        }
        let found = if dfs { source.find_first(&to_move[i]) } else { source.find(&to_move[i]) };
        match found {
            Some(c) => {
                proof {
                    assert(found_in(*source, to_move@[i as int].id, dfs) == Some(*c));
                    assert(gathered_by(*source, next, dfs) == gathered_by(*source, pre, dfs).push(*c));
                    assert(gathered_by(*source, next, dfs).drop_last() =~= gathered_by(*source, pre, dfs));
                    lemma_weight_bound(*c);
                }
                if target.can_fit_container_item(c) {
                    let copy = c.clone();
                    proof {
                        lemma_weight_tree(copy, *c, true);
                        lemma_weight_tree(copy, *c, false);
                        assert(copy.weight_limit == c.weight_limit && copy.container_type == c.container_type);
                    }
                    target.add(copy);
                    let kept = c.clone();
                    moved.push(kept);
                    proof {
                        let t1 = *target;
                        let fn_ = fill(w0, t0.weight_limit as int, is_true(t0), *source, next, dfs);
                        assert(is_true(tb) == is_true(t0));
                        if t1.contents@ == tb.contents@.push(copy) {
                            lemma_kids_weight_push(tb.contents@, copy, tb.contents@.len() as int, false);
                            lemma_kids_weight_push(tb.contents@, copy, tb.contents@.len() as int, true);
                            lemma_trees(t1.contents@, t1.contents@.len() as int);
                            lemma_trees(tb.contents@, tb.contents@.len() as int);
                            assert(trees(t1.contents@, t1.contents@.len() as int) =~= trees(tb.contents@, tb.contents@.len() as int).push(tree(copy)));
                            assert(trees_of(fn_.2) =~= trees_of(f.2).push(tree(*c)));
                            assert(tree(t1).kids =~= tree(t0).kids + trees_of(fn_.2));
                        } else {
                            assert(tree(t1) == tree(tb));
                        }
                        assert(trees_of(moved@) =~= trees_of(fn_.1)) by {
                            assert forall|j: int| 0 <= j < moved@.len() implies #[trigger] trees_of(moved@)[j] == trees_of(fn_.1)[j] by {
                                if j < m0.len() {
                                    assert(moved@[j] == m0[j]);
                                    assert(trees_of(m0)[j] == trees_of(f.1)[j]);
                                    assert(fn_.1[j] == f.1[j]);
                                }
                            }
                        }
                        assert(ids_of(moved@) =~= ids_of(fn_.1)) by {
                            assert(ids_of(moved@) =~= ids_of(m0).push(kept.item.id));
                            assert(tree(kept) == tree(*c));
                        }
                        assert(tree(t1) == with_added(tree(t0), fn_.2));
                        assert(weight_total(t1, false) - t1.item.weight == fn_.0);
                        assert(unmoved@ == fn_.3);
                    }
                } else {
                    unmoved.push(to_move[i].clone());
                    proof {
                        let fn_ = fill(w0, t0.weight_limit as int, is_true(t0), *source, next, dfs);
                        assert(fn_ == (f.0, f.1, f.2, f.3.push(to_move@[i as int])));
                        assert(tree(*target) == with_added(tree(t0), fn_.2));
                        assert(unmoved@ == fn_.3);
                    }
                }
            },
            None => {
                if !dfs {
                    unmoved.push(to_move[i].clone());
                }
                proof {
                    assert(found_in(*source, to_move@[i as int].id, dfs) is None);
                    assert(gathered_by(*source, next, dfs) == gathered_by(*source, pre, dfs));
                    let fn_ = fill(w0, t0.weight_limit as int, is_true(t0), *source, next, dfs);
                    assert(dfs ==> fn_ == f);
                    assert(!dfs ==> fn_ == (f.0, f.1, f.2, f.3.push(to_move@[i as int])));
                }
            },
        }
        i += 1;
    }
    proof {
        assert(to_move@.subrange(0, to_move@.len() as int) =~= to_move@);
    }
    (moved, unmoved)
}

/// What `move_to_container` does to `root` (`before`, then `after`) and answers (`r`).
pub open spec fn container_move(before: Container, after: Container, source: Item, data: MoveItemsData, r: Option<ContainerFrameHandlerInputResult>) -> bool {
    match data.target_container {
        None => r is None && after == before,
        Some(t) => match locate(before, t.item.id) {
            None => r is None && after == before,
            Some(tp) => {
                let t0 = at_path(before, tp);
                let f = fill_of(t0, data.source, data.to_move@, true);
                exists|t1: Container, mid: Container| {
                    &&& replaced_at(before, mid, tp, t1)
                    &&& tree(t1) == with_added(tree(t0), f.2)
                    &&& if f.1.len() == 0 && f.3.len() == 0 {
                        r is None && after == mid
                    } else {
                        match locate(mid, source.id) {
                            None => r is None && after == mid,
                            Some(sp) => exists|s1: Container| {
                                &&& replaced_at(mid, after, sp, s1)
                                &&& tree(s1) == without(at_path(mid, sp), f.1)
                                &&& r matches Some(ContainerFrameHandlerInputResult::MoveItems(d)) && {
                                    &&& tree(d.source) == tree(s1)
                                    &&& d.to_move@ == f.3
                                    &&& d.target_container matches Some(tc) && tree(tc) == tree(t1)
                                    &&& d.target_item is None
                                    &&& d.position == data.position
                                }
                            },
                        }
                    }
                }
            },
        },
    }
}

/// What `move_to_item_spot` does to a container (`before`, then `after`) and answers (`r`).
pub open spec fn spot_move(before: Container, after: Container, data: MoveItemsData, r: Option<ContainerFrameHandlerInputResult>) -> bool {
    match spot_of(before, data.target_item) {
        None => r is None && after == before,
        Some(pos) => {
            let moving = gathered(data.source, data.to_move@);
            &&& tree(after) == placed_at(without(before, moving), spot_index(pos, moving.len() as int), trees_of(moving))
            &&& r matches Some(ContainerFrameHandlerInputResult::MoveItems(d)) && {
                &&& tree(d.source) == tree(after)
                &&& d.to_move@ == left_behind(data.source, data.to_move@)
                &&& d.target_container is None
                &&& d.target_item == data.target_item
                &&& d.position == data.position
            }
        },
    }
}

/// What `move_to_container` needs: the target's weight and the weight of what is offered to it
/// stay within the range the weights are computed in.
pub open spec fn container_move_fits(root: Container, data: MoveItemsData) -> bool {
    data.target_container matches Some(t) && locate(root, t.item.id) matches Some(tp) ==>
        weight_total(at_path(root, tp), true) + abs_sum(gathered_by(data.source, data.to_move@, true)) <= 0x1000_0000_0000_0000
}

/// Moves the items of `data.to_move`, found in `data.source`, into the container
/// `data.target_container` stored in `root` (or `root` itself): each found container that fits
/// is offered to the target (see `fill`), then the containers that fit are taken out of the
/// container for `source` in `root`, wherever they are stored there. The answer carries that
/// container as it ends, the items whose containers did not fit, and the target as it ends.
/// Nothing is answered when there is no target, the target or the source is not in `root`, or
/// no item was found in `data.source`.
fn move_to_container(root: &mut Container, source: Item, data: MoveItemsData) -> (r: Option<ContainerFrameHandlerInputResult>)
    requires
        container_move_fits(*old(root), data),
    ensures
        container_move(*old(root), *final(root), source, data, r),
{
    let target_item = match &data.target_container {
        Some(t) => t.get_self_item().clone(),
        None => {
            return None;
        },
    };
    let ghost root0 = *root;
    match find_container_mut(root, target_item) {
        Some(target) => {
            let ghost tp = locate(root0, target_item.id)->0;
            let (moved, unmoved) = fill_target(target, &data.source, &data.to_move, true);
            let updated_target = target.clone();
            let ghost t1 = *target;
            let ghost root1 = *root;
            proof {
                assert(replaced_at(root0, root1, tp, t1));
                assert(moved@.len() == trees_of(moved@).len());
                assert(trees_of(fill_of(at_path(root0, tp), data.source, data.to_move@, true).1).len()
                    == fill_of(at_path(root0, tp), data.source, data.to_move@, true).1.len());
            }
            if moved.len() > 0 || unmoved.len() > 0 {
                match find_container_mut(root, source) {
                    Some(source_container) => {
                        let ghost sp = locate(root1, source.id)->0;
                        source_container.remove_matching_items(moved);
                        let result_source = source_container.clone();
                        let ghost s1 = *source_container;
                        proof {
                            assert(replaced_at(root1, *root, sp, s1));
                        }
                        Some(ContainerFrameHandlerInputResult::MoveItems(MoveItemsData {
                            source: result_source,
                            to_move: unmoved,
                            target_container: Some(updated_target),
                            target_item: None,
                            position: data.position,
                        }))
                    },
                    None => None,
                }
            } else {
                None
            }
        },
        None => None,
    }
}

/// Looks up, in `data.source`, the containers for the items to move, in order: those found and
/// the items not found.
fn gather(source: &Container, to_move: &Vec<Item>) -> (r: (Vec<Container>, Vec<Item>))
    ensures
        trees_of(r.0@) == trees_of(gathered(*source, to_move@)),
        ids_of(r.0@) == ids_of(gathered(*source, to_move@)),
        r.1@ == left_behind(*source, to_move@),
{
    let mut moving: Vec<Container> = Vec::new();
    let mut unmoved: Vec<Item> = Vec::new();
    let mut i: usize = 0;
    while i < to_move.len()
        invariant
            i <= to_move@.len(),
            trees_of(moving@) == trees_of(gathered(*source, to_move@.subrange(0, i as int))),
            ids_of(moving@) == ids_of(gathered(*source, to_move@.subrange(0, i as int))),
            unmoved@ == left_behind(*source, to_move@.subrange(0, i as int)),
        decreases to_move@.len() - i,
    {
        let ghost pre = to_move@.subrange(0, i as int);
        let ghost next = to_move@.subrange(0, i + 1);
        proof {
            assert(next.drop_last() =~= pre);
            assert(next.last() == to_move@[i as int]);
        }
        let ghost m0 = moving@;
        proof {
            assert(trees_of(m0).len() == m0.len());
            assert(trees_of(gathered(*source, pre)).len() == gathered(*source, pre).len());
        }
        match source.find_first(&to_move[i]) {
            Some(c) => {
                moving.push(c.clone());
                proof {
                    let g = gathered(*source, next);
                    let path = dfs_path(*source, to_move@[i as int].id)->0;
                    assert(g == gathered(*source, pre).push(at_path(*source, path)));
                    assert(tree(moving@.last()) == tree(*c));
                    assert forall|j: int| 0 <= j < moving@.len() implies #[trigger] trees_of(moving@)[j] == trees_of(g)[j] by {
                        if j < m0.len() {
                            assert(moving@[j] == m0[j]);
                            assert(trees_of(m0)[j] == trees_of(gathered(*source, pre))[j]);
                            assert(g[j] == gathered(*source, pre)[j]);
                        }
                    }
                    assert(trees_of(moving@) =~= trees_of(g));
                    assert(ids_of(moving@) =~= ids_of(g)) by {
                        assert(ids_of(moving@) =~= ids_of(m0).push(moving@.last().item.id));
                        assert(tree(moving@.last()) == tree(g.last()));
                        assert(moving@.last().item == g.last().item);
                    }
                }
            },
            None => {
                unmoved.push(to_move[i].clone());
                proof {
                    assert(gathered(*source, next) == gathered(*source, pre));
                    assert(left_behind(*source, next) == left_behind(*source, pre).push(to_move@[i as int]));
                }
            },
        }
        i += 1;
    }
    proof {
        assert(to_move@.subrange(0, to_move@.len() as int) =~= to_move@);
    }
    (moving, unmoved)
}

/// Moves the items of `data.to_move`, found in `data.source`, to the place of the content
/// `data.target_item` of `source_container`: the moved containers are taken out of
/// `source_container` wherever they are stored and put back in, in order, before the target's
/// index less their number (or the target's index, when it is smaller than their number). The
/// answer carries the container as it ends, the items not found, and the same target. Nothing
/// happens, and nothing is answered, when there is no target item or it is not a content.
pub fn move_to_item_spot(source_container: &mut Container, data: MoveItemsData) -> (r: Option<ContainerFrameHandlerInputResult>)
    requires
        spot_fits(*old(source_container), data.source, data.to_move@, data.target_item),
    ensures
        spot_move(*old(source_container), *final(source_container), data, r),
{
    let ghost c0 = *source_container;
    match data.target_item {
        Some(target_item) => {
            match source_container.item_position(&target_item) {
                Some(pos) => {
                    let (moving, unmoved) = gather(&data.source, &data.to_move);
                    let ghost g = gathered(data.source, data.to_move@);
                    proof {
                        assert(moving@.len() == trees_of(moving@).len());
                        assert(g.len() == trees_of(g).len());
                    }
                    let to_remove = clone_all(&moving);
                    source_container.remove_matching_items(to_remove);
                    let ghost c1 = *source_container;
                    let target_pos = if pos >= moving.len() { pos - moving.len() } else { pos };
                    proof {
                        lemma_trees(c1.contents@, c1.contents@.len() as int);
                    }
                    let ghost mv = moving@;
                    source_container.insert(target_pos, moving);
                    proof {
                        let c2 = *source_container;
                        let t1 = without(c0, g);
                        assert(tree(c1) == t1);
                        lemma_trees(c2.contents@, c2.contents@.len() as int);
                        let expected = placed_at(t1, target_pos as int, trees_of(g));
                        assert(trees_of(mv) == trees_of(g));
                        assert forall|j: int| 0 <= j < c2.contents@.len() implies
                            #[trigger] trees(c2.contents@, c2.contents@.len() as int)[j] == expected.kids[j] by {
                            if j < target_pos {
                                assert(c2.contents@[j] == c1.contents@[j]);
                            } else if j < target_pos + mv.len() {
                                assert(c2.contents@[j] == mv[j - target_pos]);
                                assert(trees_of(mv)[j - target_pos] == tree(mv[j - target_pos]));
                            } else {
                                assert(c2.contents@[j] == c1.contents@[j - mv.len()]);
                            }
                        }
                        assert(trees(c2.contents@, c2.contents@.len() as int) =~= expected.kids);
                        assert(tree(c2) == expected);
                    }
                    let result_source = source_container.clone();
                    Some(ContainerFrameHandlerInputResult::MoveItems(MoveItemsData {
                        source: result_source,
                        to_move: unmoved,
                        target_container: None,
                        target_item: Some(target_item),
                        position: data.position,
                    }))
                },
                None => None,
            }
        },
        None => None,
    }
}

/// What moving items within the player's inventory `inv` needs: the weights stay in range for a
/// move into a container, and the moved items fit back in for a move to a content's place.
pub open spec fn player_move_fits(inv: Container, data: MoveItemsData) -> bool {
    locate(inv, data.source.item.id) matches Some(sp) ==> {
        let s0 = at_path(inv, sp);
        &&& data.target_container is Some ==> container_move_fits(s0, data)
        &&& data.target_container is None ==> spot_fits(s0, data.source, data.to_move@, data.target_item)
    }
}

/// What `move_player_items` does to the player's inventory (`before`, then `after`) and answers.
pub open spec fn player_move(before: Container, after: Container, data: MoveItemsData, r: Option<ContainerFrameHandlerInputResult>) -> bool {
    match locate(before, data.source.item.id) {
        None => r is None && after == before,
        Some(sp) => {
            let s0 = at_path(before, sp);
            exists|s1: Container| {
                &&& replaced_at(before, after, sp, s1)
                &&& if data.target_container is Some {
                    container_move(s0, s1, s0.item, data, r)
                } else if data.target_item is Some {
                    spot_move(s0, s1, data, r)
                } else {
                    r is None && s1 == s0
                }
            }
        },
    }
}

/// Moves items between the containers of the player's inventory: `data.source` is the
/// inventory itself or a container stored in it; with a target container the items move into
/// it (`move_to_container`), with a target item they move to its place (`move_to_item_spot`).
/// Items in the world (a request with a position) are not moved here, and nothing is answered.
pub fn move_player_items(data: MoveItemsData, level: &mut Level) -> (r: Option<ContainerFrameHandlerInputResult>)
    requires
        old(level).characters.player() is Some,
        data.position is None ==> player_move_fits(old(level).characters.player()->0.inventory, data),
    ensures
        final(level).map == old(level).map,
        data.position is Some ==> r is None && *final(level) == *old(level),
        data.position is None ==> {
            let p0 = old(level).characters.player()->0;
            exists|inv: Container| {
                &&& final(level).characters == old(level).characters.with_player(Some(Character { inventory: inv, ..p0 }))
                &&& player_move(p0.inventory, inv, data, r)
            }
        },
{
    if data.position.is_some() {
        return None;
    }
    let ghost l0 = *level;
    let ghost d0 = data;
    let player = level.characters.get_player_mut().unwrap();
    let ghost p0 = *player;
    let inventory = player.get_inventory_mut();
    let ghost inv0 = *inventory;
    let source_item = data.source.get_self_item().clone();
    match find_container_mut(inventory, source_item) {
        Some(s) => {
            let ghost s0 = *s;
            let ghost sp = locate(inv0, data.source.item.id)->0;
            let r = if data.target_container.is_some() {
                let item = s.get_self_item().clone();
                move_to_container(s, item, data)
            } else if data.target_item.is_some() {
                move_to_item_spot(s, data)
            } else {
                None
            };
            let ghost s1 = *s;
            let ghost inv1 = *inventory;
            proof {
                assert(replaced_at(inv0, inv1, sp, s1));
                assert(player_move(inv0, inv1, d0, r));
            }
            let ghost p1 = *player;
            proof {
                assert(p1 == Character { inventory: inv1, ..p0 });
            }
            proof {
                assert(level.characters == l0.characters.with_player(Some(Character { inventory: inv1, ..p0 })));
            }
            r
        },
        None => {
            let ghost inv1 = *inventory;
            proof {
                assert(player_move(inv0, inv1, d0, None));
            }
            proof {
                assert(level.characters == l0.characters.with_player(Some(Character { inventory: inv1, ..p0 })));
            }
            None
        },
    }
}

/// The map `after` is the map `before` with its containers' list changed to `cs`.
pub open spec fn map_with_containers(before: GameMap, after: GameMap, cs: Seq<(Position, Container)>) -> bool {
    &&& after.area == before.area
    &&& after.tiles == before.tiles
    &&& after.rooms == before.rooms
    &&& after.containers@ == cs
}

/// Changing one world container in place, at its position, keeps the map's containers at
/// distinct positions: so do the moves, takes and drops that change a map only that way.
pub proof fn lemma_world_change_keeps_unique(before: GameMap, after: GameMap, i: int, c: Container)
    requires
        positions_unique(before.containers@),
        0 <= i < before.containers@.len(),
        map_with_containers(before, after, before.containers@.update(i, (before.containers@[i].0, c))),
    ensures
        positions_unique(after.containers@),
{
    lemma_replace_keeps_unique(before.containers@, i);
}

/// Where a move within a world container takes place: the path, within the container at
/// index `i` of the map's list, to the container for `data.source`.
pub open spec fn world_source(m: GameMap, data: MoveItemsData) -> Option<(int, Seq<int>)> {
    match data.position {
        None => None,
        Some(pos) => world_at(m, pos, data.source.item.id),
    }
}

/// The path, within the first container lying at `pos` (at index `i` of the map's list), to the
/// container for `id` (see `locate`).
pub open spec fn world_at(m: GameMap, pos: Position, id: u128) -> Option<(int, Seq<int>)> {
    match first_at(m.containers@, pos, 0) {
        None => None,
        Some(i) => match locate(m.containers@[i].1, id) {
            None => None,
            Some(path) => Some((i, path)),
        },
    }
}

/// What a move within a world container needs (see `container_move_fits` and `spot_fits`).
pub open spec fn world_move_fits(map: Option<GameMap>, data: MoveItemsData) -> bool {
    map matches Some(m) && world_source(m, data) matches Some(w) ==> {
        let s0 = at_path(m.containers@[w.0].1, w.1);
        &&& data.target_container is Some ==> container_move_fits(s0, data)
        &&& data.target_container is None ==> spot_fits(s0, data.source, data.to_move@, data.target_item)
    }
}

/// What `move_items` does to the level's map (`before`, then `after`) and answers.
pub open spec fn world_move(before: Option<GameMap>, after: Option<GameMap>, data: MoveItemsData, r: Option<ContainerFrameHandlerInputResult>) -> bool {
    if data.target_container is None && data.target_item is None {
        r is None && after == before
    } else {
        match before {
            None => r is None && after is None,
            Some(m0) => match world_source(m0, data) {
                None => r is None && (after matches Some(m1) && map_with_containers(m0, m1, m0.containers@)),
                Some(w) => {
                    let c0 = m0.containers@[w.0].1;
                    let s0 = at_path(c0, w.1);
                    exists|s1: Container, c1: Container| {
                        &&& replaced_at(c0, c1, w.1, s1)
                        &&& (after matches Some(m1) && map_with_containers(m0, m1, m0.containers@.update(w.0, (m0.containers@[w.0].0, c1))))
                        &&& if data.target_container is Some {
                            container_move(s0, s1, data.source.item, data, r)
                        } else {
                            spot_move(s0, s1, data, r)
                        }
                    }
                },
            },
        }
    }
}

/// Moves items within a container lying in the world, at `data.position`: into a target
/// container stored there (`move_to_container`) or to the place of one of its contents
/// (`move_to_item_spot`). Nothing happens, and nothing is answered, without a target, without
/// a position, without a map, or when the source is not among the containers lying there.
pub fn move_items(data: MoveItemsData, level: &mut Level) -> (r: Option<ContainerFrameHandlerInputResult>)
    requires
        world_move_fits(old(level).map, data),
    ensures
        final(level).characters == old(level).characters,
        world_move(old(level).map, final(level).map, data, r),
{
    if data.target_container.is_none() && data.target_item.is_none() {
        return None;
    }
    let ghost d0 = data;
    let position = match data.position {
        Some(p) => p,
        None => {
            proof {
                assert(level.map matches Some(m) ==> world_source(m, d0) is None);
            }
            return None;
        },
    };
    match level.get_map_mut() {
        Some(map) => {
            let ghost m0 = *map;
            match map.find_container(&data.source, position) {
                Some(source_container) => {
                    let ghost i = first_at(m0.containers@, position, 0)->0;
                    proof {
                        lemma_first_at(m0.containers@, position, 0);
                    }
                    let ghost path = locate(m0.containers@[i].1, d0.source.item.id)->0;
                    let ghost s0 = *source_container;
                    let r = if data.target_container.is_some() {
                        let item = data.source.get_self_item().clone();
                        move_to_container(source_container, item, data)
                    } else {
                        let found = match &data.target_item {
                            Some(t) => source_container.item_position(t).is_some(),
                            None => false,
                        };
                        if found {
                            move_to_item_spot(source_container, data)
                        } else {
                            None
                        }
                    };
                    let ghost s1 = *source_container;
                    let ghost m1 = *map;
                    proof {
                        assert(world_source(m0, d0) == Some((i, path)));
                        let c0 = m0.containers@[i].1;
                        let c1 = choose|c1: Container| replaced_at(c0, c1, path, s1)
                            && m1.containers@ == m0.containers@.update(i, (position, c1));
                        assert(m0.containers@[i].0 == position);
                        assert(map_with_containers(m0, m1, m0.containers@.update(i, (m0.containers@[i].0, c1))));
                        assert(world_move(Some(m0), Some(m1), d0, r));
                    }
                    r
                },
                None => {
                    let ghost m1 = *map;
                    proof {
                        assert(world_source(m0, d0) is None);
                        assert(map_with_containers(m0, m1, m0.containers@));
                    }
                    None
                },
            }
        },
        None => None,
    }
}

/// What taking items out of a container lying in the world needs: the weights stay in range.
pub open spec fn take_fits(l: Level, data: TakeItemsData) -> bool {
    &&& l.characters.player() is Some
    &&& data.position is Some && data.to_take@.len() > 0 ==> l.map is Some
    &&& data.position is Some ==>
        weight_total(l.characters.player()->0.inventory, true) + abs_sum(gathered_by(data.source, data.to_take@, false))
            <= 0x1000_0000_0000_0000
}

/// What taking items does to the map (`before`, then `after`): the containers taken (`taken`)
/// leave the container for `source` lying at `pos`, wherever they are stored in it.
pub open spec fn taken_from_world(before: Option<GameMap>, after: Option<GameMap>, pos: Position, source: Container, taken: Seq<Container>) -> bool {
    match before {
        None => after is None,
        Some(m0) => match world_at(m0, pos, source.item.id) {
            None => after matches Some(m1) && map_with_containers(m0, m1, m0.containers@),
            Some(w) => {
                let c0 = m0.containers@[w.0].1;
                exists|s1: Container, c1: Container| {
                    &&& replaced_at(c0, c1, w.1, s1)
                    &&& tree(s1) == without(at_path(c0, w.1), taken)
                    &&& (after matches Some(m1) && map_with_containers(m0, m1, m0.containers@.update(w.0, (m0.containers@[w.0].0, c1))))
                }
            },
        },
    }
}

/// What `take_items` does to the level (`before`, then `after`) and answers (`r`).
pub open spec fn take_result(before: Level, after: Level, data: TakeItemsData, r: Option<ContainerFrameHandlerInputResult>) -> bool {
    &&& data.position is None ==> r is None && after == before
    &&& data.position matches Some(pos) ==> {
            let p0 = before.characters.player()->0;
            let f = fill_of(p0.inventory, data.source, data.to_take@, false);
            exists|inv: Container| {
                &&& tree(inv) == with_added(tree(p0.inventory), f.2)
                &&& after.characters == before.characters.with_player(Some(Character { inventory: inv, ..p0 }))
                &&& r matches Some(ContainerFrameHandlerInputResult::TakeItems(d)) && {
                    &&& tree(d.source) == tree(data.source)
                    &&& d.to_take@ == f.3
                    &&& d.position == data.position
                }
                &&& if f.1.len() == 0 && f.3.len() == 0 {
                    after.map == before.map
                } else {
                    taken_from_world(before.map, after.map, pos, data.source, f.1)
                }
            }
        }
}

/// Takes items from the container `data.source` lying in the world at `data.position` into the
/// player's inventory: each item is looked up in `data.source` as `find` does, and its container
/// is offered to the inventory (see `fill`); the containers that fit then leave the container
/// lying there. The answer carries the source and the items that were not taken (not found, or
/// not fitting). Nothing happens, and nothing is answered, without a position.
pub fn take_items(data: TakeItemsData, level: &mut Level) -> (r: Option<ContainerFrameHandlerInputResult>)
    requires
        take_fits(*old(level), data),
    ensures
        take_result(*old(level), *final(level), data, r),
{
    let ghost l0 = *level;
    let position = match data.position {
        Some(p) => p,
        None => {
            return None;
        },
    };
    let ghost p0 = l0.characters.player()->0;
    let player = level.characters.get_player_mut().unwrap();
    let inventory = player.get_inventory_mut();
    let (taken, untaken) = fill_target(inventory, &data.source, &data.to_take, false);
    let ghost inv1 = *inventory;
    proof {
        assert(level.characters == l0.characters.with_player(Some(Character { inventory: inv1, ..p0 })));
        assert(taken@.len() == trees_of(taken@).len());
        assert(trees_of(fill_of(p0.inventory, data.source, data.to_take@, false).1).len()
            == fill_of(p0.inventory, data.source, data.to_take@, false).1.len());
        lemma_fill_len(weight_total(p0.inventory, false) - p0.inventory.item.weight, p0.inventory.weight_limit as int,
            is_true(p0.inventory), data.source, data.to_take@);
    }
    if taken.len() > 0 || untaken.len() > 0 {
        let map = level.get_map_mut().unwrap();
        let ghost m0 = *map;
        match map.find_container(&data.source, position) {
            Some(source_container) => {
                let ghost w = world_at(m0, position, data.source.item.id)->0;
                proof {
                    lemma_first_at(m0.containers@, position, 0);
                }
                source_container.remove_matching_items(taken);
                let ghost s1 = *source_container;
                let ghost m1 = *map;
                proof {
                    let c0 = m0.containers@[w.0].1;
                    let c1 = choose|c1: Container| replaced_at(c0, c1, w.1, s1)
                        && m1.containers@ == m0.containers@.update(w.0, (position, c1));
                    assert(map_with_containers(m0, m1, m0.containers@.update(w.0, (m0.containers@[w.0].0, c1))));
                }
            },
            None => {
                let ghost m1 = *map;
                proof {
                    assert(map_with_containers(m0, m1, m0.containers@));
                }
            },
        }
    }
    let source = data.source.clone();
    Some(ContainerFrameHandlerInputResult::TakeItems(TakeItemsData { source, to_take: untaken, position: Some(position) }))
}

/// With the items looked up as `find` does, every item is either taken or not, so nothing is
/// taken and nothing left only when there were no items.
proof fn lemma_fill_len(w: int, limit: int, stores: bool, source: Container, items: Seq<Item>)
    ensures
        fill(w, limit, stores, source, items, false).1.len() + fill(w, limit, stores, source, items, false).3.len() == items.len(),
    decreases items.len(),
{
    if items.len() > 0 {
        lemma_fill_len(w, limit, stores, source, items.drop_last());
    }
}

/// Answers a request of the view of a container lying in the world at `position`: taking items
/// (`take_items`) or moving items (`move_items`), with the request's position set to
/// `position`. Other requests are not answered.
pub fn handle_callback(level: &mut Level, position: Position, data: ContainerFrameHandlerInputResult) -> (r: Option<ContainerFrameHandlerInputResult>)
    requires
        data matches ContainerFrameHandlerInputResult::TakeItems(d)
            ==> take_fits(*old(level), TakeItemsData { position: Some(position), ..d }),
        data matches ContainerFrameHandlerInputResult::MoveItems(d)
            ==> world_move_fits(old(level).map, MoveItemsData { position: Some(position), ..d }),
    ensures
        match data {
            ContainerFrameHandlerInputResult::TakeItems(d) =>
                take_result(*old(level), *final(level), TakeItemsData { position: Some(position), ..d }, r),
            ContainerFrameHandlerInputResult::MoveItems(d) => {
                &&& final(level).characters == old(level).characters
                &&& world_move(old(level).map, final(level).map, MoveItemsData { position: Some(position), ..d }, r)
            },
            ContainerFrameHandlerInputResult::DropItems(_) => r is None && *final(level) == *old(level),
        },
{
    match data {
        ContainerFrameHandlerInputResult::TakeItems(d) => {
            let mut d = d;
            d.position = Some(position);
            take_items(d, level)
        },
        ContainerFrameHandlerInputResult::MoveItems(d) => {
            let mut d = d;
            d.position = Some(position);
            move_items(d, level)
        },
        ContainerFrameHandlerInputResult::DropItems(_) => None,
    }
}

/// A container with its own item unequipped.
pub open spec fn unequipped(c: Container) -> Container {
    Container { item: Item { equipment_slot: None, ..c.item }, ..c }
}

/// What offering the containers for `items`, found in `source` as `find_mut` finds them and
/// unequipped, in turn to a target gives (see `fill`): the contents' weight afterwards, the
/// containers the target took, and the items whose containers did not fit. Items not found are
/// passed over.
pub open spec fn drop_fill(w: int, limit: int, stores: bool, source: Container, items: Seq<Item>) -> (int, Seq<Container>, Seq<Item>)
    decreases items.len(),
{
    if items.len() == 0 {
        (w, Seq::empty(), Seq::empty())
    } else {
        let f = drop_fill(w, limit, stores, source, items.drop_last());
        match dfs_path(source, items.last().id) {
            None => f,
            Some(p) => {
                let c = unequipped(at_path(source, p));
                let wc = weight_total(c, false);
                if wc <= limit - f.0 {
                    if stores && c.container_type != ContainerType::AREA && f.0 + c.weight_limit <= limit {
                        (f.0 + wc, f.1.push(c), f.2)
                    } else {
                        f
                    }
                } else {
                    (f.0, f.1, f.2.push(items.last()))
                }
            },
        }
    }
}

/// `drop_fill` for a target container.
pub open spec fn drop_fill_of(t: Container, source: Container, items: Seq<Item>) -> (int, Seq<Container>, Seq<Item>) {
    drop_fill(weight_total(t, false) - t.item.weight, t.weight_limit as int, is_true(t), source, items)
}

/// Offers unequipped copies of the containers for the items, found in `source`, in turn to
/// `target`, which stores each one that fits (see `drop_fill`); returns the items whose
/// containers did not fit.
fn drop_into(target: &mut Container, source: &Container, items: &Vec<Item>) -> (undropped: Vec<Item>)
    requires
        weight_total(*old(target), true) + abs_sum(gathered_by(*source, items@, true)) <= 0x1000_0000_0000_0000,
    ensures
        tree(*final(target)) == with_added(tree(*old(target)), drop_fill_of(*old(target), *source, items@).1),
        undropped@ == drop_fill_of(*old(target), *source, items@).2,
{
    let ghost t0 = *target;
    let ghost w0 = weight_total(t0, false) - t0.item.weight;
    let mut undropped: Vec<Item> = Vec::new();
    let mut i: usize = 0;
    proof {
        assert(tree(t0).kids + trees_of(Seq::<Container>::empty()) =~= tree(t0).kids);
        assert(items@.subrange(0, 0) =~= Seq::<Item>::empty());
        lemma_weight_bound(t0);
    }
    while i < items.len()
        invariant
            i <= items@.len(),
            target.item == t0.item,
            target.container_type == t0.container_type,
            target.weight_limit == t0.weight_limit,
            w0 == weight_total(t0, false) - t0.item.weight,
            weight_total(t0, true) + abs_sum(gathered_by(*source, items@, true)) <= 0x1000_0000_0000_0000,
            ({
                let f = drop_fill(w0, t0.weight_limit as int, is_true(t0), *source, items@.subrange(0, i as int));
                &&& tree(*target) == with_added(tree(t0), f.1)
                &&& weight_total(*target, false) - target.item.weight == f.0
                &&& undropped@ == f.2
            }),
            weight_total(*target, true) <= weight_total(t0, true) + abs_sum(gathered_by(*source, items@.subrange(0, i as int), true)),
        decreases items@.len() - i,
    {
        let ghost pre = items@.subrange(0, i as int);
        let ghost next = items@.subrange(0, i + 1);
        let ghost f = drop_fill(w0, t0.weight_limit as int, is_true(t0), *source, pre);
        let ghost tb = *target;
        proof {
            assert(next.drop_last() =~= pre);
            assert(next.last() == items@[i as int]);
            lemma_abs_sum_prefix(*source, items@, i as int + 1, items@.len() as int, true);
            assert(items@.subrange(0, items@.len() as int) =~= items@);
            lemma_weight_bound(tb);
        }
        match source.find_first(&items[i]) {
            Some(c) => {
                proof {
                    assert(found_in(*source, items@[i as int].id, true) == Some(*c));
                    assert(gathered_by(*source, next, true) == gathered_by(*source, pre, true).push(*c));
                    assert(gathered_by(*source, next, true).drop_last() =~= gathered_by(*source, pre, true));
                    lemma_weight_bound(*c);
                }
                let mut dropping = c.clone();
                dropping.item.unequip();
                proof {
                    let u = unequipped(*c);
                    assert(tree(dropping) == tree(u));
                    lemma_weight_tree(dropping, u, true);
                    lemma_weight_tree(dropping, u, false);
                    assert(weight_total(u, true) == weight_total(*c, true));
                    assert(weight_total(u, false) == weight_total(*c, false));
                }
                if target.can_fit_container_item(&dropping) {
                    let ghost d = dropping;
                    target.add(dropping);
                    proof {
                        let t1 = *target;
                        let fn_ = drop_fill(w0, t0.weight_limit as int, is_true(t0), *source, next);
                        if t1.contents@ == tb.contents@.push(d) {
                            lemma_kids_weight_push(tb.contents@, d, tb.contents@.len() as int, false);
                            lemma_kids_weight_push(tb.contents@, d, tb.contents@.len() as int, true);
                            lemma_trees(t1.contents@, t1.contents@.len() as int);
                            lemma_trees(tb.contents@, tb.contents@.len() as int);
                            assert(trees(t1.contents@, t1.contents@.len() as int) =~= trees(tb.contents@, tb.contents@.len() as int).push(tree(d)));
                            assert(trees_of(fn_.1) =~= trees_of(f.1).push(tree(unequipped(*c))));
                            assert(tree(t1).kids =~= tree(t0).kids + trees_of(fn_.1));
                        } else {
                            assert(tree(t1) == tree(tb));
                        }
                        assert(tree(t1) == with_added(tree(t0), fn_.1));
                        assert(weight_total(t1, false) - t1.item.weight == fn_.0);
                        assert(undropped@ == fn_.2);
                    }
                } else {
                    undropped.push(items[i].clone());
                    proof {
                        let fn_ = drop_fill(w0, t0.weight_limit as int, is_true(t0), *source, next);
                        assert(fn_ == (f.0, f.1, f.2.push(items@[i as int])));
                    }
                }
            },
            None => {
                proof {
                    assert(found_in(*source, items@[i as int].id, true) is None);
                    assert(gathered_by(*source, next, true) == gathered_by(*source, pre, true));
                    assert(drop_fill(w0, t0.weight_limit as int, is_true(t0), *source, next) == f);
                }
            },
        }
        i += 1;
    }
    proof {
        assert(items@.subrange(0, items@.len() as int) =~= items@);
    }
    undropped
}

/// What dropping items needs: the weights at the player's position stay in range.
pub open spec fn drop_fits(l: Level, container: Container, items: Seq<Item>) -> bool {
    &&& l.characters.player() is Some
    &&& l.map matches Some(m) && first_at(m.containers@, l.characters.player()->0.position, 0) matches Some(i) ==>
        weight_total(m.containers@[i].1, true) + abs_sum(gathered_by(container, items, true)) <= 0x1000_0000_0000_0000
}

/// What `drop_items` does to the level (`before`, then `after`) and answers (`r`).
pub open spec fn drop_result(before: Level, after: Level, container: Container, items: Seq<Item>, r: Option<ContainerFrameHandlerInputResult>) -> bool {
    &&& after.characters == before.characters
    &&& match before.map {
        Some(m0) => match first_at(m0.containers@, before.characters.player()->0.position, 0) {
            Some(i) => {
                let c0 = m0.containers@[i].1;
                let f = drop_fill_of(c0, container, items);
                &&& r matches Some(ContainerFrameHandlerInputResult::DropItems(u)) && u@ == f.2
                &&& exists|c1: Container| {
                    &&& tree(c1) == with_added(tree(c0), f.1)
                    &&& (after.map matches Some(m1) && map_with_containers(m0, m1, m0.containers@.update(i, (m0.containers@[i].0, c1))))
                }
            },
            None => {
                &&& r matches Some(ContainerFrameHandlerInputResult::DropItems(u)) && u@.len() == 0
                &&& (after.map matches Some(m1) && map_with_containers(m0, m1, m0.containers@))
            },
        },
        None => {
            &&& r matches Some(ContainerFrameHandlerInputResult::DropItems(u)) && u@.len() == 0
            &&& after.map is None
        },
    }
}

/// Drops items of `container` (the inventory on view) at the player's position: unequipped
/// copies of their containers, found in `container`, are offered in turn to the first container
/// lying there (see `drop_fill`). Answers the items whose containers did not fit; with no
/// container lying there (or no map) nothing is dropped and every item counts as dropped.
pub fn drop_items(items: Vec<Item>, level: &mut Level, container: &Container) -> (r: Option<ContainerFrameHandlerInputResult>)
    requires
        drop_fits(*old(level), *container, items@),
    ensures
        drop_result(*old(level), *final(level), *container, items@, r),
{
    let ghost l0 = *level;
    let position = level.characters.get_player().unwrap().get_position();
    let mut undropped: Vec<Item> = Vec::new();
    match level.get_map_mut() {
        Some(m) => {
            let ghost m0 = *m;
            proof {
                lemma_first_at(m0.containers@, position, 0);
            }
            match m.find_container_mut(position) {
                Some(pos_container) => {
                    undropped = drop_into(pos_container, container, &items);
                    let ghost c1 = *pos_container;
                    let ghost m1 = *m;
                    proof {
                        let i = first_at(m0.containers@, position, 0)->0;
                        assert(m0.containers@[i].0 == position);
                        assert(map_with_containers(m0, m1, m0.containers@.update(i, (m0.containers@[i].0, c1))));
                    }
                },
                None => {
                    let ghost m1 = *m;
                    proof {
                        assert(map_with_containers(m0, m1, m0.containers@));
                    }
                },
            }
        },
        None => {},
    }
    Some(ContainerFrameHandlerInputResult::DropItems(undropped))
}

/// Answers a request of the view of the player's inventory (`container`): dropping items
/// (`drop_items`) or moving items between its containers (`move_player_items`). Other requests
/// are not answered.
pub fn handle_inventory_callback(level: &mut Level, container: &Container, data: ContainerFrameHandlerInputResult) -> (r: Option<ContainerFrameHandlerInputResult>)
    requires
        data matches ContainerFrameHandlerInputResult::DropItems(items) ==> drop_fits(*old(level), *container, items@),
        data matches ContainerFrameHandlerInputResult::MoveItems(d) ==> {
            &&& old(level).characters.player() is Some
            &&& d.position is None ==> player_move_fits(old(level).characters.player()->0.inventory, d)
        },
    ensures
        match data {
            ContainerFrameHandlerInputResult::DropItems(items) => drop_result(*old(level), *final(level), *container, items@, r),
            ContainerFrameHandlerInputResult::MoveItems(d) => {
                &&& final(level).map == old(level).map
                &&& d.position is Some ==> r is None && *final(level) == *old(level)
                &&& d.position is None ==> {
                    let p0 = old(level).characters.player()->0;
                    exists|inv: Container| {
                        &&& final(level).characters == old(level).characters.with_player(Some(Character { inventory: inv, ..p0 }))
                        &&& player_move(p0.inventory, inv, d, r)
                    }
                }
            },
            ContainerFrameHandlerInputResult::TakeItems(_) => r is None && *final(level) == *old(level),
        },
{
    match data {
        ContainerFrameHandlerInputResult::DropItems(items) => drop_items(items, level, container),
        ContainerFrameHandlerInputResult::MoveItems(d) => move_player_items(d, level),
        ContainerFrameHandlerInputResult::TakeItems(_) => None,
    }
}

} // verus!
