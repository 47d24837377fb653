use vstd::prelude::*;
use std::collections::HashMap;

use crate::map::{paveable, GameMap};
use crate::tile::TileDetails;
use crate::position::{adjacent, neighbors_of, Position};

verus! {

broadcast use vstd::std_specs::hash::group_hash_axioms;

/// The score a position has before any path reaches it.
pub open spec fn unreached_score() -> int {
    32767
}

/// The key a position is stored under: its column in the high half and its row in the low half.
pub open spec fn pos_key(p: Position) -> u32 {
    (p.x * 65536 + p.y) as u32
}

/// Number of keys in the position key space.
pub open spec fn key_count() -> nat {
    4294967296
}

/// The Manhattan distance between two positions.
pub open spec fn manhattan(a: Position, b: Position) -> int {
    (if a.x >= b.x { a.x - b.x } else { b.x - a.x }) + (if a.y >= b.y { a.y - b.y } else { b.y - a.y })
}

/// A walk from `from` to `to` where each step moves to an adjacent position.
pub open spec fn is_path(path: Seq<Position>, from: Position, to: Position) -> bool {
    &&& path.len() > 0
    &&& path[0] == from
    &&& path.last() == to
    &&& forall|i: int| 0 <= i < path.len() - 1 ==> #[trigger] adjacent(path[i], path[i + 1])
}

/// A position waiting to be explored, with its estimated total path cost.
#[derive(Copy, Clone, Debug)]
pub struct Node {
    pub position: Position,
    pub score: i32,
}

impl PartialEq for Node {
    fn eq(&self, other: &Self) -> (r: bool) {
        self.score == other.score
    }
}

impl vstd::std_specs::cmp::PartialEqSpecImpl for Node {
    open spec fn obeys_eq_spec() -> bool {
        true
    }

    open spec fn eq_spec(&self, other: &Node) -> bool {
        self.score == other.score
    }
}

/// Distance estimate between two positions.
pub trait ManhattanPathCosting {
    fn manhattan_path_cost(&self, a: Position, b: Position) -> i32;
}

/// The state of an A* search from a start position: the positions still to explore, the best
/// known predecessor of each reached position, and the best known path cost (g) and estimated
/// total cost (f) of each.
pub struct Pathfinding {
    start_position: Position,
    unvisited: Vec<Node>,
    came_from: HashMap<u32, Position>,
    g_scores: HashMap<u32, i32>,
    f_scores: HashMap<u32, i32>,
}

/// The g score a key has in the table, or the unreached score when absent.
pub open spec fn score_or_unreached(g: Map<u32, i32>, k: int) -> int {
    if g.dom().contains(k as u32) { g[k as u32] as int } else { unreached_score() }
}

/// The sum of `score_or_unreached` over the keys below `n`.
pub open spec fn score_sum(g: Map<u32, i32>, n: nat) -> int
    decreases n,
{
    if n == 0 {
        0
    } else {
        score_sum(g, (n - 1) as nat) + score_or_unreached(g, n - 1)
    }
}

proof fn lemma_score_sum_update(g: Map<u32, i32>, k: u32, v: i32, n: nat)
    requires
        n <= key_count(),
    ensures
        score_sum(g.insert(k, v), n) == score_sum(g, n) + if (k as int) < n {
            v - score_or_unreached(g, k as int)
        } else {
            0
        },
    decreases n,
{
    if n > 0 {
        lemma_score_sum_update(g, k, v, (n - 1) as nat);
        assert(score_or_unreached(g.insert(k, v), n - 1) == if k as int == n - 1 {
            v as int
        } else {
            score_or_unreached(g, n - 1)
        });
    }
}

proof fn lemma_score_sum_nonneg(g: Map<u32, i32>, n: nat)
    requires
        forall|k: u32| #[trigger] g.dom().contains(k) ==> g[k] >= 0,
    ensures
        score_sum(g, n) >= 0,
    decreases n,
{
    if n > 0 {
        lemma_score_sum_nonneg(g, (n - 1) as nat);
    }
}

proof fn lemma_pos_key_injective(a: Position, b: Position)
    ensures
        pos_key(a) == pos_key(b) ==> a == b,
{
    if pos_key(a) == pos_key(b) {
        assert(a.x * 65536 + a.y == b.x * 65536 + b.y);
        if a.x < b.x {
            assert(a.x * 65536 + a.y < b.x * 65536 + b.y);
        } else if a.x > b.x {
            assert(a.x * 65536 + a.y > b.x * 65536 + b.y);
        }
    }
}

/// The search state is consistent: the start costs nothing and has no predecessor; every
/// other reached position has a predecessor that is adjacent to it and strictly cheaper;
/// every cost is below the unreached score; every waiting position has been reached.
pub open spec fn search_wf(start: Position, unvisited: Seq<Node>, cf: Map<u32, Position>, g: Map<u32, i32>) -> bool {
    &&& start_ok(start, cf, g)
    &&& scores_ok(start, cf, g)
    &&& links_ok(cf, g)
    &&& waiting_ok(unvisited, g)
}

pub open spec fn start_ok(start: Position, cf: Map<u32, Position>, g: Map<u32, i32>) -> bool {
    &&& g.dom().contains(pos_key(start))
    &&& g[pos_key(start)] == 0
    &&& !cf.dom().contains(pos_key(start))
}

pub open spec fn scores_ok(start: Position, cf: Map<u32, Position>, g: Map<u32, i32>) -> bool {
    &&& forall|k: u32| #[trigger] g.dom().contains(k) ==> 0 <= g[k] < unreached_score()
    &&& forall|k: u32| #[trigger] g.dom().contains(k) ==> k == pos_key(start) || cf.dom().contains(k)
}

pub open spec fn links_ok(cf: Map<u32, Position>, g: Map<u32, i32>) -> bool {
    forall|p: Position| #[trigger] cf.dom().contains(pos_key(p)) ==> {
        &&& g.dom().contains(pos_key(p))
        &&& g.dom().contains(pos_key(cf[pos_key(p)]))
        &&& g[pos_key(cf[pos_key(p)])] < g[pos_key(p)]
        &&& adjacent(cf[pos_key(p)], p)
    }
}

pub open spec fn waiting_ok(unvisited: Seq<Node>, g: Map<u32, i32>) -> bool {
    forall|i: int| 0 <= i < unvisited.len() ==> #[trigger] g.dom().contains(pos_key(unvisited[i].position))
}

/// Whether a position is waiting to be explored.
pub open spec fn waiting(unvisited: Seq<Node>, p: Position) -> bool {
    exists|i: int| 0 <= i < unvisited.len() && #[trigger] unvisited[i].position == p
}

/// A reached position that has been explored: when it is paveable and cheap enough to extend,
/// each adjacent position has been reached at most one step further.
pub open spec fn explored_ok(tiles: Seq<Vec<TileDetails>>, g: Map<u32, i32>, p: Position) -> bool {
    paveable(tiles, p) && g[pos_key(p)] < unreached_score() - 1 ==> forall|n: Position| #[trigger] adjacent(p, n)
        ==> g.dom().contains(pos_key(n)) && g[pos_key(n)] <= g[pos_key(p)] + 1
}

/// Every recorded predecessor can be paved.
pub open spec fn links_paveable(tiles: Seq<Vec<TileDetails>>, cf: Map<u32, Position>) -> bool {
    forall|k: u32| #[trigger] cf.dom().contains(k) ==> paveable(tiles, cf[k])
}

/// A walk from `from` to `to` in which every position but the last can be paved.
pub open spec fn walkable_route(tiles: Seq<Vec<TileDetails>>, route: Seq<Position>, from: Position, to: Position) -> bool {
    &&& is_path(route, from, to)
    &&& forall|i: int| 0 <= i < route.len() - 1 ==> #[trigger] paveable(tiles, route[i])
}

/// Recording `cur` as the predecessor of its neighbour `n` at a strictly lower cost keeps the
/// search state consistent.
proof fn lemma_improvement_keeps_wf(
    start: Position,
    unvisited: Seq<Node>,
    cf: Map<u32, Position>,
    g: Map<u32, i32>,
    cur: Position,
    n: Position,
    pot: i32,
)
    requires
        search_wf(start, unvisited, cf, g),
        adjacent(cur, n),
        g.dom().contains(pos_key(cur)),
        pot == g[pos_key(cur)] + 1,
        pot < score_or_unreached(g, pos_key(n) as int),
    ensures
        search_wf(start, unvisited, cf.insert(pos_key(n), cur), g.insert(pos_key(n), pot)),
        pos_key(n) != pos_key(start),
{
    let kn = pos_key(n);
    let cf2 = cf.insert(kn, cur);
    let g2 = g.insert(kn, pot);
    lemma_pos_key_injective(n, cur);
    assert(kn != pos_key(cur));
    assert(kn != pos_key(start));
    assert forall|p: Position| #[trigger] cf2.dom().contains(pos_key(p)) implies {
        &&& g2.dom().contains(pos_key(p))
        &&& g2.dom().contains(pos_key(cf2[pos_key(p)]))
        &&& g2[pos_key(cf2[pos_key(p)])] < g2[pos_key(p)]
        &&& adjacent(cf2[pos_key(p)], p)
    } by {
        lemma_pos_key_injective(p, n);
        if pos_key(p) != kn {
            assert(cf.dom().contains(pos_key(p)));
        }
    }
    assert forall|k: u32| #[trigger] g2.dom().contains(k) implies k == pos_key(start) || cf2.dom().contains(k) by {
        if k != kn {
            assert(g.dom().contains(k));
        }
    }
    assert forall|k: u32| #[trigger] g2.dom().contains(k) implies 0 <= g2[k] < unreached_score() by {
        if k != kn {
            assert(g.dom().contains(k));
        }
    }
    assert forall|i: int| 0 <= i < unvisited.len() implies #[trigger] g2.dom().contains(pos_key(unvisited[i].position)) by {
        assert(g.dom().contains(pos_key(unvisited[i].position)));
    }
}

/// Removing a waiting node keeps the search state consistent, and its position is reached.
proof fn lemma_pop_keeps_wf(start: Position, unvisited: Seq<Node>, cf: Map<u32, Position>, g: Map<u32, i32>, i: int)
    requires
        search_wf(start, unvisited, cf, g),
        0 <= i < unvisited.len(),
    ensures
        search_wf(start, unvisited.remove(i), cf, g),
        g.dom().contains(pos_key(unvisited[i].position)),
{
    let u2 = unvisited.remove(i);
    assert forall|j: int| 0 <= j < u2.len() implies #[trigger] g.dom().contains(pos_key(u2[j].position)) by {
        if j < i {
            assert(u2[j] == unvisited[j]);
        } else {
            assert(u2[j] == unvisited[j + 1]);
        }
    }
}

/// Adding a waiting node at a reached position keeps the search state consistent.
proof fn lemma_push_keeps_wf(start: Position, unvisited: Seq<Node>, cf: Map<u32, Position>, g: Map<u32, i32>, node: Node)
    requires
        search_wf(start, unvisited, cf, g),
        g.dom().contains(pos_key(node.position)),
    ensures
        search_wf(start, unvisited.push(node), cf, g),
{
    let u2 = unvisited.push(node);
    assert forall|j: int| 0 <= j < u2.len() implies #[trigger] g.dom().contains(pos_key(u2[j].position)) by {
        if j < unvisited.len() {
            assert(u2[j] == unvisited[j]);
        }
    }
}

impl ManhattanPathCosting for Pathfinding {
    fn manhattan_path_cost(&self, a: Position, b: Position) -> (r: i32)
        ensures
            r == manhattan(a, b),
    {
        let x_abs: i32 = if a.x >= b.x { (a.x - b.x) as i32 } else { (b.x - a.x) as i32 };
        let y_abs: i32 = if a.y >= b.y { (a.y - b.y) as i32 } else { (b.y - a.y) as i32 };
        x_abs + y_abs
    }
}

fn key_of(p: Position) -> (k: u32)
    ensures
        k == pos_key(p),
{
    p.x as u32 * 65536 + p.y as u32
}

impl Pathfinding {
    pub closed spec fn start(&self) -> Position {
        self.start_position
    }

    pub closed spec fn unvisited_nodes(&self) -> Seq<Node> {
        self.unvisited@
    }

    pub closed spec fn g_map(&self) -> Map<u32, i32> {
        self.g_scores@
    }

    pub closed spec fn f_map(&self) -> Map<u32, i32> {
        self.f_scores@
    }

    pub closed spec fn came_from_map(&self) -> Map<u32, Position> {
        self.came_from@
    }

    /// A search as `build` leaves it: only the start waits, with a score of 0, at a cost of 0,
    /// and no predecessors are recorded.
    pub open spec fn is_fresh(&self) -> bool {
        &&& self.unvisited_nodes() == seq![Node { position: self.start(), score: 0 }]
        &&& self.g_map() == Map::<u32, i32>::empty().insert(pos_key(self.start()), 0)
        &&& self.came_from_map() == Map::<u32, Position>::empty()
    }

    /// Every predecessor the search has recorded can be paved on the map of `tiles`; so holds
    /// of a fresh search, and of one that has only searched that map.
    pub open spec fn links_walkable(&self, tiles: Seq<Vec<TileDetails>>) -> bool {
        links_paveable(tiles, self.came_from_map())
    }

    /// The search state is consistent (see `search_wf`).
    pub closed spec fn wf(&self) -> bool {
        search_wf(self.start_position, self.unvisited@, self.came_from@, self.g_scores@)
    }

    /// The search measure: twice the sum of all costs plus the number of waiting positions.
    pub closed spec fn measure(&self) -> int {
        2 * score_sum(self.g_scores@, key_count()) + self.unvisited@.len()
    }

    /// A search from `start_position`, which waits with a score of 0 and costs nothing.
    pub fn build(start_position: Position) -> (p: Pathfinding)
        ensures
            p.wf(),
            p.start() == start_position,
            p.unvisited_nodes() == seq![Node { position: start_position, score: 0 }],
            p.g_map() == Map::<u32, i32>::empty().insert(pos_key(start_position), 0),
            p.f_map() == Map::<u32, i32>::empty(),
            p.came_from_map() == Map::<u32, Position>::empty(),
    {
        let mut pathfinding = Pathfinding {
            start_position,
            unvisited: Vec::new(),
            came_from: HashMap::new(),
            g_scores: HashMap::new(),
            f_scores: HashMap::new(),
        };
        let node = Node { position: start_position, score: 0 };
        pathfinding.unvisited.push(node);
        pathfinding.g_scores.insert(key_of(start_position), 0);
        proof {
            assert(pathfinding.g_scores@ =~= Map::<u32, i32>::empty().insert(pos_key(start_position), 0));
            assert(pathfinding.unvisited@ =~= seq![node]);
        }
        pathfinding
    }

    /// The positions waiting to be explored.
    pub fn get_unvisited(&self) -> (r: &Vec<Node>)
        ensures
            r@ == self.unvisited_nodes(),
    {
        &self.unvisited
    }

    /// The best known cost of reaching a position, if any.
    pub fn find_g_score(&self, position: Position) -> (r: Option<i32>)
        ensures
            r == if self.g_map().dom().contains(pos_key(position)) {
                Some(self.g_map()[pos_key(position)])
            } else {
                None::<i32>
            },
    {
        match self.g_scores.get(&key_of(position)) {
            Some(g) => Some(*g),
            None => None,
        }
    }

    /// The estimated total cost through a position, if any.
    pub fn find_f_score(&self, position: Position) -> (r: Option<i32>)
        ensures
            r == if self.f_map().dom().contains(pos_key(position)) {
                Some(self.f_map()[pos_key(position)])
            } else {
                None::<i32>
            },
    {
        match self.f_scores.get(&key_of(position)) {
            Some(f) => Some(*f),
            None => None,
        }
    }

    /// The walk back from `position` along the recorded predecessors, listed from where it
    /// starts: it ends at `position`, starts at a position without a predecessor, and each
    /// position after the first has the one before it as its predecessor. For a reached position
    /// this is a path from the search's start; for any other it is just `position`.
    fn build_path(&self, position: Position) -> (nodes: Vec<Position>)
        requires
            self.wf(),
        ensures
            nodes@.len() >= 1,
            nodes@.last() == position,
            !self.came_from@.dom().contains(pos_key(nodes@[0])),
            forall|i: int| 0 <= i < nodes@.len() - 1 ==> {
                &&& self.came_from@.dom().contains(pos_key(#[trigger] nodes@[i + 1]))
                &&& self.came_from@[pos_key(nodes@[i + 1])] == nodes@[i]
            },
            self.g_scores@.dom().contains(pos_key(position)) ==> is_path(nodes@, self.start_position, position),
            self.g_scores@.dom().contains(pos_key(position)) ==> nodes@.no_duplicates(),
            !self.g_scores@.dom().contains(pos_key(position)) ==> nodes@ == seq![position],
    {
        let ghost g = self.g_scores@;
        let ghost cf = self.came_from@;
        let ghost start = self.start_position;
        let mut rev: Vec<Position> = Vec::new();
        rev.push(position);
        let mut next_node = position;
        loop
            invariant
                search_wf(start, self.unvisited@, cf, g),
                g == self.g_scores@,
                cf == self.came_from@,
                start == self.start_position,
                g.dom().contains(pos_key(next_node)) || (rev@.len() == 1 && !g.dom().contains(pos_key(position))),
                g.dom().contains(pos_key(position)) ==> g.dom().contains(pos_key(next_node)),
                rev@.len() > 0,
                rev@[0] == position,
                rev@.last() == next_node,
                forall|j: int| 0 <= j < rev@.len() - 1 ==> #[trigger] adjacent(rev@[j + 1], rev@[j]),
                forall|j: int| 0 <= j < rev@.len() - 1 ==> cf.dom().contains(pos_key(#[trigger] rev@[j])) && cf[pos_key(rev@[j])] == rev@[j + 1],
            ensures
                g.dom().contains(pos_key(position)) ==> next_node == start,
                !g.dom().contains(pos_key(position)) ==> rev@.len() == 1,
                !cf.dom().contains(pos_key(next_node)),
                rev@.len() > 0,
                rev@[0] == position,
                rev@.last() == next_node,
                forall|j: int| 0 <= j < rev@.len() - 1 ==> #[trigger] adjacent(rev@[j + 1], rev@[j]),
                forall|j: int| 0 <= j < rev@.len() - 1 ==> cf.dom().contains(pos_key(#[trigger] rev@[j])) && cf[pos_key(rev@[j])] == rev@[j + 1],
            decreases score_or_unreached(g, pos_key(next_node) as int),
        {
            let k = key_of(next_node);
            if self.came_from.contains_key(&k) {
                let ghost old_next = next_node;
                let prev = *self.came_from.get(&k).unwrap();
                proof {
                    assert(cf.dom().contains(pos_key(old_next)));
                    assert(links_ok(cf, g));
                    assert(g.dom().contains(pos_key(old_next)));
                    assert(scores_ok(start, cf, g));
                }
                next_node = prev;
                rev.push(prev);
                proof {
                    assert forall|j: int| 0 <= j < rev@.len() - 1 implies #[trigger] adjacent(rev@[j + 1], rev@[j]) by {
                        if j < rev@.len() - 2 {
                            assert(rev@[j + 1] == rev@.drop_last()[j + 1]);
                        }
                    }
                    assert forall|j: int| 0 <= j < rev@.len() - 1 implies cf.dom().contains(pos_key(#[trigger] rev@[j])) && cf[pos_key(rev@[j])] == rev@[j + 1] by {
                        if j < rev@.len() - 2 {
                            assert(rev@[j + 1] == rev@.drop_last()[j + 1]);
                            assert(rev@[j] == rev@.drop_last()[j]);
                        } else {
                            assert(rev@[j] == old_next);
                        }
                    }
                }
            } else {
                proof {
                    if g.dom().contains(pos_key(next_node)) {
                        assert(scores_ok(start, cf, g));
                        assert(pos_key(next_node) == pos_key(start));
                        lemma_pos_key_injective(next_node, start);
                    }
                }
                break;
            }
        }
        let mut nodes: Vec<Position> = Vec::new();
        let mut i: usize = rev.len();
        while i > 0
            invariant
                i <= rev@.len(),
                rev@.len() > 0,
                nodes@.len() == rev@.len() - i,
                forall|j: int| 0 <= j < nodes@.len() ==> #[trigger] nodes@[j] == rev@[rev@.len() - 1 - j],
            decreases i,
        {
            i -= 1;
            nodes.push(rev[i]);
        }
        assert forall|j: int| 0 <= j < nodes@.len() - 1 implies #[trigger] adjacent(nodes@[j], nodes@[j + 1]) by {
            let k = rev@.len() - 2 - j;
            assert(adjacent(rev@[k + 1], rev@[k]));
            assert(nodes@[j] == rev@[k + 1]);
            assert(nodes@[j + 1] == rev@[k]);
        }
        assert forall|j: int| 0 <= j < nodes@.len() - 1 implies {
            &&& self.came_from@.dom().contains(pos_key(#[trigger] nodes@[j + 1]))
            &&& self.came_from@[pos_key(nodes@[j + 1])] == nodes@[j]
        } by {
            let k = rev@.len() - 2 - j;
            assert(cf.dom().contains(pos_key(rev@[k])) && cf[pos_key(rev@[k])] == rev@[k + 1]);
            assert(nodes@[j] == rev@[k + 1]);
            assert(nodes@[j + 1] == rev@[k]);
        }
        assert(nodes@[0] == rev@.last());
        assert(nodes@.last() == rev@[0]);
        proof {
            if !g.dom().contains(pos_key(position)) {
                assert(nodes@ =~= seq![position]);
            } else {
                lemma_chain_rises(nodes@, cf, g, 0);
                assert forall|i: int, j: int| 0 <= i < j < nodes@.len() implies nodes@[i] != nodes@[j] by {
                    assert(g[pos_key(nodes@[i])] < g[pos_key(nodes@[j])]);
                }
            }
        }
        nodes
    }

    /// The reached cost of a position, or the unreached score when it has none.
    fn get_g_score(&self, position: Position) -> (r: i32)
        ensures
            r == score_or_unreached(self.g_scores@, pos_key(position) as int),
    {
        match self.g_scores.get(&key_of(position)) {
            Some(g) => *g,
            None => 32767,
        }
    }

    /// Whether a position is waiting to be explored.
    fn position_unvisited(&self, position: Position) -> (r: bool)
        ensures
            r == exists|i: int| 0 <= i < self.unvisited@.len() && #[trigger] self.unvisited@[i].position == position,
    {
        let mut i: usize = 0;
        while i < self.unvisited.len()
            invariant
                i <= self.unvisited@.len(),
                forall|j: int| 0 <= j < i ==> #[trigger] self.unvisited@[j].position != position,
            decreases self.unvisited@.len() - i,
        {
            if self.unvisited[i].position == position {
                return true;
            }
            i += 1;
        }
        false
    }

    /// Removes and returns a waiting node of the lowest score (the first such one).
    fn pop_lowest(&mut self) -> (n: Node)
        requires
            old(self).unvisited@.len() > 0,
        ensures
            exists|i: int| 0 <= i < old(self).unvisited@.len()
                && n == old(self).unvisited@[i]
                && final(self).unvisited@ == old(self).unvisited@.remove(i),
            forall|j: int| 0 <= j < old(self).unvisited@.len() ==> n.score <= #[trigger] old(self).unvisited@[j].score,
            final(self).start_position == old(self).start_position,
            final(self).came_from@ == old(self).came_from@,
            final(self).g_scores@ == old(self).g_scores@,
            final(self).f_scores@ == old(self).f_scores@,
    {
        let mut best: usize = 0;
        let mut i: usize = 1;
        while i < self.unvisited.len()
            invariant
                1 <= i <= self.unvisited@.len(),
                best < i,
                forall|j: int| 0 <= j < i ==> self.unvisited@[best as int].score <= #[trigger] self.unvisited@[j].score,
            decreases self.unvisited@.len() - i,
        {
            if self.unvisited[i].score < self.unvisited[best].score {
                best = i;
            }
            i += 1;
        }
        self.unvisited.remove(best)
    }

    /// Records the path through `current` to its neighbour `n` when it is cheaper than the best
    /// known one, and queues `n` unless it is already waiting.
    fn relax_neighbor(&mut self, current: Position, current_g_score: i32, n: Position, end_position: Position)
        requires
            old(self).wf(),
            adjacent(current, n),
            old(self).g_scores@.dom().contains(pos_key(current)),
            current_g_score == old(self).g_scores@[pos_key(current)],
        ensures
            final(self).wf(),
            final(self).start_position == old(self).start_position,
            final(self).measure() <= old(self).measure(),
            final(self).g_scores@.dom().contains(pos_key(current)),
            final(self).g_scores@[pos_key(current)] == current_g_score,
            final(self).f_scores@.dom().contains(pos_key(old(self).start_position)) ==> final(self).f_scores@[pos_key(old(self).start_position)] == old(self).f_scores@[pos_key(old(self).start_position)],
            old(self).f_scores@.dom().contains(pos_key(old(self).start_position)) ==> final(self).f_scores@.dom().contains(pos_key(old(self).start_position)),
            ({
                let improved = current_g_score + 1 < score_or_unreached(old(self).g_scores@, pos_key(n) as int);
                &&& final(self).g_scores@ == if improved {
                    old(self).g_scores@.insert(pos_key(n), (current_g_score + 1) as i32)
                } else {
                    old(self).g_scores@
                }
                &&& final(self).came_from@ == if improved {
                    old(self).came_from@.insert(pos_key(n), current)
                } else {
                    old(self).came_from@
                }
                &&& forall|q: Position| #[trigger] waiting(final(self).unvisited@, q)
                    == (waiting(old(self).unvisited@, q) || (improved && q == n))
            }),
    {
        let neighbor_g_score = self.get_g_score(n);
        let distance_through = self.manhattan_path_cost(current, n);
        let potential_g_score = current_g_score + distance_through;
        if potential_g_score < neighbor_g_score {
            let kn = key_of(n);
            let ghost g0 = self.g_scores@;
            let ghost start = self.start_position;
            proof {
                lemma_improvement_keeps_wf(start, self.unvisited@, self.came_from@, g0, current, n, potential_g_score);
                lemma_score_sum_update(g0, kn, potential_g_score, key_count());
                lemma_pos_key_injective(n, current);
            }
            self.came_from.insert(kn, current);
            self.g_scores.insert(kn, potential_g_score);
            let through_neighbor_score = self.manhattan_path_cost(n, end_position);
            let neighbor_fscore = potential_g_score + through_neighbor_score;
            self.f_scores.insert(kn, neighbor_fscore);
            if !self.position_unvisited(n) {
                let node = Node { position: n, score: neighbor_fscore };
                proof {
                    lemma_push_keeps_wf(start, self.unvisited@, self.came_from@, self.g_scores@, node);
                }
                let ghost before = self.unvisited@;
                self.unvisited.push(node);
                proof {
                    assert forall|q: Position| #[trigger] waiting(self.unvisited@, q) == (waiting(before, q) || q == n) by {
                        if waiting(before, q) {
                            let i = choose|i: int| 0 <= i < before.len() && #[trigger] before[i].position == q;
                            assert(self.unvisited@[i] == before[i]);
                        }
                        if q == n {
                            assert(self.unvisited@[before.len() as int].position == n);
                        }
                        if waiting(self.unvisited@, q) {
                            let i = choose|i: int| 0 <= i < self.unvisited@.len() && #[trigger] self.unvisited@[i].position == q;
                            if i < before.len() {
                                assert(self.unvisited@[i] == before[i]);
                            }
                        }
                    }
                }
            }
        }
    }

    /// Relaxes every listed neighbour of the reached, paveable position `current`, which is
    /// then explored.
    fn explore(&mut self, map: &GameMap, current: Position, end_position: Position)
        requires
            old(self).wf(),
            old(self).g_scores@.dom().contains(pos_key(current)),
            paveable(map.tiles@, current),
        ensures
            final(self).wf(),
            final(self).start_position == old(self).start_position,
            final(self).measure() <= old(self).measure(),
            old(self).f_scores@.dom().contains(pos_key(old(self).start_position)) ==> {
                &&& final(self).f_scores@.dom().contains(pos_key(old(self).start_position))
                &&& final(self).f_scores@[pos_key(old(self).start_position)] == old(self).f_scores@[pos_key(old(self).start_position)]
            },
            search_progress_but(map.tiles@, old(self).unvisited@, old(self).g_scores@, old(self).came_from@, end_position, current)
                ==> search_progress(map.tiles@, final(self).unvisited@, final(self).g_scores@, final(self).came_from@, end_position),
            links_paveable(map.tiles@, old(self).came_from@) ==> links_paveable(map.tiles@, final(self).came_from@),
    {
        let ghost lp0 = links_paveable(map.tiles@, self.came_from@);
        let ghost tiles = map.tiles@;
        let ghost progress0 = search_progress_but(tiles, self.unvisited@, self.g_scores@, self.came_from@, end_position, current);
        let ghost s = pos_key(self.start_position);
        let ghost f0 = self.f_scores@;
        let ghost m0 = self.measure();
        let neighbors = current.get_neighbors();
        let current_g_score = self.get_g_score(current);
        proof {
            lemma_neighbors_adjacent(current);
        }
        let mut i: usize = 0;
        while i < neighbors.len()
            invariant
                self.wf(),
                self.start_position == old(self).start_position,
                s == pos_key(self.start_position),
                f0 == old(self).f_scores@,
                f0.dom().contains(s) ==> self.f_scores@.dom().contains(s) && self.f_scores@[s] == f0[s],
                i <= neighbors@.len(),
                neighbors@ == neighbors_of(current),
                forall|j: int| 0 <= j < neighbors@.len() ==> adjacent(current, #[trigger] neighbors@[j]),
                self.g_scores@.dom().contains(pos_key(current)),
                current_g_score == self.g_scores@[pos_key(current)],
                self.measure() <= m0,
                tiles == map.tiles@,
                paveable(tiles, current),
                progress0 ==> search_progress_but(tiles, self.unvisited@, self.g_scores@, self.came_from@, end_position, current),
                lp0 == links_paveable(map.tiles@, old(self).came_from@),
                lp0 ==> links_paveable(tiles, self.came_from@),
                progress0 ==> forall|j: int| 0 <= j < i ==> {
                    current_g_score < unreached_score() - 1 ==> {
                        &&& self.g_scores@.dom().contains(pos_key(#[trigger] neighbors@[j]))
                        &&& self.g_scores@[pos_key(neighbors@[j])] <= current_g_score + 1
                    }
                },
            decreases neighbors@.len() - i,
        {
            let n = neighbors[i];
            let ghost g_before = self.g_scores@;
            let ghost u_before = self.unvisited@;
            let ghost cf_before = self.came_from@;
            self.relax_neighbor(current, current_g_score, n, end_position);
            proof {
                if lp0 {
                    assert forall|k: u32| #[trigger] self.came_from@.dom().contains(k) implies paveable(tiles, self.came_from@[k]) by {
                        if !cf_before.dom().contains(k) || self.came_from@[k] != cf_before[k] {
                            assert(self.came_from@[k] == current);
                        } else {
                            assert(cf_before.dom().contains(k));
                        }
                    }
                }
                if progress0 {
                    lemma_relax_keeps_progress(tiles, u_before, g_before, cf_before, self.unvisited@, self.g_scores@,
                        self.came_from@, end_position, current, current_g_score, n);
                    lemma_pos_key_injective(n, current);
                    assert forall|j: int| 0 <= j < i + 1 implies {
                        current_g_score < unreached_score() - 1 ==> {
                            &&& self.g_scores@.dom().contains(pos_key(#[trigger] neighbors@[j]))
                            &&& self.g_scores@[pos_key(neighbors@[j])] <= current_g_score + 1
                        }
                    } by {
                        if j < i && current_g_score < unreached_score() - 1 {
                            assert(g_before.dom().contains(pos_key(neighbors@[j])));
                        } else if j == i {
                            assert(neighbors@[j] == n);
                        }
                    }
                }
            }
            i += 1;
        }
        proof {
            if progress0 {
                lemma_close_current(tiles, self.unvisited@, self.g_scores@, self.came_from@, end_position, current, neighbors@);
            }
        }
    }

    /// A* search from the start towards `end_position` across the paveable positions of `map`.
    /// Returns the path found, from the start to the end, without repeating a position, or an
    /// empty list when the positions to explore run out first. The start keeps a cost of 0 and
    /// an estimate equal to its Manhattan distance from the end. When every predecessor the
    /// search has recorded can be paved on `map` (as in a fresh search), that stays so and the
    /// path found can be walked (every position before the end is paveable). From a fresh
    /// search, an empty result means that no walkable route of at most 32767 positions leads
    /// from the start to the end.
    pub fn a_star_search(&mut self, map: &GameMap, end_position: Position) -> (path: Vec<Position>)
        requires
            old(self).wf(),
        ensures
            final(self).wf(),
            final(self).start() == old(self).start(),
            path@.len() > 0 ==> is_path(path@, old(self).start(), end_position),
            path@.no_duplicates(),
            final(self).g_map().dom().contains(pos_key(old(self).start())),
            final(self).g_map()[pos_key(old(self).start())] == 0,
            final(self).f_map().dom().contains(pos_key(old(self).start())),
            final(self).f_map()[pos_key(old(self).start())] == manhattan(old(self).start(), end_position),
            old(self).is_fresh() ==> old(self).links_walkable(map.tiles@),
            old(self).links_walkable(map.tiles@) ==> final(self).links_walkable(map.tiles@),
            old(self).links_walkable(map.tiles@) && path@.len() > 0 ==> walkable_route(map.tiles@, path@, old(self).start(), end_position),
            old(self).is_fresh() && path@.len() == 0 ==> forall|route: Seq<Position>|
                #[trigger] walkable_route(map.tiles@, route, old(self).start(), end_position) ==> route.len() > 32767,
    {
        let ghost fresh0 = self.is_fresh();
        let ghost tiles = map.tiles@;
        let ghost lw0 = links_paveable(tiles, self.came_from@);
        proof {
            if fresh0 {
                lemma_fresh_invariants(self.start_position, self.unvisited@, self.g_scores@, self.came_from@, tiles, end_position);
            }
        }
        let score_estimate = self.manhattan_path_cost(self.start_position, end_position);
        self.f_scores.insert(key_of(self.start_position), score_estimate);
        let ghost start = self.start_position;
        let ghost s = pos_key(start);
        assert(start == old(self).start_position);
        while !self.unvisited.is_empty()
            invariant
                self.wf(),
                self.start_position == start,
                start == old(self).start_position,
                s == pos_key(start),
                self.f_scores@.dom().contains(s),
                self.f_scores@[s] == manhattan(start, end_position),
                tiles == map.tiles@,
                fresh0 == old(self).is_fresh(),
                fresh0 ==> search_progress(tiles, self.unvisited@, self.g_scores@, self.came_from@, end_position),
                lw0 == links_paveable(tiles, old(self).came_from@),
                lw0 ==> links_paveable(tiles, self.came_from@),
            decreases self.measure(),
        {
            let ghost before = self.unvisited@;
            let current_lowest_score_node = self.pop_lowest();
            let ghost popped = current_lowest_score_node.position;
            proof {
                let i = choose|i: int| 0 <= i < before.len()
                    && current_lowest_score_node == before[i]
                    && self.unvisited@ == before.remove(i);
                lemma_pop_keeps_wf(start, before, self.came_from@, self.g_scores@, i);
                lemma_pop_waiting(before, i);
            }
            if current_lowest_score_node.position == end_position {
                let path = self.build_path(end_position);
                proof {
                    if lw0 {
                        assert forall|j: int| 0 <= j < path@.len() - 1 implies #[trigger] paveable(tiles, path@[j]) by {
                            assert(self.came_from@.dom().contains(pos_key(path@[j + 1])));
                            assert(self.came_from@[pos_key(path@[j + 1])] == path@[j]);
                        }
                        assert(walkable_route(tiles, path@, start, end_position));
                    }
                }
                return path;
            }
            proof {
                if fresh0 {
                    assert forall|p: Position| #[trigger] self.g_scores@.dom().contains(pos_key(p)) implies p == popped
                        || waiting(self.unvisited@, p) || explored_ok(tiles, self.g_scores@, p) by {
                        if p != popped && waiting(before, p) {
                            assert(waiting(self.unvisited@, p) == waiting(before, p));
                        }
                    }
                    if self.g_scores@.dom().contains(pos_key(end_position)) {
                        assert(waiting(self.unvisited@, end_position) == waiting(before, end_position));
                    }
                    assert(search_progress_but(tiles, self.unvisited@, self.g_scores@, self.came_from@, end_position, popped));
                }
            }
            if map.is_paveable(current_lowest_score_node.position) {
                let current_position = current_lowest_score_node.position;
                self.explore(map, current_position, end_position);
            } else {
                proof {
                    if fresh0 {
                        assert(explored_ok(tiles, self.g_scores@, popped));
                    }
                }
            }
            proof {
                lemma_score_sum_nonneg(self.g_scores@, key_count());
            }
        }
        proof {
            if fresh0 {
                assert forall|route: Seq<Position>| #[trigger] walkable_route(tiles, route, start, end_position)
                    implies route.len() > 32767 by {
                    if route.len() <= 32767 {
                        lemma_route_reached(tiles, self.g_scores@, route, start, end_position);
                        assert(!waiting(self.unvisited@, end_position));
                    }
                }
            }
        }
        Vec::new()
    }
}

/// Along a walk whose every position but the first has the one before it as its recorded
/// predecessor, and whose last position is reached, every position is reached and the costs
/// rise strictly from position `j` on.
proof fn lemma_chain_rises(nodes: Seq<Position>, cf: Map<u32, Position>, g: Map<u32, i32>, j: int)
    requires
        links_ok(cf, g),
        nodes.len() >= 1,
        0 <= j < nodes.len(),
        g.dom().contains(pos_key(nodes.last())),
        forall|i: int| 0 <= i < nodes.len() - 1 ==> {
            &&& cf.dom().contains(pos_key(#[trigger] nodes[i + 1]))
            &&& cf[pos_key(nodes[i + 1])] == nodes[i]
        },
    ensures
        forall|i: int| j <= i < nodes.len() ==> g.dom().contains(pos_key(#[trigger] nodes[i])),
        forall|i: int, k: int| j <= i < k < nodes.len() ==> g[pos_key(#[trigger] nodes[i])] < g[pos_key(#[trigger] nodes[k])],
    decreases nodes.len() - j,
{
    if j < nodes.len() - 1 {
        lemma_chain_rises(nodes, cf, g, j + 1);
        let p = nodes[j + 1];
        assert(cf.dom().contains(pos_key(p)) && cf[pos_key(p)] == nodes[j]);
        assert(g.dom().contains(pos_key(nodes[j])));
        assert(g[pos_key(nodes[j])] < g[pos_key(nodes[j + 1])]);
        assert forall|i: int, k: int| j <= i < k < nodes.len() implies g[pos_key(#[trigger] nodes[i])] < g[pos_key(#[trigger] nodes[k])] by {
            if i == j && k > j + 1 {
                assert(g[pos_key(nodes[j + 1])] < g[pos_key(nodes[k])]);
            }
        }
    }
}

/// Every listed neighbour of a position is adjacent to it.
proof fn lemma_neighbors_adjacent(p: Position)
    ensures
        forall|j: int| 0 <= j < neighbors_of(p).len() ==> adjacent(p, #[trigger] neighbors_of(p)[j]),
{
    let up: Seq<Position> = if p.y > 0 { seq![Position { x: p.x, y: (p.y - 1) as u16 }] } else { seq![] };
    let down: Seq<Position> = if p.y < u16::MAX { seq![Position { x: p.x, y: (p.y + 1) as u16 }] } else { seq![] };
    let left: Seq<Position> = if p.x > 0 { seq![Position { x: (p.x - 1) as u16, y: p.y }] } else { seq![] };
    let right: Seq<Position> = if p.x < u16::MAX { seq![Position { x: (p.x + 1) as u16, y: p.y }] } else { seq![] };
    let all = up + down + left + right;
    assert(all == neighbors_of(p));
    assert forall|j: int| 0 <= j < all.len() implies adjacent(p, #[trigger] all[j]) by {
        let a = up + down;
        let b = a + left;
        if j < up.len() {
            assert(all[j] == up[j]);
        } else if j < a.len() {
            assert(all[j] == a[j]);
            assert(a[j] == down[j - up.len()]);
        } else if j < b.len() {
            assert(all[j] == b[j]);
            assert(b[j] == left[j - a.len()]);
        } else {
            assert(all[j] == right[j - b.len()]);
        }
    }
}

/// The state of a fresh search, as far as it concerns what has been explored: each reached
/// position waits or has been explored, the end waits whenever it is reached, and each recorded
/// predecessor is paveable.
pub open spec fn search_progress(
    tiles: Seq<Vec<TileDetails>>,
    unvisited: Seq<Node>,
    g: Map<u32, i32>,
    cf: Map<u32, Position>,
    end: Position,
) -> bool {
    &&& forall|p: Position| #[trigger] g.dom().contains(pos_key(p)) ==> waiting(unvisited, p) || explored_ok(tiles, g, p)
    &&& g.dom().contains(pos_key(end)) ==> waiting(unvisited, end)
    &&& forall|k: u32| #[trigger] cf.dom().contains(k) ==> paveable(tiles, cf[k])
}

/// `search_progress`, except that the position `cur` being explored need not be explored yet.
pub open spec fn search_progress_but(
    tiles: Seq<Vec<TileDetails>>,
    unvisited: Seq<Node>,
    g: Map<u32, i32>,
    cf: Map<u32, Position>,
    end: Position,
    cur: Position,
) -> bool {
    &&& forall|p: Position| #[trigger] g.dom().contains(pos_key(p)) ==> p == cur || waiting(unvisited, p) || explored_ok(tiles, g, p)
    &&& g.dom().contains(pos_key(end)) ==> waiting(unvisited, end)
    &&& forall|k: u32| #[trigger] cf.dom().contains(k) ==> paveable(tiles, cf[k])
}

proof fn lemma_fresh_invariants(
    start: Position,
    unvisited: Seq<Node>,
    g: Map<u32, i32>,
    cf: Map<u32, Position>,
    tiles: Seq<Vec<TileDetails>>,
    end: Position,
)
    requires
        unvisited == seq![Node { position: start, score: 0 }],
        g == Map::<u32, i32>::empty().insert(pos_key(start), 0),
        cf == Map::<u32, Position>::empty(),
    ensures
        search_progress(tiles, unvisited, g, cf, end),
{
    assert(unvisited[0].position == start);
    assert forall|p: Position| #[trigger] g.dom().contains(pos_key(p)) implies waiting(unvisited, p) || explored_ok(tiles, g, p) by {
        lemma_pos_key_injective(p, start);
    }
    if g.dom().contains(pos_key(end)) {
        lemma_pos_key_injective(end, start);
    }
}

/// Taking one node out of the waiting list leaves every other position waiting as before.
proof fn lemma_pop_waiting(u: Seq<Node>, i: int)
    requires
        0 <= i < u.len(),
    ensures
        forall|q: Position| q != u[i].position ==> (#[trigger] waiting(u.remove(i), q) == waiting(u, q)),
{
    assert forall|q: Position| q != u[i].position implies (#[trigger] waiting(u.remove(i), q) == waiting(u, q)) by {
        if waiting(u, q) {
            let j = choose|j: int| 0 <= j < u.len() && #[trigger] u[j].position == q;
            if j < i {
                assert(u.remove(i)[j] == u[j]);
            } else {
                assert(j != i);
                assert(u.remove(i)[j - 1] == u[j]);
            }
        }
        if waiting(u.remove(i), q) {
            let j = choose|j: int| 0 <= j < u.remove(i).len() && #[trigger] u.remove(i)[j].position == q;
            if j < i {
                assert(u.remove(i)[j] == u[j]);
            } else {
                assert(u.remove(i)[j] == u[j + 1]);
            }
        }
    }
}

/// Relaxing a neighbour of the position being explored keeps the progress of the search.
proof fn lemma_relax_keeps_progress(
    tiles: Seq<Vec<TileDetails>>,
    u: Seq<Node>,
    g: Map<u32, i32>,
    cf: Map<u32, Position>,
    u2: Seq<Node>,
    g2: Map<u32, i32>,
    cf2: Map<u32, Position>,
    end: Position,
    cur: Position,
    cur_g: i32,
    n: Position,
)
    requires
        search_progress_but(tiles, u, g, cf, end, cur),
        paveable(tiles, cur),
        adjacent(cur, n),
        g.dom().contains(pos_key(cur)),
        cur_g == g[pos_key(cur)],
        forall|k: u32| #[trigger] g.dom().contains(k) ==> 0 <= g[k] < unreached_score(),
        ({
            let improved = cur_g + 1 < score_or_unreached(g, pos_key(n) as int);
            &&& g2 == if improved { g.insert(pos_key(n), (cur_g + 1) as i32) } else { g }
            &&& cf2 == if improved { cf.insert(pos_key(n), cur) } else { cf }
            &&& forall|q: Position| #[trigger] waiting(u2, q) == (waiting(u, q) || (improved && q == n))
        }),
    ensures
        search_progress_but(tiles, u2, g2, cf2, end, cur),
        g2.dom().contains(pos_key(n)) || cur_g >= unreached_score() - 1,
        cur_g < unreached_score() - 1 ==> g2.dom().contains(pos_key(n)) && g2[pos_key(n)] <= cur_g + 1,
        forall|k: u32| #[trigger] g.dom().contains(k) ==> g2.dom().contains(k) && g2[k] <= g[k],
{
    let improved = cur_g + 1 < score_or_unreached(g, pos_key(n) as int);
    let kn = pos_key(n);
    assert forall|k: u32| #[trigger] g.dom().contains(k) implies g2.dom().contains(k) && g2[k] <= g[k] by {
        if improved && k == kn {
        }
    }
    assert forall|p: Position| #[trigger] g2.dom().contains(pos_key(p)) implies p == cur || waiting(u2, p) || explored_ok(tiles, g2, p) by {
        lemma_pos_key_injective(p, n);
        if p == n && improved {
            assert(waiting(u2, p));
        } else {
            assert(g.dom().contains(pos_key(p)));
            if p != cur && !waiting(u, p) {
                assert(explored_ok(tiles, g, p));
                assert(g2[pos_key(p)] == g[pos_key(p)]);
                if paveable(tiles, p) && g2[pos_key(p)] < unreached_score() - 1 {
                    assert forall|m: Position| #[trigger] adjacent(p, m) implies g2.dom().contains(pos_key(m)) && g2[pos_key(m)] <= g2[pos_key(p)] + 1 by {
                        assert(g.dom().contains(pos_key(m)));
                    }
                }
            }
            if waiting(u, p) {
                assert(waiting(u2, p));
            }
        }
    }
    if g2.dom().contains(pos_key(end)) {
        lemma_pos_key_injective(end, n);
        if !(improved && end == n) {
            assert(g.dom().contains(pos_key(end)));
        }
    }
    assert forall|k: u32| #[trigger] cf2.dom().contains(k) implies paveable(tiles, cf2[k]) by {
        if !(improved && k == kn) {
            assert(cf.dom().contains(k));
        }
    }
}

/// Every position adjacent to another is among its listed neighbours.
proof fn lemma_adjacent_listed(p: Position, n: Position)
    requires
        adjacent(p, n),
    ensures
        neighbors_of(p).contains(n),
{
    let up: Seq<Position> = if p.y > 0 { seq![Position { x: p.x, y: (p.y - 1) as u16 }] } else { seq![] };
    let down: Seq<Position> = if p.y < u16::MAX { seq![Position { x: p.x, y: (p.y + 1) as u16 }] } else { seq![] };
    let left: Seq<Position> = if p.x > 0 { seq![Position { x: (p.x - 1) as u16, y: p.y }] } else { seq![] };
    let right: Seq<Position> = if p.x < u16::MAX { seq![Position { x: (p.x + 1) as u16, y: p.y }] } else { seq![] };
    let a = up + down;
    let b = a + left;
    let all = b + right;
    assert(all == neighbors_of(p));
    if p.x == n.x && p.y == n.y + 1 {
        assert(all[0] == n);
    } else if p.x == n.x && n.y == p.y + 1 {
        assert(all[up.len() as int] == n);
    } else if p.y == n.y && p.x == n.x + 1 {
        assert(all[a.len() as int] == n);
    } else {
        assert(all[b.len() as int] == n);
    }
}

/// Once every listed neighbour of the position being explored has been relaxed, that position
/// is explored.
proof fn lemma_close_current(
    tiles: Seq<Vec<TileDetails>>,
    u: Seq<Node>,
    g: Map<u32, i32>,
    cf: Map<u32, Position>,
    end: Position,
    cur: Position,
    nbrs: Seq<Position>,
)
    requires
        search_progress_but(tiles, u, g, cf, end, cur),
        nbrs == neighbors_of(cur),
        g.dom().contains(pos_key(cur)),
        forall|j: int| 0 <= j < nbrs.len() ==> g[pos_key(cur)] < unreached_score() - 1 ==> {
            &&& g.dom().contains(pos_key(#[trigger] nbrs[j]))
            &&& g[pos_key(nbrs[j])] <= g[pos_key(cur)] + 1
        },
    ensures
        search_progress(tiles, u, g, cf, end),
{
    if paveable(tiles, cur) && g[pos_key(cur)] < unreached_score() - 1 {
        assert forall|m: Position| #[trigger] adjacent(cur, m) implies g.dom().contains(pos_key(m)) && g[pos_key(m)] <= g[pos_key(cur)] + 1 by {
            lemma_adjacent_listed(cur, m);
            let j = choose|j: int| 0 <= j < nbrs.len() && nbrs[j] == m;
            assert(g.dom().contains(pos_key(nbrs[j])));
        }
    }
    assert(explored_ok(tiles, g, cur));
}

/// In an explored search that reached the start at cost 0, every position of a walkable route
/// of at most 32767 positions is reached, the `i`th at a cost of at most `i`.
proof fn lemma_route_prefix(tiles: Seq<Vec<TileDetails>>, g: Map<u32, i32>, route: Seq<Position>, start: Position, end: Position, i: int)
    requires
        g.dom().contains(pos_key(start)),
        g[pos_key(start)] == 0,
        forall|p: Position| #[trigger] g.dom().contains(pos_key(p)) ==> explored_ok(tiles, g, p),
        walkable_route(tiles, route, start, end),
        route.len() <= 32767,
        0 <= i < route.len(),
    ensures
        g.dom().contains(pos_key(route[i])),
        g[pos_key(route[i])] <= i,
    decreases i,
{
    if i > 0 {
        lemma_route_prefix(tiles, g, route, start, end, i - 1);
        assert(paveable(tiles, route[i - 1]));
        assert(adjacent(route[i - 1], route[i - 1 + 1]));
        assert(explored_ok(tiles, g, route[i - 1]));
    }
}

/// In an explored search that reached the start at cost 0, the end of every walkable route of
/// at most 32767 positions is reached.
proof fn lemma_route_reached(tiles: Seq<Vec<TileDetails>>, g: Map<u32, i32>, route: Seq<Position>, start: Position, end: Position)
    requires
        g.dom().contains(pos_key(start)),
        g[pos_key(start)] == 0,
        forall|p: Position| #[trigger] g.dom().contains(pos_key(p)) ==> explored_ok(tiles, g, p),
        walkable_route(tiles, route, start, end),
        route.len() <= 32767,
    ensures
        g.dom().contains(pos_key(end)),
{
    lemma_route_prefix(tiles, g, route, start, end, route.len() - 1);
}

} // verus!
