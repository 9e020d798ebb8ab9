//! The reasoning behind the breadth-first search: what holds of it at every
//! moment, that each of its steps keeps that, and what follows once it has
//! ended.

use crate::direction::Direction;
use crate::maze::{lemma_slot, lemma_wrap_in_grid, Grid, MAX_SIDE};
use crate::path::{
    comes_before, is_best, is_open, leads, lemma_last_move_decides, lemma_order_is_transitive,
    lemma_push_keeps_not_after, lemma_push_keeps_order, lemma_walk_push, not_after, reachable,
    trace, walk_end,
};
use crate::vec2::Vec2;
use vstd::prelude::*;
use vstd::set_lib::{lemma_int_range, lemma_len_subset, set_int_range};

verus! {

/// Mark of a cell that the search has not reached.
pub const UNKNOWN: i32 = -1;

/// A grid has no more cells than a square of the longest side.
pub proof fn lemma_grid_size(g: Grid)
    requires
        g.wf(),
    ensures
        0 < g.cells.len() <= MAX_SIDE * MAX_SIDE,
{
    assert(0 < g.width * g.height <= MAX_SIDE * MAX_SIDE) by (nonlinear_arith)
        requires
            0 < g.width <= MAX_SIDE,
            0 < g.height <= MAX_SIDE,
    ;
}

/// Two cells of the grid with one slot are one cell.
pub proof fn lemma_slot_names_one_cell(g: Grid, p: Vec2, q: Vec2)
    requires
        g.wf(),
        g.contains(p),
        g.contains(q),
        g.slot(p) == g.slot(q),
    ensures
        p == q,
{
    lemma_slot(g, p);
    lemma_slot(g, q);
}

/// A breadth-first search at some moment: the two tables it fills, the cells
/// found so far in the order found, and for each of them the moves that led
/// to it, the place of the cell it was found from and the move made there.
pub struct Progress {
    pub distances: Seq<i32>,
    pub routes: Seq<Seq<Vec2>>,
    pub order: Seq<Vec2>,
    pub place: Seq<int>,
    pub found: Set<int>,
    pub moves: Seq<Seq<Direction>>,
    pub parent: Seq<int>,
    pub via: Seq<Direction>,
}

impl Progress {
    /// The tables say of slot `i` what the search knows of its cell.
    pub open spec fn slot_ok(self, g: Grid, source: Vec2, i: int) -> bool {
        if self.place[i] < 0 {
            &&& self.place[i] == -1
            &&& self.distances[i] == UNKNOWN
            &&& self.routes[i] == Seq::<Vec2>::empty()
        } else {
            let k = self.place[i];
            &&& k < self.order.len()
            &&& g.slot(self.order[k]) == i
            &&& self.distances[i] == self.moves[k].len()
            &&& self.routes[i] == trace(g, source, self.moves[k])
        }
    }

    pub open spec fn tables_ok(self, g: Grid, source: Vec2) -> bool {
        &&& self.distances.len() == g.cells.len()
        &&& self.routes.len() == g.cells.len()
        &&& self.place.len() == g.cells.len()
        &&& self.found.finite()
        &&& self.found.len() == self.order.len()
        &&& forall|i: int| self.found.contains(i) <==> 0 <= i < g.cells.len() && self.place[i] >= 0
        &&& forall|i: int| 0 <= i < g.cells.len() ==> #[trigger] self.slot_ok(g, source, i)
    }

    /// The cell at place `k` is a cell of the grid, the moves kept for it
    /// lead to it, and its slot points back to `k`.
    pub open spec fn entry_ok(self, g: Grid, source: Vec2, k: int) -> bool {
        &&& g.contains(self.order[k])
        &&& self.place[g.slot(self.order[k])] == k
        &&& leads(g, source, self.moves[k], self.order[k])
        &&& self.moves[k].len() <= k
    }

    pub open spec fn entries_ok(self, g: Grid, source: Vec2) -> bool {
        &&& self.order.len() >= 1
        &&& self.moves.len() == self.order.len()
        &&& self.parent.len() == self.order.len()
        &&& self.via.len() == self.order.len()
        &&& self.order[0] == source
        &&& self.moves[0] == Seq::<Direction>::empty()
        &&& forall|k: int| 0 <= k < self.order.len() ==> #[trigger] self.entry_ok(g, source, k)
    }

    /// Cells found later have ways that come later.
    pub open spec fn ordered(self) -> bool {
        forall|j: int, k: int|
            0 <= j < k < self.order.len() ==> comes_before(
                #[trigger] self.moves[j],
                #[trigger] self.moves[k],
            )
    }

    /// The search has already tried move `d` from the cell at place `k`.
    pub open spec fn tried(head: int, turn: int, k: int, d: Direction) -> bool {
        k < head || (k == head && d.rank() < turn)
    }

    /// The way to the cell at place `k` is the way to the cell it was found
    /// from and one move more, a move already tried.
    pub open spec fn entry_from_parent(self, head: int, turn: int, k: int) -> bool {
        &&& 0 <= self.parent[k] < self.order.len()
        &&& self.moves[k] == self.moves[self.parent[k]].push(self.via[k])
        &&& Self::tried(head, turn, self.parent[k], self.via[k])
    }

    pub open spec fn lineage(self, head: int, turn: int) -> bool {
        forall|k: int| 1 <= k < self.order.len() ==> #[trigger] self.entry_from_parent(head, turn, k)
    }

    /// The cell that move `d` enters from the cell at place `k` has been
    /// found, by a way that does not come after this one.
    pub open spec fn settled(self, g: Grid, k: int, d: Direction) -> bool {
        let i = g.slot(g.step(self.order[k], d));
        self.place[i] >= 0 && not_after(self.moves[self.place[i]], self.moves[k].push(d))
    }

    pub open spec fn closed(self, g: Grid, head: int, turn: int) -> bool {
        forall|k: int, d: Direction|
            0 <= k < self.order.len() && Self::tried(head, turn, k, d) && g.is_walkable(
                g.step(self.order[k], d),
            ) ==> #[trigger] self.settled(g, k, d)
    }

    /// What holds of a search that has tried every move from the cells
    /// before place `head`, and from the cell at `head` the moves before
    /// `turn`.
    pub open spec fn inv(self, g: Grid, source: Vec2, head: int, turn: int) -> bool {
        &&& g.wf()
        &&& g.contains(source)
        &&& 0 <= head <= self.order.len()
        &&& 0 <= turn <= 4
        &&& turn > 0 ==> head < self.order.len()
        &&& self.tables_ok(g, source)
        &&& self.entries_ok(g, source)
        &&& self.ordered()
        &&& self.lineage(head, turn)
        &&& self.closed(g, head, turn)
    }

    /// The search before its first step: only the source is found.
    pub open spec fn start(g: Grid, source: Vec2) -> Progress {
        let n = g.cells.len();
        let at = g.slot(source);
        Progress {
            distances: Seq::new(n, |i: int| UNKNOWN).update(at, 0),
            routes: Seq::new(n, |i: int| Seq::<Vec2>::empty()),
            order: seq![source],
            place: Seq::new(n, |i: int| -1int).update(at, 0),
            found: set![at],
            moves: seq![Seq::<Direction>::empty()],
            parent: seq![0int],
            via: seq![Direction::Up],
        }
    }

    /// The search after it has found the cell that move `d` enters from the
    /// cell at place `head`.
    pub open spec fn discover(self, g: Grid, head: int, d: Direction) -> Progress {
        let from = self.order[head];
        let next = g.step(from, d);
        let here = g.slot(from);
        let there = g.slot(next);
        Progress {
            distances: self.distances.update(there, (self.distances[here] + 1) as i32),
            routes: self.routes.update(there, self.routes[here].push(next)),
            order: self.order.push(next),
            place: self.place.update(there, self.order.len() as int),
            found: self.found.insert(there),
            moves: self.moves.push(self.moves[head].push(d)),
            parent: self.parent.push(head),
            via: self.via.push(d),
        }
    }
}

/// The search starts in a state that `inv` accepts.
pub proof fn lemma_start(g: Grid, source: Vec2)
    requires
        g.wf(),
        g.contains(source),
    ensures
        Progress::start(g, source).inv(g, source, 0, 0),
{
    let p = Progress::start(g, source);
    lemma_slot(g, source);
    assert(p.found.len() == 1);
    assert forall|i: int| 0 <= i < g.cells.len() implies #[trigger] p.slot_ok(g, source, i) by {
        if i == g.slot(source) {
            assert(p.routes[i] =~= trace(g, source, p.moves[0]));
        }
    }
    assert(p.entry_ok(g, source, 0));
}

/// No more cells are found than the grid has.
pub proof fn lemma_found_fit(p: Progress, g: Grid, source: Vec2)
    requires
        g.wf(),
        p.tables_ok(g, source),
    ensures
        p.order.len() <= g.cells.len(),
{
    lemma_int_range(0, g.cells.len() as int);
    lemma_len_subset(p.found, set_int_range(0, g.cells.len() as int));
}

/// A move from the cell at `head` into a wall leaves nothing to do.
pub proof fn lemma_blocked(p: Progress, g: Grid, source: Vec2, head: int, d: Direction)
    requires
        p.inv(g, source, head, d.rank()),
        head < p.order.len(),
        !g.is_walkable(g.step(p.order[head], d)),
    ensures
        p.inv(g, source, head, d.rank() + 1),
{
    let turn = d.rank();
    assert forall|k: int| 1 <= k < p.order.len() implies #[trigger] p.entry_from_parent(
        head,
        turn + 1,
        k,
    ) by {
        assert(p.entry_from_parent(head, turn, k));
    }
    assert forall|k: int, e: Direction|
        0 <= k < p.order.len() && Progress::tried(head, turn + 1, k, e) && g.is_walkable(
            g.step(p.order[k], e),
        ) implies #[trigger] p.settled(g, k, e) by {
        if Progress::tried(head, turn, k, e) {
        } else {
            assert(e == d);
        }
    }
}

/// A move from the cell at `head` into a cell found before: the way kept
/// for that cell does not come after the new one, so it is no longer.
pub proof fn lemma_found_before(p: Progress, g: Grid, source: Vec2, head: int, d: Direction)
    requires
        p.inv(g, source, head, d.rank()),
        head < p.order.len(),
        p.place[g.slot(g.step(p.order[head], d))] >= 0,
    ensures
        p.settled(g, head, d),
        p.distances[g.slot(g.step(p.order[head], d))] <= p.distances[g.slot(p.order[head])] + 1,
        p.distances[g.slot(g.step(p.order[head], d))] >= 0,
        p.inv(g, source, head, d.rank() + 1),
{
    let turn = d.rank();
    let from = p.order[head];
    let next = g.step(from, d);
    let there = g.slot(next);
    let k = p.place[there];
    let new_way = p.moves[head].push(d);
    assert(p.entry_ok(g, source, head));
    lemma_wrap_in_grid(g, from.x + d.dx(), from.y + d.dy());
    lemma_slot(g, next);
    lemma_slot(g, from);
    assert(p.slot_ok(g, source, there));
    assert(p.slot_ok(g, source, g.slot(from)));
    if k == 0 {
        if new_way.len() == 0 {
        }
        assert(comes_before(p.moves[0], new_way));
    } else {
        assert(p.entry_from_parent(head, turn, k));
        let up = p.parent[k];
        if up < head {
            assert(comes_before(p.moves[up], p.moves[head]));
            lemma_push_keeps_order(p.moves[up], p.moves[head], p.via[k], d);
        } else {
            lemma_last_move_decides(p.moves[head], p.via[k], d);
        }
    }
    assert(not_after(p.moves[k], new_way));
    assert(p.settled(g, head, d));
    assert forall|j: int| 1 <= j < p.order.len() implies #[trigger] p.entry_from_parent(
        head,
        turn + 1,
        j,
    ) by {
        assert(p.entry_from_parent(head, turn, j));
    }
    assert forall|j: int, e: Direction|
        0 <= j < p.order.len() && Progress::tried(head, turn + 1, j, e) && g.is_walkable(
            g.step(p.order[j], e),
        ) implies #[trigger] p.settled(g, j, e) by {
        if Progress::tried(head, turn, j, e) {
        } else {
            assert(e == d);
        }
    }
}

/// A move from the cell at `head` into a walkable cell not found before:
/// with that cell added, the search is again in a state that `inv` accepts.
pub proof fn lemma_discover(p: Progress, g: Grid, source: Vec2, head: int, d: Direction)
    requires
        p.inv(g, source, head, d.rank()),
        head < p.order.len(),
        g.is_walkable(g.step(p.order[head], d)),
        p.place[g.slot(g.step(p.order[head], d))] < 0,
    ensures
        p.discover(g, head, d).inv(g, source, head, d.rank() + 1),
        p.distances[g.slot(p.order[head])] == p.moves[head].len(),
        0 <= p.distances[g.slot(p.order[head])] < g.cells.len(),
        p.order.len() < g.cells.len(),
{
    let turn = d.rank();
    let from = p.order[head];
    let next = g.step(from, d);
    let here = g.slot(from);
    let there = g.slot(next);
    let q = p.discover(g, head, d);
    let fresh = p.order.len() as int;
    let new_way = p.moves[head].push(d);
    assert(p.entry_ok(g, source, head));
    lemma_wrap_in_grid(g, from.x + d.dx(), from.y + d.dy());
    lemma_slot(g, next);
    lemma_slot(g, from);
    assert(p.slot_ok(g, source, there));
    assert(p.slot_ok(g, source, here));
    lemma_walk_push(g, source, p.moves[head], d);
    lemma_found_fit(p, g, source);
    lemma_grid_size(g);
    assert(q.order[fresh] == next);
    assert(q.moves[fresh] == new_way);
    assert(leads(g, source, new_way, next));
    assert(p.distances[here] == p.moves[head].len());

    // the tables
    assert(!p.found.contains(there));
    assert(q.found.len() == q.order.len());
    assert(q.found.subset_of(set_int_range(0, g.cells.len() as int)));
    lemma_int_range(0, g.cells.len() as int);
    lemma_len_subset(q.found, set_int_range(0, g.cells.len() as int));
    assert forall|i: int| 0 <= i < g.cells.len() implies #[trigger] q.slot_ok(g, source, i) by {
        assert(p.slot_ok(g, source, i));
        if i == there {
            assert(q.place[i] == fresh);
            assert(q.distances[i] == q.moves[fresh].len());
            assert(q.routes[i] == trace(g, source, q.moves[fresh]));
        } else if p.place[i] >= 0 {
            assert(q.order[p.place[i]] == p.order[p.place[i]]);
            assert(q.moves[p.place[i]] == p.moves[p.place[i]]);
        }
    }
    // the entries
    assert forall|k: int| 0 <= k < q.order.len() implies #[trigger] q.entry_ok(g, source, k) by {
        if k < fresh {
            assert(p.entry_ok(g, source, k));
            lemma_slot(g, p.order[k]);
            assert(g.slot(p.order[k]) != there);
            assert(q.order[k] == p.order[k]);
            assert(q.moves[k] == p.moves[k]);
        } else {
            assert(q.place[there] == fresh);
        }
    }
    // the order
    assert forall|j: int, k: int| 0 <= j < k < q.order.len() implies comes_before(
        #[trigger] q.moves[j],
        #[trigger] q.moves[k],
    ) by {
        if k < fresh {
            assert(comes_before(p.moves[j], p.moves[k]));
        } else if j == 0 {
        } else {
            assert(p.entry_from_parent(head, turn, j));
            let up = p.parent[j];
            if up < head {
                assert(comes_before(p.moves[up], p.moves[head]));
                lemma_push_keeps_order(p.moves[up], p.moves[head], p.via[j], d);
            } else {
                lemma_last_move_decides(p.moves[head], p.via[j], d);
            }
        }
    }
    // where each way comes from
    assert forall|k: int| 1 <= k < q.order.len() implies #[trigger] q.entry_from_parent(
        head,
        turn + 1,
        k,
    ) by {
        if k < fresh {
            assert(p.entry_from_parent(head, turn, k));
        }
    }
    // the moves tried
    assert forall|k: int, e: Direction|
        0 <= k < q.order.len() && Progress::tried(head, turn + 1, k, e) && g.is_walkable(
            g.step(q.order[k], e),
        ) implies #[trigger] q.settled(g, k, e) by {
        assert(p.entry_ok(g, source, k));
        let cell = g.step(p.order[k], e);
        let i = g.slot(cell);
        lemma_wrap_in_grid(g, p.order[k].x + e.dx(), p.order[k].y + e.dy());
        lemma_slot(g, cell);
        assert(q.order[k] == p.order[k]);
        assert(q.moves[k] == p.moves[k]);
        if Progress::tried(head, turn, k, e) {
            assert(p.settled(g, k, e));
            assert(p.slot_ok(g, source, i));
            assert(i != there);
            assert(q.moves[p.place[i]] == p.moves[p.place[i]]);
        } else {
            assert(e == d);
            assert(k == head);
            assert(q.place[there] == fresh);
        }
    }
}

/// When every move from the cell at `head` has been tried, the search goes
/// on to the next cell.
pub proof fn lemma_next_cell(p: Progress, g: Grid, source: Vec2, head: int)
    requires
        p.inv(g, source, head, 4),
    ensures
        p.inv(g, source, head + 1, 0),
{
    assert forall|k: int| 1 <= k < p.order.len() implies #[trigger] p.entry_from_parent(
        head + 1,
        0,
        k,
    ) by {
        assert(p.entry_from_parent(head, 4, k));
    }
    assert forall|k: int, e: Direction|
        0 <= k < p.order.len() && Progress::tried(head + 1, 0, k, e) && g.is_walkable(
            g.step(p.order[k], e),
        ) implies #[trigger] p.settled(g, k, e) by {
        assert(Progress::tried(head, 4, k, e));
    }
}

/// Once every found cell has had its moves tried, each open walk from the
/// source ends on a found cell, and the way kept for that cell does not come
/// after the walk.
pub proof fn lemma_every_walk_is_matched(
    p: Progress,
    g: Grid,
    source: Vec2,
    way: Seq<Direction>,
)
    requires
        p.inv(g, source, p.order.len() as int, 0),
        is_open(g, source, way),
    ensures
        g.contains(walk_end(g, source, way)),
        p.place[g.slot(walk_end(g, source, way))] >= 0,
        not_after(p.moves[p.place[g.slot(walk_end(g, source, way))]], way),
    decreases way.len(),
{
    let full = p.order.len() as int;
    if way.len() == 0 {
        assert(p.entry_ok(g, source, 0));
        assert(way =~= p.moves[0]);
    } else {
        let front = way.drop_last();
        let d = way.last();
        lemma_every_walk_is_matched(p, g, source, front);
        let before = walk_end(g, source, front);
        let k = p.place[g.slot(before)];
        lemma_slot(g, before);
        assert(p.slot_ok(g, source, g.slot(before)));
        assert(p.entry_ok(g, source, k));
        lemma_slot_names_one_cell(g, before, p.order[k]);
        let end = walk_end(g, source, way);
        lemma_wrap_in_grid(g, before.x + d.dx(), before.y + d.dy());
        assert(Progress::tried(full, 0, k, d));
        assert(p.settled(g, k, d));
        lemma_push_keeps_not_after(p.moves[k], front, d);
        assert(front.push(d) =~= way);
        lemma_order_is_transitive(p.moves[p.place[g.slot(end)]], p.moves[k].push(d), way);
    }
}

/// Once every found cell has had its moves tried, the cells found are the
/// cells that can be reached, and the way kept for each is the preferred one.
pub proof fn lemma_finished(p: Progress, g: Grid, source: Vec2, target: Vec2)
    requires
        p.inv(g, source, p.order.len() as int, 0),
        g.contains(target),
    ensures
        p.place[g.slot(target)] >= 0 <==> reachable(g, source, target),
        p.place[g.slot(target)] >= 0 ==> is_best(
            g,
            source,
            target,
            p.moves[p.place[g.slot(target)]],
        ),
{
    let at = g.slot(target);
    lemma_slot(g, target);
    assert(p.slot_ok(g, source, at));
    if p.place[at] >= 0 {
        let k = p.place[at];
        assert(p.entry_ok(g, source, k));
        lemma_slot_names_one_cell(g, target, p.order[k]);
        assert(leads(g, source, p.moves[k], target));
        assert forall|other: Seq<Direction>| #[trigger]
            leads(g, source, other, target) implies not_after(p.moves[k], other) by {
            lemma_every_walk_is_matched(p, g, source, other);
        }
    } else {
        if reachable(g, source, target) {
            let way = choose|way: Seq<Direction>| leads(g, source, way, target);
            lemma_every_walk_is_matched(p, g, source, way);
        }
    }
}

/// From any state that `inv` accepts the search can be carried to its end:
/// a state in which every found cell has had its moves tried.
pub proof fn lemma_search_ends(p: Progress, g: Grid, source: Vec2, head: int, turn: int) -> (end:
    Progress)
    requires
        p.inv(g, source, head, turn),
    ensures
        end.inv(g, source, end.order.len() as int, 0),
    decreases g.cells.len() - head, 4 - turn,
{
    lemma_found_fit(p, g, source);
    if head == p.order.len() {
        p
    } else if turn == 4 {
        lemma_next_cell(p, g, source, head);
        lemma_search_ends(p, g, source, head + 1, 0)
    } else {
        let d = Direction::of_rank(turn);
        let next = g.step(p.order[head], d);
        assert(p.entry_ok(g, source, head));
        lemma_wrap_in_grid(g, p.order[head].x + d.dx(), p.order[head].y + d.dy());
        lemma_slot(g, next);
        if p.place[g.slot(next)] >= 0 {
            lemma_found_before(p, g, source, head, d);
            lemma_search_ends(p, g, source, head, turn + 1)
        } else if g.is_walkable(next) {
            lemma_discover(p, g, source, head, d);
            lemma_search_ends(p.discover(g, head, d), g, source, head, turn + 1)
        } else {
            lemma_blocked(p, g, source, head, d);
            lemma_search_ends(p, g, source, head, turn + 1)
        }
    }
}

} // verus!
