//! Walks on the grid, written as sequences of moves, and the order that
//! picks one way between two cells: the shortest, and of the shortest the
//! one that takes the earlier direction where they first part.

use crate::direction::Direction;
use crate::maze::{lemma_wrap_in_grid, Grid};
use crate::vec2::Vec2;
use vstd::prelude::*;

verus! {

/// The cell where a sequence of moves from `source` ends.
pub open spec fn walk_end(g: Grid, source: Vec2, moves: Seq<Direction>) -> Vec2
    decreases moves.len(),
{
    if moves.len() == 0 {
        source
    } else {
        g.step(walk_end(g, source, moves.drop_last()), moves.last())
    }
}

/// The cells that a sequence of moves from `source` enters, in order. The
/// source itself is not among them unless the walk comes back to it.
pub open spec fn trace(g: Grid, source: Vec2, moves: Seq<Direction>) -> Seq<Vec2>
    decreases moves.len(),
{
    if moves.len() == 0 {
        Seq::empty()
    } else {
        trace(g, source, moves.drop_last()).push(walk_end(g, source, moves))
    }
}

/// Every cell that the moves enter is walkable.
pub open spec fn is_open(g: Grid, source: Vec2, moves: Seq<Direction>) -> bool
    decreases moves.len(),
{
    moves.len() == 0 || (is_open(g, source, moves.drop_last()) && g.is_walkable(
        walk_end(g, source, moves),
    ))
}

/// The moves are a way from `source` to `target` through walkable cells.
pub open spec fn leads(g: Grid, source: Vec2, moves: Seq<Direction>, target: Vec2) -> bool {
    is_open(g, source, moves) && walk_end(g, source, moves) == target
}

pub open spec fn reachable(g: Grid, source: Vec2, target: Vec2) -> bool {
    exists|moves: Seq<Direction>| leads(g, source, moves, target)
}

/// `a` and `b` hold the same moves at every place before `k`.
pub open spec fn agree_before(a: Seq<Direction>, b: Seq<Direction>, k: int) -> bool {
    forall|j: int| 0 <= j < k ==> a[j] == b[j]
}

/// At the first place where they differ, `a` holds the move that is visited
/// earlier.
pub open spec fn turns_off_first(a: Seq<Direction>, b: Seq<Direction>) -> bool {
    exists|k: int|
        0 <= k < a.len() && k < b.len() && #[trigger] agree_before(a, b, k) && a[k].rank()
            < b[k].rank()
}

/// `a` is preferred to `b`: it is shorter, or as long and earlier in the
/// visiting order.
pub open spec fn comes_before(a: Seq<Direction>, b: Seq<Direction>) -> bool {
    a.len() < b.len() || (a.len() == b.len() && turns_off_first(a, b))
}

pub open spec fn not_after(a: Seq<Direction>, b: Seq<Direction>) -> bool {
    a == b || comes_before(a, b)
}

/// `moves` is the preferred way from `source` to `target`: none is shorter,
/// and of the shortest none is earlier in the visiting order.
pub open spec fn is_best(g: Grid, source: Vec2, target: Vec2, moves: Seq<Direction>) -> bool {
    &&& leads(g, source, moves, target)
    &&& forall|other: Seq<Direction>| #[trigger]
        leads(g, source, other, target) ==> not_after(moves, other)
}

pub open spec fn best_moves(g: Grid, source: Vec2, target: Vec2) -> Seq<Direction> {
    choose|moves: Seq<Direction>| is_best(g, source, target, moves)
}

/// The cells of the preferred way from `source` to `target`, `source` left
/// out and `target` last; empty where there is no way.
pub open spec fn best_route(g: Grid, source: Vec2, target: Vec2) -> Seq<Vec2> {
    if reachable(g, source, target) {
        trace(g, source, best_moves(g, source, target))
    } else {
        Seq::empty()
    }
}

/// The number of moves of a shortest way from `source` to `target`.
pub open spec fn distance(g: Grid, source: Vec2, target: Vec2) -> Option<nat> {
    if reachable(g, source, target) {
        Some(best_moves(g, source, target).len())
    } else {
        None
    }
}

/// One more move extends the walk by the cell it enters.
pub proof fn lemma_walk_push(g: Grid, source: Vec2, moves: Seq<Direction>, d: Direction)
    ensures
        walk_end(g, source, moves.push(d)) == g.step(walk_end(g, source, moves), d),
        trace(g, source, moves.push(d)) == trace(g, source, moves).push(
            g.step(walk_end(g, source, moves), d),
        ),
        is_open(g, source, moves.push(d)) == (is_open(g, source, moves) && g.is_walkable(
            g.step(walk_end(g, source, moves), d),
        )),
{
    assert(moves.push(d).drop_last() =~= moves);
}

/// A walk enters as many cells as it has moves, and the walk after `i + 1`
/// moves stands on the cell entered at place `i`.
pub proof fn lemma_trace_cells(g: Grid, source: Vec2, moves: Seq<Direction>)
    ensures
        trace(g, source, moves).len() == moves.len(),
        forall|i: int|
            0 <= i < moves.len() ==> #[trigger] trace(g, source, moves)[i] == walk_end(
                g,
                source,
                moves.take(i + 1),
            ),
    decreases moves.len(),
{
    if moves.len() > 0 {
        let front = moves.drop_last();
        lemma_trace_cells(g, source, front);
        assert forall|i: int| 0 <= i < moves.len() implies #[trigger] trace(g, source, moves)[i]
            == walk_end(g, source, moves.take(i + 1)) by {
            if i < front.len() {
                assert(moves.take(i + 1) =~= front.take(i + 1));
            } else {
                assert(moves.take(i + 1) =~= moves);
            }
        }
    }
}

/// A walk on a well-formed grid never leaves it.
pub proof fn lemma_walk_stays_in_grid(g: Grid, source: Vec2, moves: Seq<Direction>)
    requires
        g.wf(),
        g.contains(source),
    ensures
        g.contains(walk_end(g, source, moves)),
    decreases moves.len(),
{
    if moves.len() > 0 {
        let before = walk_end(g, source, moves.drop_last());
        lemma_wrap_in_grid(g, before.x + moves.last().dx(), before.y + moves.last().dy());
    }
}

/// The beginning of an open walk is an open walk.
pub proof fn lemma_open_prefix(g: Grid, source: Vec2, moves: Seq<Direction>, n: int)
    requires
        is_open(g, source, moves),
        0 <= n <= moves.len(),
    ensures
        is_open(g, source, moves.take(n)),
    decreases moves.len(),
{
    if n < moves.len() {
        lemma_open_prefix(g, source, moves.drop_last(), n);
        assert(moves.drop_last().take(n) =~= moves.take(n));
    } else {
        assert(moves.take(n) =~= moves);
    }
}

/// An open walk enters walkable cells only.
pub proof fn lemma_open_walk_avoids_walls(g: Grid, source: Vec2, moves: Seq<Direction>)
    requires
        is_open(g, source, moves),
    ensures
        forall|i: int|
            0 <= i < trace(g, source, moves).len() ==> g.is_walkable(
                #[trigger] trace(g, source, moves)[i],
            ),
{
    lemma_trace_cells(g, source, moves);
    assert forall|i: int| 0 <= i < trace(g, source, moves).len() implies g.is_walkable(
        #[trigger] trace(g, source, moves)[i],
    ) by {
        lemma_open_prefix(g, source, moves, i + 1);
    }
}

/// Adding a move at the end of each keeps two ways in their order.
pub proof fn lemma_push_keeps_order(
    a: Seq<Direction>,
    b: Seq<Direction>,
    x: Direction,
    y: Direction,
)
    requires
        comes_before(a, b),
    ensures
        comes_before(a.push(x), b.push(y)),
{
    if a.len() == b.len() {
        let k = choose|k: int|
            0 <= k < a.len() && k < b.len() && #[trigger] agree_before(a, b, k) && a[k].rank()
                < b[k].rank();
        assert(agree_before(a.push(x), b.push(y), k));
    }
}

/// Of two ways that differ in the last move only, the one with the earlier
/// move comes first.
pub proof fn lemma_last_move_decides(a: Seq<Direction>, x: Direction, y: Direction)
    requires
        x.rank() < y.rank(),
    ensures
        comes_before(a.push(x), a.push(y)),
{
    assert(agree_before(a.push(x), a.push(y), a.len() as int));
}

/// The same move added to both keeps `not_after`.
pub proof fn lemma_push_keeps_not_after(a: Seq<Direction>, b: Seq<Direction>, x: Direction)
    requires
        not_after(a, b),
    ensures
        not_after(a.push(x), b.push(x)),
{
    if a != b {
        lemma_push_keeps_order(a, b, x, x);
    }
}

/// No two ways come before each other.
pub proof fn lemma_order_is_strict(a: Seq<Direction>, b: Seq<Direction>)
    ensures
        !(comes_before(a, b) && comes_before(b, a)),
        !comes_before(a, a),
{
    if comes_before(a, b) && comes_before(b, a) {
        let k = choose|k: int|
            0 <= k < a.len() && k < b.len() && #[trigger] agree_before(a, b, k) && a[k].rank()
                < b[k].rank();
        let m = choose|m: int|
            0 <= m < b.len() && m < a.len() && #[trigger] agree_before(b, a, m) && b[m].rank()
                < a[m].rank();
        if k < m {
            assert(b[k] == a[k]);
        } else if m < k {
            assert(a[m] == b[m]);
        }
    }
    if comes_before(a, a) {
        let k = choose|k: int|
            0 <= k < a.len() && k < a.len() && #[trigger] agree_before(a, a, k) && a[k].rank()
                < a[k].rank();
    }
}

/// The order of ways is transitive.
pub proof fn lemma_order_is_transitive(a: Seq<Direction>, b: Seq<Direction>, c: Seq<Direction>)
    requires
        not_after(a, b),
        not_after(b, c),
    ensures
        not_after(a, c),
        comes_before(a, b) || comes_before(b, c) ==> comes_before(a, c),
{
    if a != b && b != c && a.len() == b.len() && b.len() == c.len() {
        let k = choose|k: int|
            0 <= k < a.len() && k < b.len() && #[trigger] agree_before(a, b, k) && a[k].rank()
                < b[k].rank();
        let m = choose|m: int|
            0 <= m < b.len() && m < c.len() && #[trigger] agree_before(b, c, m) && b[m].rank()
                < c[m].rank();
        let n = if k <= m {
            k
        } else {
            m
        };
        assert(agree_before(a, c, n)) by {
            assert forall|j: int| 0 <= j < n implies a[j] == c[j] by {
                assert(a[j] == b[j]);
                assert(b[j] == c[j]);
            }
        }
        if k < m {
            assert(b[k] == c[k]);
        } else if m < k {
            assert(a[m] == b[m]);
        }
        assert(a[n].rank() < c[n].rank());
    }
}

/// There is one preferred way at most.
pub proof fn lemma_best_is_unique(
    g: Grid,
    source: Vec2,
    target: Vec2,
    a: Seq<Direction>,
    b: Seq<Direction>,
)
    requires
        is_best(g, source, target, a),
        is_best(g, source, target, b),
    ensures
        a == b,
{
    assert(leads(g, source, a, target));
    assert(leads(g, source, b, target));
    lemma_order_is_strict(a, b);
}

/// Where a preferred way is known, it is the one that `best_moves` names, and
/// `best_route` and `distance` are its cells and its length.
pub proof fn lemma_best_known(g: Grid, source: Vec2, target: Vec2, moves: Seq<Direction>)
    requires
        is_best(g, source, target, moves),
    ensures
        reachable(g, source, target),
        best_moves(g, source, target) == moves,
        best_route(g, source, target) == trace(g, source, moves),
        distance(g, source, target) == Some(moves.len()),
{
    assert(leads(g, source, moves, target));
    lemma_best_is_unique(g, source, target, moves, best_moves(g, source, target));
}

/// The first cell of the preferred way from `source` to `target`, unless
/// there is no way, the way is empty, or that cell is `barred`.
pub open spec fn first_step(g: Grid, source: Vec2, target: Vec2, barred: Vec2) -> Option<Vec2> {
    let route = best_route(g, source, target);
    if route.len() > 0 && route[0] != barred {
        Some(route[0])
    } else {
        None
    }
}

} // verus!
