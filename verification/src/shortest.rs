//! What holds of the preferred routes on every grid.

use crate::direction::Direction;
use crate::frontier::{lemma_finished, lemma_search_ends, lemma_start, Progress};
use crate::maze::{lemma_neighbors_hold_each_step, lemma_wrap_in_grid, Grid};
use crate::path::{
    best_moves, best_route, distance, first_step, is_best, leads, lemma_best_known,
    lemma_open_walk_avoids_walls, lemma_trace_cells, lemma_walk_stays_in_grid, not_after,
    reachable, walk_end,
};
use crate::vec2::Vec2;
use vstd::prelude::*;

verus! {

/// Every cell that can be reached has a preferred way.
pub proof fn lemma_best_exists(g: Grid, source: Vec2, target: Vec2)
    requires
        g.wf(),
        g.contains(source),
        reachable(g, source, target),
    ensures
        is_best(g, source, target, best_moves(g, source, target)),
{
    let way = choose|way: Seq<Direction>| leads(g, source, way, target);
    lemma_walk_stays_in_grid(g, source, way);
    lemma_start(g, source);
    let end = lemma_search_ends(Progress::start(g, source), g, source, 0, 0);
    lemma_finished(end, g, source, target);
    assert(is_best(g, source, target, end.moves[end.place[g.slot(target)]]));
}

/// The source is at distance 0 from itself, and the route to it is empty.
pub proof fn lemma_source_is_at_distance_zero(g: Grid, source: Vec2)
    ensures
        distance(g, source, source) == Some(0nat),
        best_route(g, source, source) == Seq::<Vec2>::empty(),
{
    let stay = Seq::<Direction>::empty();
    assert(leads(g, source, stay, source));
    assert forall|other: Seq<Direction>| #[trigger]
        leads(g, source, other, source) implies not_after(stay, other) by {
        if other.len() == 0 {
            assert(other =~= stay);
        }
    }
    lemma_best_known(g, source, source, stay);
}

/// The route to a cell has as many cells as the cell's distance says; a cell
/// that cannot be reached has an empty route and no distance.
pub proof fn lemma_route_length_is_distance(g: Grid, source: Vec2, target: Vec2)
    ensures
        reachable(g, source, target) ==> distance(g, source, target) == Some(
            best_route(g, source, target).len(),
        ),
        !reachable(g, source, target) ==> distance(g, source, target).is_none() && best_route(
            g,
            source,
            target,
        ).len() == 0,
{
    lemma_trace_cells(g, source, best_moves(g, source, target));
}

/// No route passes through a wall.
pub proof fn lemma_route_avoids_walls(g: Grid, source: Vec2, target: Vec2)
    requires
        g.wf(),
        g.contains(source),
    ensures
        forall|i: int|
            0 <= i < best_route(g, source, target).len() ==> g.is_walkable(
                #[trigger] best_route(g, source, target)[i],
            ),
{
    if reachable(g, source, target) {
        lemma_best_exists(g, source, target);
        lemma_open_walk_avoids_walls(g, source, best_moves(g, source, target));
    }
}

/// No way from the source to a cell has fewer moves than the cell's distance.
pub proof fn lemma_distance_is_least(g: Grid, source: Vec2, target: Vec2, way: Seq<Direction>)
    requires
        g.wf(),
        g.contains(source),
        leads(g, source, way, target),
    ensures
        distance(g, source, target) is Some,
        distance(g, source, target).unwrap() <= way.len(),
{
    lemma_best_exists(g, source, target);
}

/// The route is a chain of neighbours: it starts next to the source, each
/// cell is one step from the cell before it, and it ends on the target.
pub proof fn lemma_route_is_connected(g: Grid, source: Vec2, target: Vec2)
    requires
        g.wf(),
        g.contains(source),
        reachable(g, source, target),
        target != source,
    ensures
        best_route(g, source, target).len() > 0,
        best_route(g, source, target).last() == target,
        g.neighbors(source).contains(best_route(g, source, target)[0]),
        forall|i: int|
            0 < i < best_route(g, source, target).len() ==> g.neighbors(
                best_route(g, source, target)[i - 1],
            ).contains(#[trigger] best_route(g, source, target)[i]),
{
    lemma_best_exists(g, source, target);
    let way = best_moves(g, source, target);
    let route = best_route(g, source, target);
    lemma_trace_cells(g, source, way);
    assert(way.take(way.len() as int) =~= way);
    assert forall|i: int| 0 <= i < route.len() implies g.neighbors(
        if i == 0 {
            source
        } else {
            route[i - 1]
        },
    ).contains(#[trigger] route[i]) by {
        let upto = way.take(i + 1);
        assert(upto.drop_last() =~= way.take(i));
        let before = walk_end(g, source, way.take(i));
        let d = upto.last();
        assert(route[i] == g.step(before, d));
        if i > 0 {
            assert(route[i - 1] == before);
        }
        lemma_neighbors_hold_each_step(g, before, d);
    }
    assert(g.neighbors(source).contains(route[0]));
}

/// The step that a search names is a walkable neighbour of the source, and
/// not the barred cell.
pub proof fn lemma_first_step(g: Grid, source: Vec2, target: Vec2, barred: Vec2)
    requires
        g.wf(),
        g.contains(source),
        first_step(g, source, target, barred) is Some,
    ensures
        reachable(g, source, target),
        g.neighbors(source).contains(first_step(g, source, target, barred).unwrap()),
        g.is_walkable(first_step(g, source, target, barred).unwrap()),
        g.contains(first_step(g, source, target, barred).unwrap()),
        first_step(g, source, target, barred).unwrap() != barred,
{
    lemma_source_is_at_distance_zero(g, source);
    lemma_route_is_connected(g, source, target);
    lemma_route_avoids_walls(g, source, target);
    let step = best_route(g, source, target)[0];
    let i = choose|i: int| 0 <= i < 4 && g.neighbors(source)[i] == step;
    lemma_wrap_in_grid(
        g,
        source.x + Direction::of_rank(i).dx(),
        source.y + Direction::of_rank(i).dy(),
    );
}

} // verus!
