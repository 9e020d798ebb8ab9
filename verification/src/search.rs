//! The breadth-first search itself, and the tables it fills.

use crate::direction::Direction;
use crate::frontier::{
    lemma_blocked, lemma_discover, lemma_finished, lemma_found_before, lemma_found_fit,
    lemma_grid_size, lemma_next_cell, lemma_start, Progress, UNKNOWN,
};
use crate::maze::{lemma_slot, Grid, Maze};
use crate::path::{best_route, distance, first_step, lemma_best_known};
use crate::vec2::Vec2;
use vstd::prelude::*;

verus! {

/// The routes of a table, each as a sequence of cells.
pub open spec fn views(routes: Seq<Vec<Vec2>>) -> Seq<Seq<Vec2>> {
    Seq::new(routes.len(), |i: int| routes[i]@)
}

/// What a distance table holds for a cell at distance `d`.
pub open spec fn distance_mark(d: Option<nat>) -> int {
    match d {
        Some(n) => n as int,
        None => UNKNOWN as int,
    }
}

/// The result of one breadth-first search: for each cell of the grid its
/// distance from the source and the route to it.
pub struct Search {
    source: Vec2,
    width: usize,
    height: usize,
    distances: Vec<i32>,
    routes: Vec<Vec<Vec2>>,
    grid: Ghost<Grid>,
}

fn copy_route(route: &Vec<Vec2>) -> (copy: Vec<Vec2>)
    ensures
        copy@ == route@,
{
    let mut copy: Vec<Vec2> = Vec::new();
    let mut i: usize = 0;
    while i < route.len()
        invariant
            i <= route.len(),
            copy@ == route@.take(i as int),
        decreases route.len() - i,
    {
        copy.push(route[i]);
        assert(route@.take(i + 1) =~= route@.take(i as int).push(route@[i as int]));
        i += 1;
    }
    assert(route@.take(route.len() as int) =~= route@);
    copy
}

impl Search {
    /// The grid that was searched.
    pub closed spec fn grid(&self) -> Grid {
        self.grid@
    }

    /// The cell that the search started from.
    pub closed spec fn source(&self) -> Vec2 {
        self.source
    }

    /// The tables hold, for each cell of the grid, its distance from the
    /// source and the preferred route to it.
    pub closed spec fn wf(&self) -> bool {
        let g = self.grid@;
        &&& g.wf()
        &&& g.contains(self.source)
        &&& self.width == g.width
        &&& self.height == g.height
        &&& self.distances.len() == g.cells.len()
        &&& self.routes.len() == g.cells.len()
        &&& forall|t: Vec2| g.contains(t) ==> #[trigger] self.cell_ok(t)
    }

    closed spec fn cell_ok(&self, t: Vec2) -> bool {
        let g = self.grid@;
        let i = g.slot(t);
        &&& self.routes[i]@ == best_route(g, self.source, t)
        &&& self.distances[i] == distance_mark(distance(g, self.source, t))
    }

    /// Place in the tables of the cell that `target` names on the torus.
    fn slot_of(&self, target: Vec2) -> (i: usize)
        requires
            self.wf(),
        ensures
            i == self.grid().slot(self.grid().wrap(target.x as int, target.y as int)),
            i < self.distances.len(),
            i < self.routes.len(),
            self.cell_ok(self.grid().wrap(target.x as int, target.y as int)),
    {
        let mut cell = target;
        cell.get_loop_position(self.width, self.height);
        let x = cell.x as usize;
        let y = cell.y as usize;
        proof {
            lemma_slot(self.grid@, cell);
            lemma_grid_size(self.grid@);
            assert(y * self.width <= self.grid@.slot(cell)) by (nonlinear_arith)
                requires
                    self.grid@.slot(cell) == y * self.width + x,
                    0 <= x,
            ;
        }
        y * self.width + x
    }

    /// The number of moves of a shortest way from the source to `target`,
    /// taken on the torus; `None` where there is no way.
    pub fn distance(&self, target: Vec2) -> (d: Option<usize>)
        requires
            self.wf(),
        ensures
            match distance(
                self.grid(),
                self.source(),
                self.grid().wrap(target.x as int, target.y as int),
            ) {
                Some(n) => d == Some(n as usize) && n <= i32::MAX,
                None => d.is_none(),
            },
    {
        let i = self.slot_of(target);
        let mark = self.distances[i];
        if mark < 0 {
            None
        } else {
            Some(mark as usize)
        }
    }

    /// The cells of the preferred way from the source to `target`, taken on
    /// the torus: the source left out, the target last. Empty where there is
    /// no way, and for the source itself.
    pub fn route(&self, target: Vec2) -> (cells: Vec<Vec2>)
        requires
            self.wf(),
        ensures
            cells@ == best_route(
                self.grid(),
                self.source(),
                self.grid().wrap(target.x as int, target.y as int),
            ),
    {
        let i = self.slot_of(target);
        copy_route(&self.routes[i])
    }

    /// The first cell of the route to `target`, unless the route is empty or
    /// starts with `barred`.
    pub fn first_step(&self, target: Vec2, barred: Vec2) -> (step: Option<Vec2>)
        requires
            self.wf(),
        ensures
            step == first_step(
                self.grid(),
                self.source(),
                self.grid().wrap(target.x as int, target.y as int),
                barred,
            ),
    {
        let i = self.slot_of(target);
        if self.routes[i].len() > 0 && self.routes[i][0] != barred {
            Some(self.routes[i][0])
        } else {
            None
        }
    }
}

/// The first cell to enter on the way from `source` to `target`, both taken
/// on the torus. `None` where there is no way, where `source` is `target`,
/// and where that first cell is `barred`.
pub fn shortest_first_step(source: Vec2, target: Vec2, barred: Vec2, maze: &Maze) -> (step: Option<
    Vec2,
>)
    requires
        maze@.wf(),
    ensures
        step == first_step(
            maze@,
            maze@.wrap(source.x as int, source.y as int),
            maze@.wrap(target.x as int, target.y as int),
            barred,
        ),
{
    let tables = search(maze, source);
    tables.first_step(target, barred)
}

/// Searches the maze breadth-first from `source`, taken on the torus, and
/// returns the distance and the route found for every cell.
pub fn search(maze: &Maze, source: Vec2) -> (tables: Search)
    requires
        maze@.wf(),
    ensures
        tables.wf(),
        tables.grid() == maze@,
        tables.source() == maze@.wrap(source.x as int, source.y as int),
{
    let ghost g = maze@;
    let start = maze.wrap(source);
    let width = maze.width();
    let height = maze.height();
    proof {
        lemma_grid_size(g);
        lemma_slot(g, start);
    }
    let cells = width * height;
    let mut distances: Vec<i32> = Vec::new();
    let mut routes: Vec<Vec<Vec2>> = Vec::new();
    let mut i: usize = 0;
    while i < cells
        invariant
            i <= cells,
            distances.len() == i,
            routes.len() == i,
            forall|j: int| 0 <= j < i ==> distances[j] == UNKNOWN,
            forall|j: int| 0 <= j < i ==> (#[trigger] routes[j])@ == Seq::<Vec2>::empty(),
        decreases cells - i,
    {
        distances.push(UNKNOWN);
        routes.push(Vec::new());
        i += 1;
    }
    let begin = maze.slot(start);
    distances.set(begin, 0);
    let mut order: Vec<Vec2> = Vec::new();
    order.push(start);
    let ghost mut p = Progress::start(g, start);
    proof {
        lemma_start(g, start);
        assert(p.distances =~= distances@);
        assert(p.routes =~= views(routes@));
        assert(p.order =~= order@);
    }
    let mut head: usize = 0;
    while head < order.len()
        invariant
            g == maze@,
            cells == g.cells.len(),
            p.inv(g, start, head as int, 0),
            p.distances == distances@,
            p.routes == views(routes@),
            p.order == order@,
        decreases cells - head,
    {
        proof {
            lemma_found_fit(p, g, start);
            assert(p.entry_ok(g, start, head as int));
        }
        let current = order[head];
        let here = maze.slot(current);
        let mut turn: usize = 0;
        while turn < 4
            invariant
                g == maze@,
                cells == g.cells.len(),
                head < order.len(),
                turn <= 4,
                p.inv(g, start, head as int, turn as int),
                p.distances == distances@,
                p.routes == views(routes@),
                p.order == order@,
                current == order[head as int],
                here == g.slot(current),
                here < cells,
            decreases 4 - turn,
        {
            let d = Direction::from_index(turn).unwrap();
            let next = maze.step(current, d);
            let there = maze.slot(next);
            proof {
                lemma_found_fit(p, g, start);
                lemma_grid_size(g);
                assert(p.entry_ok(g, start, head as int));
                assert(p.slot_ok(g, start, here as int));
                assert(p.slot_ok(g, start, there as int));
            }
            let new_distance: i32 = distances[here] + 1;
            let open = maze.is_walkable(next);
            proof {
                if p.place[there as int] >= 0 {
                    lemma_found_before(p, g, start, head as int, d);
                }
            }
            if (distances[there] < 0 || new_distance < distances[there]) && open {
                proof {
                    lemma_discover(p, g, start, head as int, d);
                }
                distances.set(there, new_distance);
                let mut route = copy_route(&routes[here]);
                route.push(next);
                routes.set(there, route);
                order.push(next);
                proof {
                    let q = p.discover(g, head as int, d);
                    assert(q.distances =~= distances@);
                    assert(q.routes =~= views(routes@));
                    assert(q.order =~= order@);
                    p = q;
                }
            } else {
                proof {
                    if !open {
                        lemma_blocked(p, g, start, head as int, d);
                    }
                }
            }
            turn += 1;
        }
        proof {
            lemma_next_cell(p, g, start, head as int);
            lemma_found_fit(p, g, start);
        }
        head += 1;
    }
    let tables = Search { source: start, width, height, distances, routes, grid: Ghost(g) };
    proof {
        assert forall|t: Vec2| g.contains(t) implies #[trigger] tables.cell_ok(t) by {
            lemma_finished(p, g, start, t);
            lemma_slot(g, t);
            let at = g.slot(t);
            assert(p.slot_ok(g, start, at));
            if p.place[at] >= 0 {
                lemma_best_known(g, start, t, p.moves[p.place[at]]);
            }
        }
    }
    tables
}

} // verus!
