//! The maze: a rectangle of cells whose edges meet, so that a step over
//! one edge enters at the opposite one.

use crate::direction::Direction;
use crate::vec2::{lemma_remainder_of_negative, wrap_axis, wrap_coord, Vec2};
use vstd::arithmetic::div_mod::{
    lemma_fundamental_div_mod_converse, lemma_mod_bound, lemma_mod_self_0, lemma_small_mod,
};
use vstd::prelude::*;

verus! {

/// What a cell of the maze holds.
#[derive(Clone, Copy, Debug, PartialEq, Eq, Structural)]
pub enum CellKind {
    Wall,
    Collectible,
    Empty,
}

/// Largest width or height of a maze: coordinates are `i8`.
pub const MAX_SIDE: usize = 127;

/// The maze as a mathematical object: its sides and its cells, row by row.
pub struct Grid {
    pub width: int,
    pub height: int,
    pub cells: Seq<CellKind>,
}

impl Grid {
    pub open spec fn wf(self) -> bool {
        &&& 0 < self.width <= MAX_SIDE
        &&& 0 < self.height <= MAX_SIDE
        &&& self.cells.len() == self.width * self.height
    }

    /// `p` is a cell of the grid.
    pub open spec fn contains(self, p: Vec2) -> bool {
        0 <= p.x < self.width && 0 <= p.y < self.height
    }

    /// The cell that the coordinates `(x, y)` name on the torus.
    pub open spec fn wrap(self, x: int, y: int) -> Vec2 {
        Vec2 { x: wrap_coord(x, self.width) as i8, y: wrap_coord(y, self.height) as i8 }
    }

    /// Place of the cell `p` in `cells`.
    pub open spec fn slot(self, p: Vec2) -> int {
        p.y * self.width + p.x
    }

    pub open spec fn cell_at(self, p: Vec2) -> CellKind {
        self.cells[self.slot(self.wrap(p.x as int, p.y as int))]
    }

    pub open spec fn is_walkable(self, p: Vec2) -> bool {
        self.cell_at(p) != CellKind::Wall
    }

    /// The cell one step from `p` in direction `d`.
    pub open spec fn step(self, p: Vec2, d: Direction) -> Vec2 {
        self.wrap(p.x + d.dx(), p.y + d.dy())
    }

    /// The four cells around `p`, in visiting order.
    pub open spec fn neighbors(self, p: Vec2) -> Seq<Vec2> {
        seq![
            self.step(p, Direction::Up),
            self.step(p, Direction::Left),
            self.step(p, Direction::Down),
            self.step(p, Direction::Right),
        ]
    }

    /// Some cell still holds a collectible.
    pub open spec fn has_collectible(self) -> bool {
        exists|i: int| 0 <= i < self.cells.len() && self.cells[i] == CellKind::Collectible
    }

    /// The grid after a visit to `p`: a collectible there is gone, and
    /// nothing else has changed.
    pub open spec fn consume(self, p: Vec2) -> Grid {
        if self.cell_at(p) == CellKind::Collectible {
            Grid {
                cells: self.cells.update(
                    self.slot(self.wrap(p.x as int, p.y as int)),
                    CellKind::Empty,
                ),
                ..self
            }
        } else {
            self
        }
    }
}

/// Why a table of symbols is not a maze of the declared sides.
#[derive(Clone, Copy, Debug, PartialEq, Eq, Structural)]
pub enum MazeError {
    /// A declared side is zero.
    Empty,
    /// A declared side is longer than `MAX_SIDE`.
    TooLarge,
    /// The table has `found` rows where `expected` were declared.
    RowCount { expected: usize, found: usize },
    /// Row `row` is the first whose length, `found`, is not the declared width.
    RowLength { row: usize, expected: usize, found: usize },
}

/// The kind of cell that a symbol of a layout stands for: `#` is a wall, `o` a
/// collectible, and anything else open floor.
pub open spec fn kind_of_symbol(c: char) -> CellKind {
    if c == '#' {
        CellKind::Wall
    } else if c == 'o' {
        CellKind::Collectible
    } else {
        CellKind::Empty
    }
}

/// The first row at or after `from` whose length is not `width`.
pub open spec fn first_ragged_row(rows: Seq<String>, width: int, from: int) -> Option<int>
    decreases rows.len() - from,
{
    if from < 0 || from >= rows.len() {
        None
    } else if rows[from]@.len() != width {
        Some(from)
    } else {
        first_ragged_row(rows, width, from + 1)
    }
}

/// The fault for which a table of symbols is refused, if there is one. The
/// sides are judged first, then the number of rows, then each row's length.
pub open spec fn layout_fault(width: usize, height: usize, rows: Seq<String>) -> Option<MazeError> {
    if width == 0 || height == 0 {
        Some(MazeError::Empty)
    } else if width > MAX_SIDE || height > MAX_SIDE {
        Some(MazeError::TooLarge)
    } else if rows.len() != height {
        Some(MazeError::RowCount { expected: height, found: rows.len() as usize })
    } else {
        match first_ragged_row(rows, width as int, 0) {
            Some(row) => Some(
                MazeError::RowLength {
                    row: row as usize,
                    expected: width,
                    found: rows[row]@.len() as usize,
                },
            ),
            None => None,
        }
    }
}

/// The cells that a table of `height` rows of `width` symbols describes.
pub open spec fn cells_of_layout(width: int, height: int, rows: Seq<String>) -> Seq<CellKind> {
    Seq::new((width * height) as nat, |i: int| kind_of_symbol(rows[i / width]@[i % width]))
}

/// A rectangular maze on a torus. Its sides never change; its collectibles
/// can be consumed.
pub struct Maze {
    width: usize,
    height: usize,
    cells: Vec<CellKind>,
}

impl View for Maze {
    type V = Grid;

    closed spec fn view(&self) -> Grid {
        Grid { width: self.width as int, height: self.height as int, cells: self.cells@ }
    }
}

impl Maze {
    /// Builds the maze that a table of symbols describes, one string for each
    /// row, or names the fault in the table.
    pub fn new(width: usize, height: usize, rows: &Vec<String>) -> (made: Result<Maze, MazeError>)
        ensures
            match made {
                Ok(maze) => {
                    &&& layout_fault(width, height, rows@) is None
                    &&& maze@.wf()
                    &&& maze@.width == width
                    &&& maze@.height == height
                    &&& maze@.cells == cells_of_layout(width as int, height as int, rows@)
                },
                Err(fault) => layout_fault(width, height, rows@) == Some(fault),
            },
    {
        if width == 0 || height == 0 {
            return Err(MazeError::Empty);
        }
        if width > MAX_SIDE || height > MAX_SIDE {
            return Err(MazeError::TooLarge);
        }
        if rows.len() != height {
            return Err(MazeError::RowCount { expected: height, found: rows.len() });
        }
        let mut cells: Vec<CellKind> = Vec::new();
        let mut y: usize = 0;
        while y < height
            invariant
                0 < width <= MAX_SIDE,
                0 < height <= MAX_SIDE,
                y <= height == rows.len(),
                first_ragged_row(rows@, width as int, 0) == first_ragged_row(
                    rows@,
                    width as int,
                    y as int,
                ),
                cells.len() == y * width,
                forall|i: int|
                    0 <= i < cells.len() ==> #[trigger] cells[i] == kind_of_symbol(
                        rows[i / (width as int)]@[i % (width as int)],
                    ),
            decreases height - y,
        {
            let row = rows[y].as_str();
            let len = row.unicode_len();
            if len != width {
                return Err(MazeError::RowLength { row: y, expected: width, found: len });
            }
            assert(first_ragged_row(rows@, width as int, y as int) == first_ragged_row(
                rows@,
                width as int,
                y + 1,
            ));
            let mut x: usize = 0;
            while x < width
                invariant
                    0 < width <= MAX_SIDE,
                    y < height == rows.len(),
                    height <= MAX_SIDE,
                    x <= width,
                    row@ == rows[y as int]@,
                    row@.len() == width,
                    cells.len() == y * width + x,
                    forall|i: int|
                        0 <= i < cells.len() ==> #[trigger] cells[i] == kind_of_symbol(
                            rows[i / (width as int)]@[i % (width as int)],
                        ),
                decreases width - x,
            {
                proof {
                    lemma_fundamental_div_mod_converse(
                        y * width + x,
                        width as int,
                        y as int,
                        x as int,
                    );
                }
                cells.push(CellKind::from_symbol(row.get_char(x)));
                x += 1;
            }
            assert(y * width + width == (y + 1) * width) by (nonlinear_arith);
            y += 1;
        }
        let maze = Maze { width, height, cells };
        assert(maze@.cells =~= cells_of_layout(width as int, height as int, rows@)) by {
            assert(height * width == width * height) by (nonlinear_arith);
        }
        Ok(maze)
    }

    pub fn width(&self) -> (w: usize)
        ensures
            w == self@.width,
    {
        self.width
    }

    pub fn height(&self) -> (h: usize)
        ensures
            h == self@.height,
    {
        self.height
    }

    /// The cell that the coordinates `(x, y)` name on the torus.
    pub fn wrap_xy(&self, x: i32, y: i32) -> (cell: Vec2)
        requires
            self@.wf(),
        ensures
            cell == self@.wrap(x as int, y as int),
            self@.contains(cell),
    {
        Vec2 { x: wrap_axis(x, self.width as i8), y: wrap_axis(y, self.height as i8) }
    }

    /// A faithful copy of the maze.
    pub fn duplicate(&self) -> (copy: Maze)
        ensures
            copy@ == self@,
    {
        let mut cells: Vec<CellKind> = Vec::new();
        let mut i: usize = 0;
        while i < self.cells.len()
            invariant
                i <= self.cells.len(),
                cells@ == self.cells@.take(i as int),
            decreases self.cells.len() - i,
        {
            cells.push(self.cells[i]);
            assert(self.cells@.take(i + 1) =~= self.cells@.take(i as int).push(
                self.cells@[i as int],
            ));
            i += 1;
        }
        assert(self.cells@.take(self.cells.len() as int) =~= self.cells@);
        Maze { width: self.width, height: self.height, cells }
    }

    /// The cell of the grid that `pos` names on the torus.
    pub fn wrap(&self, pos: Vec2) -> (cell: Vec2)
        requires
            self@.wf(),
        ensures
            cell == self@.wrap(pos.x as int, pos.y as int),
            self@.contains(cell),
    {
        let mut cell = pos;
        cell.get_loop_position(self.width, self.height);
        cell
    }

    /// Place of a cell of the grid in the table of cells.
    pub(crate) fn slot(&self, cell: Vec2) -> (i: usize)
        requires
            self@.wf(),
            self@.contains(cell),
        ensures
            i == self@.slot(cell),
            i < self@.cells.len(),
    {
        let x = cell.x as usize;
        let y = cell.y as usize;
        proof {
            lemma_slot(self@, cell);
            assert(y * self.width <= MAX_SIDE * MAX_SIDE) by (nonlinear_arith)
                requires
                    0 <= y <= MAX_SIDE,
                    0 <= self.width <= MAX_SIDE,
            ;
        }
        y * self.width + x
    }

    /// What the cell at `pos` holds, `pos` taken on the torus.
    pub fn cell_at(&self, pos: Vec2) -> (kind: CellKind)
        requires
            self@.wf(),
        ensures
            kind == self@.cell_at(pos),
    {
        let cell = self.wrap(pos);
        self.cells[self.slot(cell)]
    }

    pub fn is_walkable(&self, pos: Vec2) -> (open: bool)
        requires
            self@.wf(),
        ensures
            open == self@.is_walkable(pos),
    {
        self.cell_at(pos) != CellKind::Wall
    }

    /// Takes the collectible at `pos`, if there is one.
    pub fn consume(&mut self, pos: Vec2)
        requires
            old(self)@.wf(),
        ensures
            final(self)@ == old(self)@.consume(pos),
            final(self)@.wf(),
    {
        let cell = self.wrap(pos);
        let i = self.slot(cell);
        if self.cells[i] == CellKind::Collectible {
            self.cells.set(i, CellKind::Empty);
        }
    }

    /// The cell one step from `pos` in direction `d`.
    pub fn step(&self, pos: Vec2, d: Direction) -> (cell: Vec2)
        requires
            self@.wf(),
        ensures
            cell == self@.step(pos, d),
            self@.contains(cell),
    {
        let delta = d.delta();
        let x = wrap_axis(pos.x as i32 + delta.x as i32, self.width as i8);
        let y = wrap_axis(pos.y as i32 + delta.y as i32, self.height as i8);
        Vec2 { x, y }
    }

    /// The four cells around `pos`, in visiting order.
    pub fn neighbors(&self, pos: Vec2) -> (around: [Vec2; 4])
        requires
            self@.wf(),
        ensures
            around@ == self@.neighbors(pos),
    {
        let around = [
            self.step(pos, Direction::Up),
            self.step(pos, Direction::Left),
            self.step(pos, Direction::Down),
            self.step(pos, Direction::Right),
        ];
        assert(around@ =~= self@.neighbors(pos));
        around
    }

    /// No collectible is left.
    pub fn is_complete(&self) -> (done: bool)
        ensures
            done == !self@.has_collectible(),
    {
        let mut i: usize = 0;
        while i < self.cells.len()
            invariant
                i <= self.cells.len(),
                forall|j: int| 0 <= j < i ==> self.cells[j] != CellKind::Collectible,
            decreases self.cells.len() - i,
        {
            if self.cells[i] == CellKind::Collectible {
                return false;
            }
            i += 1;
        }
        true
    }
}

impl MazeError {
    /// Row and column of the first cell that the table lacks or has too
    /// many: where the rows run out or go on past the declared height, or
    /// where the ragged row does so with the declared width. `None` for a
    /// fault of the declared sides themselves.
    pub open spec fn place_spec(self) -> Option<(usize, usize)> {
        match self {
            MazeError::Empty => None,
            MazeError::TooLarge => None,
            MazeError::RowCount { expected, found } => Some(
                (
                    if expected <= found {
                        expected
                    } else {
                        found
                    },
                    0usize,
                ),
            ),
            MazeError::RowLength { row, expected, found } => Some(
                (
                    row,
                    if expected <= found {
                        expected
                    } else {
                        found
                    },
                ),
            ),
        }
    }

    /// Row and column of the first cell that the table lacks or has too
    /// many, for a diagnostic; `None` for a fault of the declared sides.
    #[verifier::when_used_as_spec(place_spec)]
    pub fn place(self) -> (at: Option<(usize, usize)>)
        ensures
            at == self.place_spec(),
    {
        match self {
            MazeError::Empty => None,
            MazeError::TooLarge => None,
            MazeError::RowCount { expected, found } => Some(
                (
                    if expected <= found {
                        expected
                    } else {
                        found
                    },
                    0,
                ),
            ),
            MazeError::RowLength { row, expected, found } => Some(
                (
                    row,
                    if expected <= found {
                        expected
                    } else {
                        found
                    },
                ),
            ),
        }
    }
}

impl CellKind {
    /// The kind of cell that a symbol of a layout stands for.
    pub fn from_symbol(c: char) -> (kind: CellKind)
        ensures
            kind == kind_of_symbol(c),
    {
        if c == '#' {
            CellKind::Wall
        } else if c == 'o' {
            CellKind::Collectible
        } else {
            CellKind::Empty
        }
    }
}

/// Wrapped coordinates name a cell of the grid, and a cell of the grid is
/// its own wrap.
pub proof fn lemma_wrap_in_grid(g: Grid, x: int, y: int)
    requires
        g.wf(),
    ensures
        g.contains(g.wrap(x, y)),
        g.wrap(x, y).x == wrap_coord(x, g.width),
        g.wrap(x, y).y == wrap_coord(y, g.height),
        0 <= x < g.width ==> g.wrap(x, y).x == x,
        0 <= y < g.height ==> g.wrap(x, y).y == y,
{
    lemma_mod_bound(x, g.width);
    lemma_mod_bound(y, g.height);
    if 0 <= x < g.width {
        lemma_small_mod(x as nat, g.width as nat);
    }
    if 0 <= y < g.height {
        lemma_small_mod(y as nat, g.height as nat);
    }
}

/// The cell that a step enters is one of the four neighbours.
pub proof fn lemma_neighbors_hold_each_step(g: Grid, p: Vec2, d: Direction)
    ensures
        g.neighbors(p).len() == 4,
        g.neighbors(p)[d.rank()] == g.step(p, d),
        g.neighbors(p).contains(g.step(p, d)),
{
}

/// The grid is a torus: a step over an edge enters the cell at the other
/// end of the same row or column. East of the last column lies column 0,
/// north of row 0 the last row, and so for west and south.
pub proof fn lemma_steps_wrap_at_the_edges(g: Grid, p: Vec2)
    requires
        g.wf(),
        g.contains(p),
    ensures
        p.x == g.width - 1 ==> g.step(p, Direction::Right) == (Vec2 { x: 0, y: p.y }),
        p.y == 0 ==> g.step(p, Direction::Up) == (Vec2 { x: p.x, y: (g.height - 1) as i8 }),
        p.x == 0 ==> g.step(p, Direction::Left) == (Vec2 { x: (g.width - 1) as i8, y: p.y }),
        p.y == g.height - 1 ==> g.step(p, Direction::Down) == (Vec2 { x: p.x, y: 0 }),
{
    lemma_wrap_in_grid(g, p.x as int, p.y as int);
    lemma_remainder_of_negative(-1, g.width);
    lemma_remainder_of_negative(-1, g.height);
    if g.width > 1 {
        lemma_small_mod(1, g.width as nat);
    }
    if g.height > 1 {
        lemma_small_mod(1, g.height as nat);
    }
    lemma_mod_self_0(g.width);
    lemma_mod_self_0(g.height);
}

/// A visit leaves the sides and the walls as they are, and a second visit to
/// the same cell changes nothing.
pub proof fn lemma_consume_once(g: Grid, p: Vec2)
    requires
        g.wf(),
    ensures
        g.consume(p).wf(),
        g.consume(p).width == g.width,
        g.consume(p).height == g.height,
        g.consume(p).consume(p) == g.consume(p),
        forall|q: Vec2| g.consume(p).is_walkable(q) == g.is_walkable(q),
{
    let at = g.wrap(p.x as int, p.y as int);
    lemma_wrap_in_grid(g, p.x as int, p.y as int);
    lemma_slot(g, at);
    assert forall|q: Vec2| g.consume(p).is_walkable(q) == g.is_walkable(q) by {
        let there = g.wrap(q.x as int, q.y as int);
        lemma_wrap_in_grid(g, q.x as int, q.y as int);
        lemma_slot(g, there);
    }
}

/// Each cell of the grid has a slot of its own in `cells`.
pub proof fn lemma_slot(g: Grid, p: Vec2)
    requires
        g.wf(),
        g.contains(p),
    ensures
        0 <= g.slot(p) < g.cells.len(),
        g.slot(p) / g.width == p.y,
        g.slot(p) % g.width == p.x,
{
    assert(0 <= p.y * g.width + p.x < g.width * g.height) by (nonlinear_arith)
        requires
            0 <= p.x < g.width,
            0 <= p.y < g.height,
    ;
    lemma_fundamental_div_mod_converse(g.slot(p), g.width, p.y as int, p.x as int);
}

} // verus!
