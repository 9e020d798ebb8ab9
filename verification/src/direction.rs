//! The four directions, in the order in which neighbours are visited.

use crate::vec2::Vec2;
use vstd::prelude::*;

verus! {

/// The four moves on the grid, in the fixed order in which neighbours are
/// always visited: up, left, down, right.
#[derive(Clone, Copy, Debug, PartialEq, Eq, Structural)]
pub enum Direction {
    Up,
    Left,
    Down,
    Right,
}

impl Direction {
    /// Place of the direction in the visiting order.
    pub open spec fn rank(self) -> int {
        match self {
            Direction::Up => 0,
            Direction::Left => 1,
            Direction::Down => 2,
            Direction::Right => 3,
        }
    }

    /// The direction at a place of the visiting order.
    pub open spec fn of_rank(rank: int) -> Direction {
        if rank == 0 {
            Direction::Up
        } else if rank == 1 {
            Direction::Left
        } else if rank == 2 {
            Direction::Down
        } else {
            Direction::Right
        }
    }

    /// Horizontal part of the unit step.
    pub open spec fn dx(self) -> int {
        match self {
            Direction::Left => -1,
            Direction::Right => 1,
            _ => 0,
        }
    }

    /// Vertical part of the unit step; rows grow downwards.
    pub open spec fn dy(self) -> int {
        match self {
            Direction::Up => -1,
            Direction::Down => 1,
            _ => 0,
        }
    }

    /// Place of the direction in the visiting order.
    pub fn index(self) -> (i: usize)
        ensures
            i == self.rank(),
            i < 4,
    {
        match self {
            Direction::Up => 0,
            Direction::Left => 1,
            Direction::Down => 2,
            Direction::Right => 3,
        }
    }

    /// The direction at a place of the visiting order; `None` past its end.
    pub fn from_index(i: usize) -> (d: Option<Direction>)
        ensures
            i < 4 ==> d == Some(Direction::of_rank(i as int)),
            i >= 4 ==> d.is_none(),
    {
        if i == 0 {
            Some(Direction::Up)
        } else if i == 1 {
            Some(Direction::Left)
        } else if i == 2 {
            Some(Direction::Down)
        } else if i == 3 {
            Some(Direction::Right)
        } else {
            None
        }
    }

    /// The direction after `quarters` quarter turns to the left.
    pub open spec fn turned(self, quarters: int) -> Direction {
        Direction::of_rank((self.rank() + quarters) % 4)
    }

    /// The direction after `quarters` quarter turns to the left.
    pub fn turn(self, quarters: u8) -> (d: Direction)
        ensures
            d == self.turned(quarters as int),
    {
        let rank = (self.index() + quarters as usize) % 4;
        if rank == 0 {
            Direction::Up
        } else if rank == 1 {
            Direction::Left
        } else if rank == 2 {
            Direction::Down
        } else {
            Direction::Right
        }
    }

    /// The unit step of the direction as a displacement.
    pub fn delta(self) -> (v: Vec2)
        ensures
            v.x == self.dx(),
            v.y == self.dy(),
    {
        match self {
            Direction::Up => Vec2 { x: 0, y: -1 },
            Direction::Left => Vec2 { x: -1, y: 0 },
            Direction::Down => Vec2 { x: 0, y: 1 },
            Direction::Right => Vec2 { x: 1, y: 0 },
        }
    }
}

} // verus!
