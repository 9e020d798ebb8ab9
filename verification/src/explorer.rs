//! Someone who walks a labyrinth of rooms: it faces a direction, turns, and
//! steps forward where no wall stands in the way.

use crate::direction::Direction;
use crate::vec2::Vec2;
use vstd::prelude::*;

verus! {

/// A room of a labyrinth: for each direction, whether a wall closes that
/// side, by the direction's rank.
#[derive(Clone, Copy, Debug)]
pub struct Tile {
    pub walls: [bool; 4],
}

impl Tile {
    /// A room open to all four sides.
    pub fn new() -> (tile: Tile)
        ensures
            forall|d: Direction| !tile.has_wall(d),
    {
        Tile { walls: [false; 4] }
    }

    /// A wall closes the side of the room that lies in direction `d`.
    pub open spec fn has_wall(self, d: Direction) -> bool {
        self.walls[d.rank()]
    }

    /// Whether a wall closes the side of the room that lies in direction `d`.
    pub fn is_walled(&self, d: Direction) -> (walled: bool)
        ensures
            walled == self.has_wall(d),
    {
        self.walls[d.index()]
    }
}

/// Someone who walks a labyrinth: the room they stand in and the direction
/// they face.
#[derive(Clone, Copy, Debug, PartialEq, Eq, Structural)]
pub struct Character {
    pub position: Vec2,
    pub direction: Direction,
}

impl Character {
    /// An explorer in the first room, facing up.
    pub fn new() -> (c: Character)
        ensures
            c.position == (Vec2 { x: 0, y: 0 }),
            c.direction == Direction::Up,
    {
        Character { position: Vec2 { x: 0, y: 0 }, direction: Direction::Up }
    }

    /// A quarter turn to the left: up, left, down, right, and up again.
    pub fn turn_left(&mut self)
        ensures
            final(self).position == old(self).position,
            final(self).direction == old(self).direction.turned(1),
    {
        self.direction = self.direction.turn(1);
    }

    /// A half turn.
    pub fn turn_back(&mut self)
        ensures
            final(self).position == old(self).position,
            final(self).direction == old(self).direction.turned(2),
    {
        self.direction = self.direction.turn(2);
    }

    /// A quarter turn to the right: three quarter turns to the left.
    pub fn turn_right(&mut self)
        ensures
            final(self).position == old(self).position,
            final(self).direction == old(self).direction.turned(3),
    {
        self.direction = self.direction.turn(3);
    }

    /// The explorer can step into the room ahead: no wall of the room
    /// `here`, in which it stands, closes that side, and the room ahead is a
    /// room of a labyrinth of the given sides, with coordinates that a
    /// `Vec2` can hold.
    pub open spec fn can_advance(self, here: Tile, width: usize, height: usize) -> bool {
        &&& !here.has_wall(self.direction)
        &&& 0 <= self.position.x + self.direction.dx() < width
        &&& 0 <= self.position.y + self.direction.dy() < height
        &&& self.position.x + self.direction.dx() <= i8::MAX
        &&& self.position.y + self.direction.dy() <= i8::MAX
    }

    /// Steps into the room ahead where the explorer can, and says whether
    /// it did. The labyrinth does not wrap: there is nothing beyond its
    /// sides.
    pub fn advance(&mut self, here: &Tile, width: usize, height: usize) -> (moved: bool)
        ensures
            moved == old(self).can_advance(*here, width, height),
            final(self).direction == old(self).direction,
            moved ==> final(self).position.x == old(self).position.x + old(self).direction.dx(),
            moved ==> final(self).position.y == old(self).position.y + old(self).direction.dy(),
            !moved ==> final(self).position == old(self).position,
    {
        if here.is_walled(self.direction) {
            return false;
        }
        let delta = self.direction.delta();
        let x: i16 = self.position.x as i16 + delta.x as i16;
        let y: i16 = self.position.y as i16 + delta.y as i16;
        if x < 0 || y < 0 || x > 127 || y > 127 {
            return false;
        }
        let next = Vec2 { x: x as i8, y: y as i8 };
        if !next.is_inside_maze(width, height) {
            return false;
        }
        self.position = next;
        true
    }
}

/// A turn to the right undoes a turn to the left, two half turns undo each
/// other, and four quarter turns come round.
pub proof fn lemma_turns_cancel(d: Direction)
    ensures
        d.turned(1).turned(3) == d,
        d.turned(3).turned(1) == d,
        d.turned(2).turned(2) == d,
        d.turned(1).turned(1).turned(1).turned(1) == d,
        d.turned(1).turned(1) == d.turned(2),
{
}

} // verus!
