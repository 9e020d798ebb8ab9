//! The characters of the chase and their roles.

use crate::vec2::Vec2;
use vstd::prelude::*;

verus! {

/// Who a character is: the player, or a monster with its way of moving.
#[derive(Clone, Copy, Debug, PartialEq, Eq, Structural)]
pub enum Role {
    Player,
    Wander,
    Chase,
    Ambush,
    Pincer,
}

/// Number of characters in a world: one of each role.
pub const ROLES: usize = 5;

impl Role {
    /// Place of the role in the roster of a world.
    pub open spec fn rank(self) -> int {
        match self {
            Role::Player => 0,
            Role::Wander => 1,
            Role::Chase => 2,
            Role::Ambush => 3,
            Role::Pincer => 4,
        }
    }

    pub fn index(self) -> (i: usize)
        ensures
            i == self.rank(),
            i < ROLES,
    {
        match self {
            Role::Player => 0,
            Role::Wander => 1,
            Role::Chase => 2,
            Role::Ambush => 3,
            Role::Pincer => 4,
        }
    }

    /// The role at a place of the roster; `None` past its end.
    pub fn from_index(i: usize) -> (role: Option<Role>)
        ensures
            match role {
                Some(r) => r.rank() == i,
                None => i >= ROLES,
            },
    {
        if i == 0 {
            Some(Role::Player)
        } else if i == 1 {
            Some(Role::Wander)
        } else if i == 2 {
            Some(Role::Chase)
        } else if i == 3 {
            Some(Role::Ambush)
        } else if i == 4 {
            Some(Role::Pincer)
        } else {
            None
        }
    }
}

/// A character on the grid: where it is, where it was before its last move,
/// and where it starts a level.
#[derive(Clone, Copy, Debug, PartialEq, Eq, Structural)]
pub struct Character {
    pub position: Vec2,
    pub default_position: Vec2,
    pub last_position: Vec2,
}

impl Character {
    /// The player of the classic level: not yet placed, starting at (9, 13).
    pub fn new() -> (c: Character)
        ensures
            c.position == (Vec2 { x: 0, y: 0 }),
            c.last_position == (Vec2 { x: 0, y: 0 }),
            c.default_position == (Vec2 { x: 9, y: 13 }),
    {
        Character {
            position: Vec2 { x: 0, y: 0 },
            default_position: Vec2 { x: 9, y: 13 },
            last_position: Vec2 { x: 0, y: 0 },
        }
    }

    pub open spec fn spawn_at_spec(cell: Vec2) -> Character {
        Character { position: cell, default_position: cell, last_position: cell }
    }

    /// A character standing on the cell where it starts.
    #[verifier::when_used_as_spec(spawn_at_spec)]
    pub fn spawn_at(cell: Vec2) -> (c: Character)
        ensures
            c == Self::spawn_at_spec(cell),
    {
        Character { position: cell, default_position: cell, last_position: cell }
    }

    /// The character after a move to `next`: it remembers where it stood.
    pub open spec fn moved_to(self, next: Vec2) -> Character {
        Character { position: next, last_position: self.position, ..self }
    }

    /// Commits a move: the cell left becomes the last position.
    pub fn move_to(&mut self, next: Vec2)
        ensures
            *final(self) == old(self).moved_to(next),
    {
        self.last_position = self.position;
        self.position = next;
    }

    /// The character back on its starting cell, as at the start of a level.
    pub open spec fn respawned(self) -> Character {
        Character {
            position: self.default_position,
            last_position: self.default_position,
            ..self
        }
    }

    pub fn respawn(&mut self)
        ensures
            *final(self) == old(self).respawned(),
    {
        self.position = self.default_position;
        self.last_position = self.default_position;
    }
}

} // verus!
