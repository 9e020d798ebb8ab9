//! The maze with its five characters, and the rules by which a tick and a
//! move of the player change them.

use crate::character::{Character, Role, ROLES};
use crate::direction::Direction;
use crate::maze::{CellKind, Grid, Maze};
use crate::strategy::{
    ambush_target, chase_allows, get_ambush_position, get_chase_position, get_pincer_position,
    get_random_position, lemma_chase_does_not_turn_back, lemma_wander_options, pincer_target,
    wander_options, Tuning, AMBUSH_LEAD, PINCER_REACH,
};
use crate::vec2::Vec2;
use vstd::prelude::*;

verus! {

/// Ticks in a second.
pub const FPS: u64 = 2;

/// Milliseconds from one tick to the next.
pub const INTERVAL: u64 = 1000 / FPS;

/// Enough time has passed since the last tick for the next one.
pub fn is_tick_due(elapsed_millis: u128) -> (due: bool)
    ensures
        due == (elapsed_millis >= INTERVAL),
{
    elapsed_millis >= INTERVAL as u128
}

/// How a move of the player ended.
#[derive(Clone, Copy, Debug, PartialEq, Eq, Structural)]
pub enum PlayerMove {
    /// The cell to enter is a wall: the player has not moved.
    Blocked,
    /// The player stands on the cell, which held nothing.
    Moved,
    /// The player stands on the cell and has taken its collectible.
    Collected,
}

/// A world as a mathematical object: the maze as it is now, the maze as it
/// was laid out, and the five characters by the rank of their roles.
pub struct WorldView {
    pub grid: Grid,
    pub layout: Grid,
    pub characters: Seq<Character>,
    pub tuning: Tuning,
}

impl WorldView {
    pub open spec fn wf(self) -> bool {
        &&& self.grid.wf()
        &&& self.layout.wf()
        &&& self.grid.width == self.layout.width
        &&& self.grid.height == self.layout.height
        &&& self.characters.len() == ROLES
        &&& forall|i: int| 0 <= i < ROLES ==> self.on_grid(#[trigger] self.characters[i])
    }

    /// The cells that a character knows are cells of the grid.
    pub open spec fn on_grid(self, c: Character) -> bool {
        &&& self.grid.contains(c.position)
        &&& self.grid.contains(c.last_position)
        &&& self.grid.contains(c.default_position)
    }

    pub open spec fn player(self) -> Character {
        self.characters[Role::Player.rank()]
    }

    pub open spec fn character(self, role: Role) -> Character {
        self.characters[role.rank()]
    }

    /// A monster stands on the player's cell.
    pub open spec fn is_game_over(self) -> bool {
        exists|i: int| 1 <= i < ROLES && self.characters[i].position == self.player().position
    }

    /// The world at the start of a level: the maze as laid out, every
    /// character on its starting cell.
    pub open spec fn reset(self) -> WorldView {
        WorldView {
            grid: self.layout,
            characters: Seq::new(self.characters.len(), |i: int| self.characters[i].respawned()),
            ..self
        }
    }

    /// `next` is a cell that the character of the given role may move to
    /// in this world.
    pub open spec fn allows(self, role: Role, next: Vec2) -> bool {
        let agent = self.character(role);
        let player = self.player();
        match role {
            Role::Player => next == agent.position,
            Role::Wander => wander_options(self.grid, agent).contains(next),
            Role::Chase => chase_allows(self.grid, agent, player.position, next),
            Role::Ambush => chase_allows(
                self.grid,
                agent,
                ambush_target(self.grid, player, self.tuning.ambush_lead as int),
                next,
            ),
            Role::Pincer => chase_allows(
                self.grid,
                agent,
                pincer_target(
                    self.grid,
                    self.character(Role::Chase).position,
                    player.position,
                    self.tuning.pincer_reach as int,
                ),
                next,
            ),
        }
    }

    /// The world in the middle of the tick that leads to `after`, when the
    /// monsters at the places before `i` have moved and the others have not.
    pub open spec fn stage(self, after: WorldView, i: int) -> WorldView {
        WorldView {
            characters: Seq::new(
                self.characters.len(),
                |j: int|
                    if 1 <= j < i {
                        after.characters[j]
                    } else {
                        self.characters[j]
                    },
            ),
            ..self
        }
    }

    /// In the tick that leads to `after`, the monster at place `i` makes a
    /// move that its role allows in the world as it is when its turn comes,
    /// and remembers the cell it left.
    pub open spec fn moves_by_rule(self, after: WorldView, i: int, role: Role) -> bool {
        &&& after.characters[i] == self.characters[i].moved_to(after.characters[i].position)
        &&& self.stage(after, i).allows(role, after.characters[i].position)
    }

    /// `after` is a world that one tick can lead to: the monsters have moved
    /// in the order of their roles, each by its rule, and nothing else has
    /// changed.
    pub open spec fn tick_allows(self, after: WorldView) -> bool {
        &&& after == self.stage(after, ROLES as int)
        &&& self.moves_by_rule(after, 1, Role::Wander)
        &&& self.moves_by_rule(after, 2, Role::Chase)
        &&& self.moves_by_rule(after, 3, Role::Ambush)
        &&& self.moves_by_rule(after, 4, Role::Pincer)
    }

    /// The cell that the player tries to enter: one step in the direction
    /// asked for, or the cell it stands on where none is asked for.
    pub open spec fn player_goal(self, intent: Option<Direction>) -> Vec2 {
        let here = self.player().position;
        match intent {
            Some(d) => self.grid.step(here, d),
            None => self.grid.wrap(here.x as int, here.y as int),
        }
    }

    /// How the player's move ends.
    pub open spec fn player_move(self, intent: Option<Direction>) -> PlayerMove {
        match self.grid.cell_at(self.player_goal(intent)) {
            CellKind::Wall => PlayerMove::Blocked,
            CellKind::Collectible => PlayerMove::Collected,
            CellKind::Empty => PlayerMove::Moved,
        }
    }

    /// The character shown on `cell` where several stand on it: the one
    /// latest in the roster. `None` where nobody stands on it.
    pub open spec fn occupant(self, cell: Vec2) -> Option<Role> {
        if self.characters[4].position == cell {
            Some(Role::Pincer)
        } else if self.characters[3].position == cell {
            Some(Role::Ambush)
        } else if self.characters[2].position == cell {
            Some(Role::Chase)
        } else if self.characters[1].position == cell {
            Some(Role::Wander)
        } else if self.characters[0].position == cell {
            Some(Role::Player)
        } else {
            None
        }
    }

    /// The world after the player's move: where the goal is walkable the
    /// player stands on it, remembers the cell it left, and has taken the
    /// collectible there; where it is a wall nothing has changed.
    pub open spec fn after_player(self, intent: Option<Direction>) -> WorldView {
        let goal = self.player_goal(intent);
        if self.grid.is_walkable(goal) {
            WorldView {
                grid: self.grid.consume(goal),
                characters: self.characters.update(0, self.player().moved_to(goal)),
                ..self
            }
        } else {
            self
        }
    }
}

/// Whatever its role, a character on the grid is only allowed moves that
/// keep it there.
pub proof fn lemma_allowed_moves_stay_on_grid(w: WorldView, role: Role, next: Vec2)
    requires
        w.wf(),
        w.allows(role, next),
    ensures
        w.grid.contains(next),
{
    let agent = w.character(role);
    let player = w.player();
    assert(w.on_grid(w.characters[role.rank()]));
    match role {
        Role::Player => {},
        Role::Wander => {
            lemma_wander_options(w.grid, agent, next);
        },
        Role::Chase => {
            lemma_chase_does_not_turn_back(w.grid, agent, player.position, next);
        },
        Role::Ambush => {
            lemma_chase_does_not_turn_back(
                w.grid,
                agent,
                ambush_target(w.grid, player, w.tuning.ambush_lead as int),
                next,
            );
        },
        Role::Pincer => {
            lemma_chase_does_not_turn_back(
                w.grid,
                agent,
                pincer_target(
                    w.grid,
                    w.character(Role::Chase).position,
                    player.position,
                    w.tuning.pincer_reach as int,
                ),
                next,
            );
        },
    }
}

/// The maze, its layout for the next level, and the five characters.
pub struct World {
    maze: Maze,
    default_maze: Maze,
    characters: Vec<Character>,
    tuning: Tuning,
}

impl View for World {
    type V = WorldView;

    closed spec fn view(&self) -> WorldView {
        WorldView {
            grid: self.maze@,
            layout: self.default_maze@,
            characters: self.characters@,
            tuning: self.tuning,
        }
    }
}

impl World {
    /// A world at the start of its first level, with the usual tuning: each
    /// character stands on the cell that its entry of `spawns` names on the
    /// torus.
    pub fn new(maze: Maze, spawns: [Vec2; 5]) -> (world: World)
        requires
            maze@.wf(),
        ensures
            world@.wf(),
            world@.grid == maze@,
            world@.layout == maze@,
            world@.tuning == (Tuning { ambush_lead: AMBUSH_LEAD, pincer_reach: PINCER_REACH }),
            forall|i: int|
                0 <= i < ROLES ==> #[trigger] world@.characters[i] == Character::spawn_at_spec(
                    maze@.wrap(spawns[i].x as int, spawns[i].y as int),
                ),
    {
        World::with_tuning(maze, spawns, Tuning::default())
    }

    /// A world at the start of its first level, with a tuning of its own.
    pub fn with_tuning(maze: Maze, spawns: [Vec2; 5], tuning: Tuning) -> (world: World)
        requires
            maze@.wf(),
        ensures
            world@.wf(),
            world@.grid == maze@,
            world@.layout == maze@,
            world@.tuning == tuning,
            forall|i: int|
                0 <= i < ROLES ==> #[trigger] world@.characters[i] == Character::spawn_at_spec(
                    maze@.wrap(spawns[i].x as int, spawns[i].y as int),
                ),
    {
        let mut characters: Vec<Character> = Vec::new();
        let mut i: usize = 0;
        while i < ROLES
            invariant
                maze@.wf(),
                i <= ROLES,
                characters.len() == i,
                forall|j: int|
                    0 <= j < i ==> #[trigger] characters[j] == Character::spawn_at_spec(
                        maze@.wrap(spawns[j].x as int, spawns[j].y as int),
                    ),
            decreases ROLES - i,
        {
            characters.push(Character::spawn_at(maze.wrap(spawns[i])));
            i += 1;
        }
        let default_maze = maze.duplicate();
        World { maze, default_maze, characters, tuning }
    }

    pub fn tuning(&self) -> (tuning: Tuning)
        ensures
            tuning == self@.tuning,
    {
        self.tuning
    }

    pub fn maze(&self) -> (maze: &Maze)
        ensures
            maze@ == self@.grid,
    {
        &self.maze
    }

    pub fn character(&self, role: Role) -> (c: Character)
        requires
            self@.wf(),
        ensures
            c == self@.character(role),
    {
        self.characters[role.index()]
    }

    /// Starts the level anew: the maze is as it was laid out, and every
    /// character stands on its starting cell.
    pub fn init(&mut self)
        requires
            old(self)@.wf(),
        ensures
            final(self)@ == old(self)@.reset(),
            final(self)@.wf(),
    {
        self.maze = self.default_maze.duplicate();
        let mut i: usize = 0;
        while i < ROLES
            invariant
                i <= ROLES,
                self.characters.len() == ROLES,
                old(self).characters.len() == ROLES,
                self.tuning == old(self).tuning,
                self.maze@ == old(self).default_maze@,
                self.default_maze@ == old(self).default_maze@,
                forall|j: int|
                    0 <= j < i ==> #[trigger] self.characters[j] == old(
                        self,
                    ).characters[j].respawned(),
                forall|j: int|
                    i <= j < ROLES ==> #[trigger] self.characters[j] == old(self).characters[j],
            decreases ROLES - i,
        {
            let mut c = self.characters[i];
            c.respawn();
            self.characters.set(i, c);
            i += 1;
        }
        assert(self@.characters =~= old(self)@.reset().characters);
    }

    /// The cell that the character of the given role would move to now.
    pub fn decide(&self, role: Role) -> (next: Vec2)
        requires
            self@.wf(),
        ensures
            self@.allows(role, next),
    {
        let agent = self.characters[role.index()];
        let player = self.characters[Role::Player.index()];
        match role {
            Role::Player => agent.position,
            Role::Wander => get_random_position(&agent, &self.maze),
            Role::Chase => get_chase_position(&agent, player.position, &self.maze),
            Role::Ambush => get_ambush_position(
                &agent,
                &player,
                self.tuning.ambush_lead,
                &self.maze,
            ),
            Role::Pincer => {
                let chaser = self.characters[Role::Chase.index()];
                get_pincer_position(
                    &agent,
                    &chaser,
                    &player,
                    self.tuning.pincer_reach,
                    &self.maze,
                )
            },
        }
    }

    /// Moves every monster once, in the order of the roles.
    pub fn tick(&mut self)
        requires
            old(self)@.wf(),
        ensures
            old(self)@.tick_allows(final(self)@),
            final(self)@.wf(),
    {
        let ghost before = self@;
        let mut i: usize = 1;
        assert(before.stage(before, 1).characters =~= before.characters);
        while i < ROLES
            invariant
                1 <= i <= ROLES,
                before.wf(),
                self@.wf(),
                self@ == before.stage(self@, i as int),
                i > 1 ==> before.moves_by_rule(self@, 1, Role::Wander),
                i > 2 ==> before.moves_by_rule(self@, 2, Role::Chase),
                i > 3 ==> before.moves_by_rule(self@, 3, Role::Ambush),
                i > 4 ==> before.moves_by_rule(self@, 4, Role::Pincer),
            decreases ROLES - i,
        {
            let ghost now = self@;
            let role = Role::from_index(i).unwrap();
            let next = self.decide(role);
            proof {
                lemma_allowed_moves_stay_on_grid(now, role, next);
                assert(now.on_grid(now.characters[i as int]));
            }
            let mut c = self.characters[i];
            c.move_to(next);
            self.characters.set(i, c);
            proof {
                let then = self@;
                assert(then == before.stage(then, i + 1)) by {
                    assert(then.characters =~= before.stage(then, i + 1).characters);
                }
                assert(before.stage(then, i as int) == now) by {
                    assert(before.stage(then, i as int).characters =~= now.characters);
                }
                assert forall|j: int| 1 <= j <= i implies before.stage(then, j) == before.stage(
                    now,
                    j,
                ) || j == i by {
                    assert(before.stage(then, j).characters =~= before.stage(now, j).characters
                        || j == i);
                }
                assert(before.moves_by_rule(then, i as int, role));
            }
            i += 1;
        }
    }

    /// Moves the player one step where `intent` asks for one and the cell
    /// is walkable, and takes the collectible there. Says how the move ended.
    pub fn move_player(&mut self, intent: Option<Direction>) -> (outcome: PlayerMove)
        requires
            old(self)@.wf(),
        ensures
            final(self)@ == old(self)@.after_player(intent),
            outcome == old(self)@.player_move(intent),
            final(self)@.wf(),
    {
        let mut player = self.characters[0];
        let goal = match intent {
            Some(d) => self.maze.step(player.position, d),
            None => self.maze.wrap(player.position),
        };
        match self.maze.cell_at(goal) {
            CellKind::Wall => PlayerMove::Blocked,
            CellKind::Collectible => {
                player.move_to(goal);
                self.characters.set(0, player);
                self.maze.consume(goal);
                PlayerMove::Collected
            },
            CellKind::Empty => {
                player.move_to(goal);
                self.characters.set(0, player);
                self.maze.consume(goal);
                PlayerMove::Moved
            },
        }
    }

    /// The character to show on `cell`, if anybody stands on it.
    pub fn occupant(&self, cell: Vec2) -> (shown: Option<Role>)
        requires
            self@.wf(),
        ensures
            shown == self@.occupant(cell),
    {
        let mut i: usize = ROLES;
        while i > 0
            invariant
                i <= ROLES,
                self.characters.len() == ROLES,
                forall|j: int| i <= j < ROLES ==> (#[trigger] self.characters[j]).position != cell,
            decreases i,
        {
            i -= 1;
            if self.characters[i].position == cell {
                return Role::from_index(i);
            }
        }
        None
    }

    /// A monster has caught the player.
    pub fn is_game_over(&self) -> (over: bool)
        requires
            self@.wf(),
        ensures
            over == self@.is_game_over(),
    {
        let mut i: usize = 1;
        while i < ROLES
            invariant
                1 <= i <= ROLES,
                self.characters.len() == ROLES,
                forall|j: int|
                    1 <= j < i ==> (#[trigger] self.characters[j]).position
                        != self.characters[0].position,
            decreases ROLES - i,
        {
            if self.characters[i].position == self.characters[0].position {
                assert(self@.characters[i as int].position == self@.player().position);
                return true;
            }
            i += 1;
        }
        false
    }

    /// The player has taken every collectible.
    pub fn is_complete(&self) -> (done: bool)
        ensures
            done == !self@.grid.has_collectible(),
    {
        self.maze.is_complete()
    }
}

} // verus!
