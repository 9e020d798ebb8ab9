//! How the monsters choose their next cell: at random, straight for a
//! target, ahead of the player, or round its back.

use crate::character::Character;
use crate::direction::Direction;
use crate::maze::{lemma_neighbors_hold_each_step, lemma_wrap_in_grid, Grid, Maze};
use crate::path::first_step;
use crate::search::shortest_first_step;
use crate::shortest::lemma_first_step;
use crate::vec2::{wrap_coord, Vec2};
use rand::seq::IndexedRandom;
use vstd::prelude::*;

verus! {

/// How many of its last moves the player is taken to repeat when a monster
/// lies in ambush, unless a world is told otherwise.
pub const AMBUSH_LEAD: u8 = 3;

/// How many times the way from the chaser to the player is laid on beyond
/// the player to find the cell where the pincer closes, unless a world is
/// told otherwise. With 1 that cell is the chaser's cell mirrored at the
/// player.
pub const PINCER_REACH: u8 = 1;

/// The two numbers that shape how the monsters hunt.
#[derive(Clone, Copy, Debug, PartialEq, Eq, Structural)]
pub struct Tuning {
    pub ambush_lead: u8,
    pub pincer_reach: u8,
}

impl Default for Tuning {
    fn default() -> (tuning: Tuning)
        ensures
            tuning.ambush_lead == AMBUSH_LEAD,
            tuning.pincer_reach == PINCER_REACH,
    {
        Tuning { ambush_lead: AMBUSH_LEAD, pincer_reach: PINCER_REACH }
    }
}

/// The test that keeps the walkable cells other than `barred`.
pub open spec fn is_fresh(g: Grid, barred: Vec2) -> spec_fn(Vec2) -> bool {
    |c: Vec2| g.is_walkable(c) && c != barred
}

/// The test that keeps the walkable cells.
pub open spec fn is_open_cell(g: Grid) -> spec_fn(Vec2) -> bool {
    |c: Vec2| g.is_walkable(c)
}

/// The cells a wandering character may move to, in visiting order: the
/// walkable neighbours other than the cell it just left; where there is
/// none, the walkable neighbours, so that it turns back; and where it is
/// walled in, the cell it stands on.
pub open spec fn wander_options(g: Grid, agent: Character) -> Seq<Vec2> {
    let around = g.neighbors(agent.position);
    let fresh = around.filter(is_fresh(g, agent.last_position));
    let open = around.filter(is_open_cell(g));
    if fresh.len() > 0 {
        fresh
    } else if open.len() > 0 {
        open
    } else {
        seq![g.wrap(agent.position.x as int, agent.position.y as int)]
    }
}

/// `next` is a cell that a chasing character may move to: the first cell of
/// the route to `target` or, where the search names none, a cell that a
/// wandering character may move to.
pub open spec fn chase_allows(g: Grid, agent: Character, target: Vec2, next: Vec2) -> bool {
    match first_step(
        g,
        g.wrap(agent.position.x as int, agent.position.y as int),
        g.wrap(target.x as int, target.y as int),
        agent.last_position,
    ) {
        Some(step) => next == step,
        None => wander_options(g, agent).contains(next),
    }
}

/// The cell where the player would stand after `lead` more moves like its
/// last one.
pub open spec fn ambush_target(g: Grid, player: Character, lead: int) -> Vec2 {
    g.wrap(
        player.position.x + lead * (player.position.x - player.last_position.x),
        player.position.y + lead * (player.position.y - player.last_position.y),
    )
}

/// The cell beyond the player on the line from the chaser, `reach` times as
/// far from the player as the chaser is. With a reach of 1 it is the
/// chaser's cell mirrored at the player.
pub open spec fn pincer_target(g: Grid, chaser: Vec2, player: Vec2, reach: int) -> Vec2 {
    g.wrap(player.x + reach * (player.x - chaser.x), player.y + reach * (player.y - chaser.y))
}

/// The walkable neighbours of `pos`, in visiting order, with `barred` left
/// out where one is given.
fn sift_neighbors(maze: &Maze, pos: Vec2, barred: Option<Vec2>) -> (kept: Vec<Vec2>)
    requires
        maze@.wf(),
    ensures
        kept@ == maze@.neighbors(pos).filter(
            match barred {
                Some(cell) => is_fresh(maze@, cell),
                None => is_open_cell(maze@),
            },
        ),
{
    let around = maze.neighbors(pos);
    let ghost keep = match barred {
        Some(cell) => is_fresh(maze@, cell),
        None => is_open_cell(maze@),
    };
    let mut kept: Vec<Vec2> = Vec::new();
    let mut i: usize = 0;
    proof {
        reveal(Seq::filter);
        assert(around@.take(0) =~= Seq::<Vec2>::empty());
    }
    while i < 4
        invariant
            maze@.wf(),
            i <= 4,
            around@ == maze@.neighbors(pos),
            around@.len() == 4,
            keep == match barred {
                Some(cell) => is_fresh(maze@, cell),
                None => is_open_cell(maze@),
            },
            kept@ == around@.take(i as int).filter(keep),
        decreases 4 - i,
    {
        let cell = around[i];
        let wanted = maze.is_walkable(cell) && match barred {
            Some(b) => cell != b,
            None => true,
        };
        proof {
            assert(wanted == keep(cell));
            assert(around@.take(i + 1) =~= around@.take(i as int).push(cell));
            around@.take(i as int).lemma_filter_push(cell, keep);
        }
        if wanted {
            kept.push(cell);
        }
        i += 1;
    }
    assert(around@.take(4) =~= around@);
    kept
}

/// The cells a wandering character may move to, in visiting order. There is
/// always one at least.
pub fn get_wander_options(character: &Character, maze: &Maze) -> (options: Vec<Vec2>)
    requires
        maze@.wf(),
    ensures
        options@ == wander_options(maze@, *character),
        options@.len() > 0,
{
    let fresh = sift_neighbors(maze, character.position, Some(character.last_position));
    if fresh.len() > 0 {
        return fresh;
    }
    let open = sift_neighbors(maze, character.position, None);
    if open.len() > 0 {
        return open;
    }
    let mut here: Vec<Vec2> = Vec::new();
    here.push(maze.wrap(character.position));
    assert(here@ =~= seq![maze@.wrap(character.position.x as int, character.position.y as int)]);
    here
}

/// Draws one of `options`, each with the same chance, by `choose` of
/// `rand::seq::IndexedRandom` on the thread's generator, `rand::rng()`.
/// What is claimed of it: from an empty list nothing is drawn, and what is
/// drawn from another list is one of its entries.
#[verifier::external_body]
fn choose_position(options: &Vec<Vec2>) -> (picked: Option<Vec2>)
    ensures
        options@.len() == 0 ==> picked.is_none(),
        options@.len() > 0 ==> picked.is_some() && options@.contains(picked.unwrap()),
{
    options.choose(&mut rand::rng()).copied()
}

/// The move that a draw among `options` settles: the cell drawn, or the
/// first option where nothing was drawn.
pub fn settle_choice(options: &Vec<Vec2>, picked: Option<Vec2>) -> (next: Vec2)
    requires
        options@.len() > 0,
    ensures
        next == match picked {
            Some(cell) => cell,
            None => options@[0],
        },
{
    match picked {
        Some(cell) => cell,
        None => options[0],
    }
}

/// Where a wandering character goes next: one of its options, drawn at
/// random.
pub fn get_random_position(character: &Character, maze: &Maze) -> (next: Vec2)
    requires
        maze@.wf(),
    ensures
        wander_options(maze@, *character).contains(next),
{
    let options = get_wander_options(character, maze);
    let picked = choose_position(&options);
    settle_choice(&options, picked)
}

/// Where a character that makes for `target_position` goes next: the first
/// cell of the shortest route or, where the search names none, a cell drawn
/// as for a wandering character.
pub fn get_chase_position(character: &Character, target_position: Vec2, maze: &Maze) -> (next:
    Vec2)
    requires
        maze@.wf(),
    ensures
        chase_allows(maze@, *character, target_position, next),
{
    match shortest_first_step(
        character.position,
        target_position,
        character.last_position,
        maze,
    ) {
        Some(step) => step,
        None => get_random_position(character, maze),
    }
}

/// The cell where the player would stand after `lead` more moves like its
/// last one.
pub fn get_ambush_target(player: &Character, lead: u8, maze: &Maze) -> (target: Vec2)
    requires
        maze@.wf(),
    ensures
        target == ambush_target(maze@, *player, lead as int),
        maze@.contains(target),
{
    let dx: i32 = player.position.x as i32 - player.last_position.x as i32;
    let dy: i32 = player.position.y as i32 - player.last_position.y as i32;
    assert(-65025 <= lead * dx <= 65025 && -65025 <= lead * dy <= 65025) by (nonlinear_arith)
        requires
            0 <= lead <= 255,
            -255 <= dx <= 255,
            -255 <= dy <= 255,
    ;
    maze.wrap_xy(
        player.position.x as i32 + lead as i32 * dx,
        player.position.y as i32 + lead as i32 * dy,
    )
}

/// The cell beyond the player on the line from the chaser, `reach` times as
/// far from the player as the chaser is.
pub fn get_pincer_target(chaser: Vec2, player: Vec2, reach: u8, maze: &Maze) -> (target: Vec2)
    requires
        maze@.wf(),
    ensures
        target == pincer_target(maze@, chaser, player, reach as int),
        maze@.contains(target),
{
    let dx: i32 = player.x as i32 - chaser.x as i32;
    let dy: i32 = player.y as i32 - chaser.y as i32;
    assert(-65025 <= reach * dx <= 65025 && -65025 <= reach * dy <= 65025) by (nonlinear_arith)
        requires
            0 <= reach <= 255,
            -255 <= dx <= 255,
            -255 <= dy <= 255,
    ;
    maze.wrap_xy(player.x as i32 + reach as i32 * dx, player.y as i32 + reach as i32 * dy)
}

/// Where a character that lies in ambush goes next: it makes for the cell
/// where the player would stand after `lead` more moves like its last one.
pub fn get_ambush_position(
    character: &Character,
    player: &Character,
    lead: u8,
    maze: &Maze,
) -> (next: Vec2)
    requires
        maze@.wf(),
    ensures
        chase_allows(maze@, *character, ambush_target(maze@, *player, lead as int), next),
{
    let target = get_ambush_target(player, lead, maze);
    get_chase_position(character, target, maze)
}

/// Where a character that closes the pincer goes next: it makes for the
/// cell opposite the chaser, with the player between them.
pub fn get_pincer_position(
    character: &Character,
    chaser: &Character,
    player: &Character,
    reach: u8,
    maze: &Maze,
) -> (next: Vec2)
    requires
        maze@.wf(),
    ensures
        chase_allows(
            maze@,
            *character,
            pincer_target(maze@, chaser.position, player.position, reach as int),
            next,
        ),
{
    let target = get_pincer_target(chaser.position, player.position, reach, maze);
    get_chase_position(character, target, maze)
}

/// Every cell that a wandering character may move to is a cell of the grid;
/// unless the character is walled in, it is a walkable neighbour; and it is
/// the cell just left only where no other neighbour is walkable.
pub proof fn lemma_wander_options(g: Grid, agent: Character, next: Vec2)
    requires
        g.wf(),
        wander_options(g, agent).contains(next),
    ensures
        g.contains(next),
        (exists|d: Direction| g.is_walkable(g.step(agent.position, d))) ==> g.is_walkable(next)
            && g.neighbors(agent.position).contains(next),
        (exists|d: Direction|
            g.is_walkable(g.step(agent.position, d)) && g.step(agent.position, d)
                != agent.last_position) ==> next != agent.last_position,
        !(exists|d: Direction| g.is_walkable(g.step(agent.position, d))) ==> next == g.wrap(
            agent.position.x as int,
            agent.position.y as int,
        ),
{
    let around = g.neighbors(agent.position);
    let fresh = around.filter(is_fresh(g, agent.last_position));
    let open = around.filter(is_open_cell(g));
    lemma_wrap_in_grid(g, agent.position.x as int, agent.position.y as int);
    assert forall|d: Direction| g.contains(#[trigger] g.step(agent.position, d)) by {
        lemma_wrap_in_grid(g, agent.position.x + d.dx(), agent.position.y + d.dy());
    }
    assert forall|i: int| 0 <= i < 4 implies #[trigger] around[i] == g.step(
        agent.position,
        Direction::of_rank(i),
    ) by {}
    if exists|d: Direction|
        g.is_walkable(g.step(agent.position, d)) && g.step(agent.position, d)
            != agent.last_position {
        let d = choose|d: Direction|
            g.is_walkable(g.step(agent.position, d)) && g.step(agent.position, d)
                != agent.last_position;
        lemma_neighbors_hold_each_step(g, agent.position, d);
        assert(is_fresh(g, agent.last_position)(around[d.rank()]));
        around.lemma_filter_contains(is_fresh(g, agent.last_position), d.rank());
    }
    if exists|d: Direction| g.is_walkable(g.step(agent.position, d)) {
        let d = choose|d: Direction| g.is_walkable(g.step(agent.position, d));
        lemma_neighbors_hold_each_step(g, agent.position, d);
        assert(is_open_cell(g)(around[d.rank()]));
        around.lemma_filter_contains(is_open_cell(g), d.rank());
    }
    if fresh.len() > 0 {
        around.lemma_filter_contains_rev(is_fresh(g, agent.last_position), next);
        let i = choose|i: int| 0 <= i < fresh.len() && fresh[i] == next;
        around.lemma_filter_pred(is_fresh(g, agent.last_position), i);
        let j = choose|j: int| 0 <= j < around.len() && around[j] == next;
        assert(g.is_walkable(g.step(agent.position, Direction::of_rank(j))));
    } else if open.len() > 0 {
        around.lemma_filter_contains_rev(is_open_cell(g), next);
        let i = choose|i: int| 0 <= i < open.len() && open[i] == next;
        around.lemma_filter_pred(is_open_cell(g), i);
        let j = choose|j: int| 0 <= j < around.len() && around[j] == next;
        assert(g.is_walkable(g.step(agent.position, Direction::of_rank(j))));
    } else {
        assert(seq![g.wrap(agent.position.x as int, agent.position.y as int)][0] == next);
    }
}

/// A chasing character stays on the grid, and it never turns back to the
/// cell it just left while another neighbour is walkable.
pub proof fn lemma_chase_does_not_turn_back(g: Grid, agent: Character, target: Vec2, next: Vec2)
    requires
        g.wf(),
        chase_allows(g, agent, target, next),
    ensures
        g.contains(next),
        (exists|d: Direction|
            g.is_walkable(g.step(agent.position, d)) && g.step(agent.position, d)
                != agent.last_position) ==> next != agent.last_position,
{
    let source = g.wrap(agent.position.x as int, agent.position.y as int);
    let goal = g.wrap(target.x as int, target.y as int);
    lemma_wrap_in_grid(g, agent.position.x as int, agent.position.y as int);
    if first_step(g, source, goal, agent.last_position) is Some {
        lemma_first_step(g, source, goal, agent.last_position);
    } else {
        lemma_wander_options(g, agent, next);
    }
}

/// While the player stands still, the cell it is heading for is the cell it
/// stands on, so a character in ambush moves as one that chases the player.
pub proof fn lemma_ambush_on_a_standing_player_is_chase(
    g: Grid,
    agent: Character,
    player: Character,
    lead: int,
    next: Vec2,
)
    requires
        g.wf(),
        player.last_position == player.position,
    ensures
        ambush_target(g, player, lead) == g.wrap(
            player.position.x as int,
            player.position.y as int,
        ),
        chase_allows(g, agent, ambush_target(g, player, lead), next) == chase_allows(
            g,
            agent,
            player.position,
            next,
        ),
{
    assert(lead * (player.position.x - player.last_position.x) == 0) by (nonlinear_arith)
        requires
            player.position.x - player.last_position.x == 0,
    ;
    assert(lead * (player.position.y - player.last_position.y) == 0) by (nonlinear_arith)
        requires
            player.position.y - player.last_position.y == 0,
    ;
    let stand = g.wrap(player.position.x as int, player.position.y as int);
    lemma_wrap_in_grid(g, player.position.x as int, player.position.y as int);
    lemma_wrap_in_grid(g, stand.x as int, stand.y as int);
}

/// With the chaser straight north of the player and a reach of 1, the
/// pincer closes on the cell straight south of the player and as far from
/// it, taken on the torus.
pub proof fn lemma_pincer_mirrors_north_to_south(g: Grid, chaser: Vec2, player: Vec2)
    requires
        g.wf(),
        g.contains(player),
        chaser.x == player.x,
        chaser.y < player.y,
    ensures
        pincer_target(g, chaser, player, 1) == g.wrap(
            player.x as int,
            player.y + (player.y - chaser.y),
        ),
        pincer_target(g, chaser, player, 1).x == player.x,
        pincer_target(g, chaser, player, 1).y == wrap_coord(
            player.y + (player.y - chaser.y),
            g.height,
        ),
{
    lemma_wrap_in_grid(g, player.x as int, player.y + (player.y - chaser.y));
}

} // verus!
