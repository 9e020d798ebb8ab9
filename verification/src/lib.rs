//! A maze on a torus, monsters that hunt a player through it, and the
//! breadth-first search they hunt with, all of it verified.
//!
//! `maze` holds the grid and its cells, `path` says what a route is and
//! which one is preferred, `search` finds the routes, `shortest` states what
//! holds of them, `strategy` turns them into the monsters' moves, and
//! `world` moves everybody tick by tick. `explorer` is for someone who walks
//! a labyrinth of rooms instead.

pub mod character;
pub mod direction;
pub mod explorer;
pub mod frontier;
pub mod maze;
pub mod path;
pub mod search;
pub mod shortest;
pub mod strategy;
pub mod vec2;
pub mod world;
