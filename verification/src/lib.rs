//! A verified model of the Tower of Hanoi puzzle: disks, the three towers
//! they rest on, the cursor that carries one disk at a time, and the game
//! that interprets the player's commands.

pub mod board;
pub mod command;
pub mod game;
pub mod shortest;
pub mod types;

pub use game::Game;
