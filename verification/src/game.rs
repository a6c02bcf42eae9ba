//! One match: the controllers' decisions, and the rules of the arena.

pub mod controller;
pub mod pong;
