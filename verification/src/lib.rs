//! Character tracking for a tabletop role-playing game: ability scores, hit
//! points, a nested inventory and the bonuses that features grant to rolls.
//!
//! Every function states what it computes over a mathematical view of its
//! arguments, and the statements are proved.

pub mod command;
pub mod domain;
