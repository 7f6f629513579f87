//! The character and everything that belongs to it.

pub mod ability_score;
pub mod character;
pub mod effect;
pub mod hit_points;
pub mod inventory;
pub mod limits;
pub mod named;
pub mod path;
pub mod roll;
