//! Core rules of a small "survive the bullets" arcade game: exact integer
//! geometry for point containment, the rotated-rectangle collision test with
//! temporal supersampling, projectile motion, player movement and the round
//! state machine.
pub mod geometry;
pub mod collision;
pub mod motion;
pub mod aim;
pub mod game;
