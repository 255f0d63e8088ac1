//! Race simulator for the Dango Great Battle: a circular track of
//! `TRACK_LEN` cells on which dango stack, ride each other, and use skills.

pub mod track;
pub mod dangos;
pub mod rng;
pub mod race;
pub mod game;
pub mod stats;
pub mod utils;
