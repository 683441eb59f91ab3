//! Simulation core of a turn-based territorial-conquest game: the canonical
//! world state, the validation of player commands, and the resolution of one
//! discrete time step of combat and movement from a seeded random source.

pub mod rng;
pub mod game_state;
pub mod resolve;
pub mod laws;
