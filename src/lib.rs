//! A two-player chess rule engine over plain piece snapshots: move
//! generation, attack and check detection, mate detection, move simulation
//! and a text encoding of positions.

pub mod model;
pub mod moves;
pub mod game;
pub mod parser;
pub mod state;
pub mod titles;
