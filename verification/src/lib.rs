//! A small library behind a workout-tracking command line tool.
//!
//! It models the tool's logic as verified code: the movement records and the
//! table of movements with its uniqueness constraints, the coercion of user
//! tokens to booleans, the mapping from command-line arguments to commands,
//! and the help text. Reading and writing the database file is left to the
//! surrounding program.

pub mod boolean;
pub mod command;
pub mod help;
pub mod movement;
pub mod store;
pub mod text;
