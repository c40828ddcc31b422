//! Backtune: the decisions behind a background-soundtrack player, verified.
//!
//! The library holds what the player decides and computes; drawing, audio
//! devices, files and the clock stay with the program that uses it.
pub mod audio;
pub mod controller;
pub mod dir;
pub mod player;
mod random;
pub mod settings;
pub mod text;
pub mod ui;
