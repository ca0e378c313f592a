//! Core of a terminal music player: the music library model, the player
//! state machine, the sample ring buffer and small display helpers.
pub mod app;
pub mod laws;
pub mod library;
pub mod order;
pub mod player;
pub mod text;
pub mod ui;
