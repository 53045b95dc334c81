//! Minesweeper game logic: the board model, its XML form, the event
//! registry, the command descriptions and the editing state of the terminal
//! front end.

pub mod board;
pub mod commands;
pub mod field;
pub mod game;
pub mod layout;
pub mod observer;
mod random;
pub mod save;
pub mod text;
pub mod tui;
pub mod xml;
