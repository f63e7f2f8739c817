//! A terminal Flappy Bird: the screen buffer and its diffing renderer, the
//! pipes, the score and the rules of a frame, with their contracts.

pub mod bird;
pub mod cell;
pub mod color;
pub mod game;
pub mod pipe;
pub mod pipes_manager;
pub mod scoring_system;
pub mod screen_buffer;
