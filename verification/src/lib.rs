//! A single-player minesweeper engine with a compositional terminal
//! renderer: a verified cell state machine, field generation under a
//! density cap, a flood-fill reveal, cursor handling, and bordered panels
//! painted into a fixed-size character buffer.

pub mod cell;
pub mod field;
pub mod game;
pub mod grid;
pub mod tui;
