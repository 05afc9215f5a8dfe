//! Text search in the grid of a terminal emulator.

pub mod automaton;
pub mod blocks;
pub mod brackets;
pub mod cell;
pub mod checked;
pub mod grid;
pub mod guarantees;
pub mod index;
pub mod laws;
pub mod matches;
pub mod motion;
pub mod outcomes;
pub mod plain;
pub mod progress;
pub mod readings;
pub mod regex;
pub mod scan;
pub mod search;
pub mod term;
pub mod utf8;
pub mod walk;
