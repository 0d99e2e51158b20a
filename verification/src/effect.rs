//! Effect analysis: what every automaton and every callable of a program does.
pub mod callable;
pub mod callgraph;
pub mod category;
pub mod completeness;
pub mod direct;
pub mod error;
pub mod laws;
pub mod overlap;
pub mod profile;
pub mod reports;
pub mod search;
