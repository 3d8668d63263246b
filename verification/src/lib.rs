//! Recovers a finite automaton from the model that a constraint solver prints.
//!
//! [`parser`] turns the solver's text into a typed syntax tree, and [`graph`]
//! recognises in that tree the chain of conditionals that encodes a transition
//! table and builds the directed, edge-labelled graph it describes.

pub mod graph;
pub mod parser;
pub mod text;
