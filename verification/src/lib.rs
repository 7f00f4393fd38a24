//! Assigns time-ordered identifiers to the records of a card deck source
//! and rewrites only the identifier tokens of the document.

pub mod classifier;
pub mod generator;
pub mod text;
pub mod engine;
pub mod batch;
pub mod clock;
pub mod laws;
