//! Reverses the word order of a text while keeping every word intact: the lines come out
//! from the last to the first, and the words of each line in reverse order.

pub mod error;
pub mod naming;
pub mod pipeline;
pub mod segment;
pub mod splice;
pub mod text;
pub mod words;
