//! A second-order Markov chain over words: a table from two-word prefixes to
//! the words seen after them, trained on sentences and walked to generate text.

pub mod model;
pub mod sentence;
pub mod database;
pub mod laws;

pub use database::{Database, MarkovError, Prefix};
pub use sentence::Sentence;
