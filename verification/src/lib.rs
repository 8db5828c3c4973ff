use vstd::prelude::*;

pub mod chunking;
pub mod config;
pub mod crawler;
pub mod embeddings;
pub mod harvest;
pub mod indexing;
pub mod pattern;
pub mod prune;
pub mod text;

verus! {

} // verus!
