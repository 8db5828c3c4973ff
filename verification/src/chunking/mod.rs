pub mod chaining;
pub mod context;
pub mod pages;
pub mod sentencizer;
