pub mod world;
pub mod iterators;
pub mod filters;
pub mod derive_impl;
pub mod merge;
