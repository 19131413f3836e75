pub mod vector;
pub mod geometry;
