pub mod types;
pub mod bump_allocator;
pub mod gl_shared;
