//! Verified core of the koi game engine: integer vector math, an
//! archetype-based entity component store, JSON reading and writing,
//! the GLB container format and a few graphics helpers.

pub mod kgltf;
pub mod kgraphics;
pub mod kmath;
pub mod kphysics;
pub mod kreflect;
pub mod kserde;
pub mod ktasks;
pub mod ktracing_allocator;
pub mod kudo;
