pub mod json_deserialize;
pub mod json_serialize;
pub mod derive_impl;
pub mod thing;
pub mod collections;
