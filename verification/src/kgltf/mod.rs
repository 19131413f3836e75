pub mod glb;
pub mod schema;
pub mod schema_spec;
pub mod schema_reader;
pub mod rust_types;
pub mod generator;
