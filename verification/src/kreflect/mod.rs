pub mod common;
pub mod parser;
pub mod printing;
pub mod token_stream;
pub mod tokenizer;
