pub mod tokenizer;
pub mod mir_builder;
pub mod parser;
pub mod ranges;
