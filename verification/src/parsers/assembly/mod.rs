pub mod tokenizer;
pub mod keyword_map;
pub mod parser;
