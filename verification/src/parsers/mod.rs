pub mod text;
pub mod source_map;
pub mod assembly;
pub mod lines;
pub mod mal;
pub mod lockable;
