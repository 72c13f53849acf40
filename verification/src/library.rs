pub mod id_counter;
pub mod utils;
pub mod text;
pub mod line_editor;
pub mod stack_string;
