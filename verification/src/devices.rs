pub mod cga;
pub mod terminal;
pub mod pit;
