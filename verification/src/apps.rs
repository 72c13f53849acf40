pub mod shell;
pub mod gui;
pub mod graphic;
pub mod programs;
