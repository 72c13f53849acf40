pub mod shell;
pub mod shell_commands;
pub mod keyboard_demo;
