pub mod thread;
pub mod scheduler;
