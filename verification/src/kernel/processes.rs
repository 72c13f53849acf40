pub mod process;
pub mod vma;
