pub mod frames;
pub mod pages;
