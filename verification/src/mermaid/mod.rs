pub mod cache;
pub mod renderer;
