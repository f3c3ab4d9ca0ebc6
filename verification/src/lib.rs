pub mod document;
pub mod text;
pub mod config;
pub mod sync;
pub mod input;
pub mod render;
pub mod mermaid;
pub mod app;
pub mod highlight;
