pub mod model;
pub mod cmark;
pub mod parser;
pub mod render;
pub mod runs;
