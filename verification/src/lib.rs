pub mod engine;
pub mod laws;
pub mod lines;
pub mod render;
pub mod wc;
