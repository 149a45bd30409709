pub mod error;
pub mod node;
pub mod render;
