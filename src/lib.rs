pub mod protocol;
pub mod node;
pub mod laws;
