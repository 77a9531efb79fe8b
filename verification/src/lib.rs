pub mod envelope;
pub mod laws;
pub mod dtype;
pub mod parser;
pub mod value;
