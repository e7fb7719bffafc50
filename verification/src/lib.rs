pub mod span;
pub mod types;
pub mod text;
pub mod errors;
pub mod value;
pub mod heap;
pub mod alu;
pub mod stack;
pub mod ast;
pub mod interpreter;
pub mod laws;
