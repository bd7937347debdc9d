pub mod ast;
pub mod parser;
pub mod position;
pub mod text;
pub mod token;
