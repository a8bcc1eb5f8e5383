pub mod labels;
pub mod parse;
pub mod resolve;
pub mod grammar;
pub mod codegen;
