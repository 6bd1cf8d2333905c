pub mod rule;
pub mod scanner;
pub mod text;
