pub mod adjacency;
pub mod arity;
pub mod balance;
pub mod engine;
pub mod errors;
pub mod function;
pub mod grouping;
pub mod infix;
pub mod number;
pub mod operator;
pub mod postfix;
pub mod spacing;
pub mod text;

pub use engine::math_parser;
pub use errors::math_parser_errors;
pub use infix::infix_to_postfix;
pub use postfix::{demand, evaluation, outcome, postfix_to_result, progress};
