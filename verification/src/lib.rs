//! A dice-notation library: parses expressions such as `2*d10+adv(d20+d4)-d4`
//! into an abstract syntax tree and evaluates them either as a single random
//! roll or as the exact distribution of all possible outcomes.

pub mod color_parser;
pub mod constant;
pub mod convolution;
pub mod die;
pub mod errors;
pub mod expression;
pub mod grammar;
pub mod operators;
pub mod parser;
pub mod plot;
pub mod roll;
pub mod semantics;
pub mod table;

pub use errors::EvalError;
pub use errors::ParseError;
pub use expression::Comparison;
pub use expression::Expression;
pub use parser::parse;
pub use table::PlotResult;
