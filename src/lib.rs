//! A greedy longest-match tokenizer over caller-supplied regular-expression
//! rules, with a small calculator token set built on top of it.

pub mod calc;
pub mod lemmas;
pub mod parser;
pub mod pattern;
