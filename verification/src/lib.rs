//! A small expression language with integers, booleans, subtraction, a zero
//! test, conditionals and lexically scoped `let`: a scanner, a parser, an
//! environment and an evaluator, each with a mathematical model and a
//! contract that ties the executable code to it.

pub mod text;
pub mod int_bool;
pub mod let_lang_scanner;
pub mod let_lang_exp;
pub mod let_lang_env;
pub mod let_lang_parser;
pub mod let_lang_eval;
pub mod occurs;
pub mod grammar;
pub mod round_trip;
