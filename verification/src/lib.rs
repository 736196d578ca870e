//! A template engine for Handlebars and Mustache templates: a compiler from
//! source text to a tree, and an evaluator of that tree against JSON-shaped data.
use vstd::prelude::*;

pub use self::ast::HBEntry;
pub use self::ast::HBExpression;
pub use self::ast::HBValHolder;
pub use self::ast::ParseError;
pub use self::ast::RenderOptions;
pub use self::ast::Template;
pub use self::data::HBData;
pub use self::eval::eval;
pub use self::eval::EvalContext;
pub use self::eval::EvalError;
pub use self::eval::HBEvalResult;
pub use self::eval::Helper;
pub use self::eval::HelperAction;
pub use self::eval::NoHelper;
pub use self::expr_parser::parse_hb_expression;
pub use self::parse::parse;
pub use self::token::HBToken;
pub use self::token::Token;

pub mod assemble;
pub mod ast;
pub mod data;
pub mod escape;
pub mod eval;
pub mod expr_lexer;
pub mod expr_parser;
pub mod json;
pub mod laws;
pub mod lexer;
pub mod output;
pub mod parse;
pub mod pattern;
pub mod scope;
pub mod tags;
pub mod text;
pub mod token;
