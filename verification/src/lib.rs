//! A small S-expression interpreter: a tokenizer, a parser producing an
//! expression tree, and a tree-walking evaluator over a chain of
//! parent-linked scopes.
//!
//! Every function is specified against a mathematical model: token and
//! expression trees have sequence-based views, the environment arena has a
//! view as a sequence of scopes, and `spec_eval` gives the meaning of
//! evaluation itself. The executable tokenizer, parser, evaluator and
//! renderer are proved to compute exactly what those specifications say.
pub mod eval;
pub mod lexer;
pub mod parser;
