//! Parsing, sort checking and e-graph encoding of the QF_ADT fragment of SMT-LIB 2.6.
pub mod egraph;
pub mod text;
pub mod sexp;
pub mod ast;
pub mod grammar;
pub mod parser;
pub mod sorts;
pub mod typing;
pub mod subst;
pub mod subst_all;
pub mod print;
pub mod adt;
pub mod rules;
pub mod desugar;
pub mod classes;
pub mod solver;
pub mod reread;
pub mod bool_meaning;
