//! Monovariant control-flow analysis (0-CFA) for a small higher-order
//! functional language: constraint generation over a labelled syntax tree
//! and a worklist solver that computes the least solution.
//!
//! The crate also carries the syntax and flow functions of a small
//! imperative WHILE language: labelled blocks, statements, a statement
//! builder and the control-flow graph of a program.

pub mod types;
pub mod term;
pub mod expression;
pub mod constraint;
pub mod analysis;
mod solver;
pub mod labelling;
pub mod while_expr;
pub mod block;
pub mod statement;
pub mod boxed;
pub mod functions;
pub mod program;
pub mod builder;
