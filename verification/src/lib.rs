//! A lazy, call-by-need evaluator for a small Nix-like expression language.
//!
//! The core is an explicit reduction machine: an arena [`expr::Heap`] owning
//! every node, a runtime value representation [`expr::Expr`] that doubles as
//! the abstract-syntax-tree node type, a chained lexical environment
//! [`expr::Env`], an explicit continuation stack of [`expr::Cont`] frames, and
//! a step-wise transition function that drives reduction to a final value
//! under a bounded step budget.  The lexer for the surface syntax lives in
//! [`lexer`].

pub mod eval;
pub mod expr;
pub mod lexer;
