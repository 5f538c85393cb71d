//! A type-checking kernel for a dependent type theory with an impredicative
//! universe of propositions, universes indexed by level expressions, and
//! inductive families with recursors.
//!
//! `term` holds the mathematical model of expressions and `judgment` what
//! the kernel decides, stated on that model; `expr`, `reduce`, `check` and
//! `env` hold the code that computes it, and `laws`, `steps` and
//! `valuation` what is proved of it.

pub mod error;
pub mod term;
pub mod expr;
pub mod shape;
pub mod level;
pub mod valuation;
pub mod reduce;
pub mod steps;
pub mod judgment;
pub mod inductive;
pub mod check;
pub mod env;
pub mod display;
pub mod laws;
