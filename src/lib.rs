//! A bidirectional type checker for a small typed lambda calculus with
//! structural aggregates, interfaces, a self type and bounded generics.
pub mod ast;
pub mod bidirectional;
pub mod simple;
pub mod util;
pub mod parser;
pub mod display;
pub mod lambda;
pub mod puck;
