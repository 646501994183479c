//! A composable reduction engine: reducer definitions built from primitives
//! and combinators, executed by sequential or data-parallel drivers, with
//! partial results merged associatively.

pub mod fold;
pub mod common;
pub mod drivers;
pub mod funcs;
pub mod combinators;
pub mod stats;
