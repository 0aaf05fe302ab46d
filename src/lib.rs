//! Expression evaluation for a constraint-system compiler: resolved values,
//! symbol tables and the evaluator that emits constraints.
pub mod ast;
pub mod gadgets;
pub mod laws;
pub mod program;
pub mod semantics;
pub mod symbols;
pub mod update;
pub mod values;
