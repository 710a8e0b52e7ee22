//! Tree views of a compiled Move package: the public functions of each module
//! with their resolved signatures, or the package's dependency graph.

pub mod graph;
pub mod modules;
pub mod order;
pub mod render;
pub mod retry;
pub mod signature;
pub mod style;
