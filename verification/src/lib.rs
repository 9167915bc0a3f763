//! A call graph for tracking how failure conditions propagate across
//! function calls: nodes are functions (local to the analyzed unit or
//! external), edges are call sites, and the graph can be rendered as a
//! dot-language text document.

pub mod graph;
pub mod ids;
