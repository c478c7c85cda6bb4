//! A dense, weighted graph over a fixed number of nodes, with a label layer
//! that maps text identifiers to node indices, a reachability-based cycle
//! check, a simplified circuit-feasibility check, and a parser for lines of
//! unsigned integers that feed such a graph.
pub mod model;
pub mod graph;
pub mod algorithms;
pub mod laws;
pub mod number_line;

pub use graph::Graph;
pub use model::{GraphError, GraphModel};
pub use number_line::{convert_vector_string_to_u64, inputline_vector_u64, parse_u64, splitline};
