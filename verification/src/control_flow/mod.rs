pub mod graph;

pub use graph::ControlFlowGraph;
pub mod visualizer;
