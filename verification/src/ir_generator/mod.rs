pub mod blocks;
pub mod compaction;
pub mod domain;
pub mod error;
pub mod generator;
pub mod lowering;
pub mod typing;
pub mod visualizer;

pub use domain::{
    IRBinaryOp, IRBlock, IRFunction, IRModule, IRNode, IRNodeKind, IRString, IRUnaryOp, IRValue,
    IRVariable, IRVariableDeclaration, VariableType,
};
pub use error::IRGeneratorError;
pub use generator::IRGenerator;
