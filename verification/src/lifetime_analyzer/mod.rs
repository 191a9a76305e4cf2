pub mod analyzer;
pub mod domain;
pub mod element;
pub mod error;
pub mod function;
pub mod liveness;
pub mod uses;

pub use analyzer::analyze_lifetime;
pub use domain::{FunctionLifetime, IRAddress, LifetimeElement, LifetimeOverlaps, LifetimeTable};
pub use error::LifetimeAnalyzerError;
pub mod visualizer;
