pub mod error;
pub mod generator;

pub use error::CodeGeneratorError;
pub use generator::CodeGenerator;
