pub mod assign;
pub mod error;
pub mod folder;
pub mod inline;
pub mod optimizer;
pub mod propagator;
pub mod return_rewrite;

pub use assign::remove_redundant_assignments;
pub use error::IROptimizerError;
pub use folder::fold_constants;
pub use inline::inline_functions;
pub use optimizer::optimize_ir;
pub use propagator::propagate_constants;
