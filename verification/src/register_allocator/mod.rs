pub mod allocator;
pub mod assoc;
pub mod domain;
pub mod error;
pub mod irc;
pub mod visualizer;

pub use allocator::RegisterAllocator;
pub use domain::{RegisterAllocation, RegisterAllocationFunction};
pub use error::RegisterAllocatorError;
pub use irc::allocate_registers;
