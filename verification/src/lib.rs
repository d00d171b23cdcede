//! Ownership-coin staking rewards: the account layouts, the fixed-point reward
//! arithmetic and the instruction processors of the staking program, each with
//! a contract.

pub mod accounts;
pub mod checks;
pub mod codec;
pub mod cpi;
pub mod error;
pub mod instruction;
pub mod keys;
pub mod laws;
pub mod math;
pub mod processor;
pub mod state;
pub mod token;

pub use keys::id;
pub use processor::process_instruction;
