//! The errors that the staking program answers with.

use vstd::prelude::*;

verus! {

/// Why an instruction was refused: the program-error codes that the runtime
/// reports for this program.
#[derive(Clone, Copy, Debug, PartialEq, Eq, Structural)]
pub enum ProgramError {
    InvalidArgument,
    InvalidInstructionData,
    InvalidAccountData,
    InsufficientFunds,
    IncorrectProgramId,
    MissingRequiredSignature,
    AccountAlreadyInitialized,
    UninitializedAccount,
    NotEnoughAccountKeys,
    InvalidSeeds,
    IllegalOwner,
    ArithmeticOverflow,
}

} // verus!
