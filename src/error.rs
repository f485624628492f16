use vstd::prelude::*;

verus! {

/// The errors that the program reports to the host runtime.
#[derive(Debug, Clone, Copy, PartialEq, Eq, Structural)]
pub enum ProgramError {
    /// The instruction bytes do not encode any instruction.
    InvalidInstructionData,
    /// Fewer accounts were supplied than the instruction reads.
    NotEnoughAccountKeys,
    /// An account that must have signed the transaction did not.
    MissingRequiredSignature,
    /// An account is not owned by the executing program.
    IncorrectProgramId,
    /// An account does not hold the record that it should.
    InvalidAccountData,
    /// A record could not be serialized into its account buffer.
    BorshIoError,
}

} // verus!
