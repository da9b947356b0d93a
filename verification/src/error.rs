use vstd::prelude::*;

verus! {

/// Why a call was refused.
#[derive(Debug, Clone, Copy, PartialEq, Eq, Structural)]
pub enum WalletError {
    /// A parameter is not acceptable for the state it is applied to.
    InvalidArgument,
    /// A required signature is missing.
    MissingRequiredSignature,
    /// The caller did not sign, or presented a fingerprint that is not the
    /// operation's.
    InvalidSignature,
    /// The caller is not one of the operation's approvers.
    InvalidApprover,
    /// The record was never initialized, or its storage has been reclaimed.
    OperationNotInitialized,
    /// The record is already in use.
    AccountAlreadyInitialized,
    /// The operation is neither approved, denied nor expired yet.
    TransferDispositionNotFinal,
    /// No wallet is configured under the given identifier.
    WalletNotFound,
    /// Adding the balances overflows.
    AmountOverflow,
    /// The index lies at or beyond the declared count of staged instructions.
    DAppInstructionOverflow,
    /// The staged slot is already filled.
    DAppInstructionAlreadySupplied,
    /// The dry run of a staged call is over; its effects are to be discarded.
    SimulationFinished,
    /// A policy update for this domain is already pending.
    ConcurrentOperationsNotAllowed,
    /// The stored bytes do not decode.
    InvalidAccountData,
    /// The bytes of the call do not decode to an instruction.
    InvalidInstructionData,
    /// The call was handed fewer accounts than it takes.
    NotEnoughAccountKeys,
    /// The account does not belong to the program.
    IncorrectProgramId,
    /// The account is not the one expected in its place.
    AccountNotRecognized,
    /// The account is not the wallet's own.
    InvalidSourceAccount,
}

} // verus!
