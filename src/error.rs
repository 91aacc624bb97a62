use vstd::prelude::*;

verus! {

/// Every way an operation of the ledger can be refused.
#[derive(Debug, Clone, PartialEq, Eq)]
pub enum ContractError {
    CustomError { val: String },
    // common
    Unauthorized,
    CollectionDuplication,
    CollectionIsNotFound,
    CollectionIsNotAdded,
    CollectionBalanceIsEmpty,
    WeightsAreUnbalanced,
    WeightIsOutOfRange,
    UndefinedReplyId,
    WrongProposalStatus,
    ActionByEmissionType,
    AssetIsNotFound,
    WrongMessageType,
    WrongActionType,
    WrongFundsCombination,
    ParameterIsNotFound { value: String },
    /// A sum of amounts does not fit in 128 bits.
    AmountOverflow,
    /// A withdrawal asks for more than the collection balance holds.
    InsufficientBalance,
    /// The time given precedes the last claim of an item it would settle.
    TimestampBeforeLastClaim,
    // minter
    DenomExists,
    WrongMinterTokenType,
}

} // verus!
