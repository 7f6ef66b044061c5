use vstd::prelude::*;

verus! {

/// Why a predicate rejected a transaction. Each variant has a one-byte exit code (see [`Error::code`]).
#[derive(Debug, Clone, Copy, PartialEq, Eq, Structural)]
pub enum Error {
    IndexOutOfBound,
    ItemMissing,
    LengthNotEnough,
    Encoding,
    TotalSizeNotMatch,
    HeaderIsBroken,
    UnknownItem,
    OffsetsNotMatch,
    FieldCountNotMatch,
    SignatureVerificationError,
    NoArgs,
    NoWitness,
    ChannelIdMismatch,
    VersionNumberNotIncreasing,
    StateIsFinal,
    StateNotFinal,
    ChannelNotFunded,
    NotParticipant,
    SumOfBalancesNotEqual,
    OwnIndexNotFound,
    ChannelDoesNotContinue,
    MultipleMatchingOutputs,
    FundsInInputs,
    AppChannelsNotSupported,
    NonLedgerChannelsNotSupported,
    VirtualChannelsNotSupported,
    ChannelStateNotEqual,
    FundingChanged,
    FundingNotInStatus,
    OwnFundingNotInOutputs,
    FundedBitStatusNotCorrect,
    StateIsFunded,
    ChannelFundWithoutChannelOutput,
    ChannelDisputeWithoutChannelOutput,
    ChannelCloseWithChannelOutput,
    ChannelForceCloseWithChannelOutput,
    ChannelAbortWithChannelOutput,
    InvalidThreadToken,
    InvalidChannelId,
    StartWithNonZeroVersion,
    StartWithFinalizedState,
    InvalidPCLSCodeHash,
    InvalidPCLSHashType,
    PCLSWithArgs,
    StatusDisputed,
    StatusNotDisputed,
    FundingNotZero,
    NotAllPayed,
    TimeLockNotExpired,
    InvalidTimestamp,
    UnableToLoadAnyChannelStatus,
    InvalidSignature,
    InvalidMessage,
    InvalidPFLSInOutputs,
    PCTSNotFound,
    FoundDifferentChannel,
    MoreThanOneChannel,
    BalanceBelowPFLSMinCapacity,
    SamePaymentAddress,
    TypeScriptInPaymentOutput,
    TypeScriptInPFLSOutput,
    InvalidSUDT,
    InvalidSUDTDataLength,
}

impl Error {
    /// The exit code of each error.
    pub open spec fn code_of(self) -> int {
        match self {
            Error::IndexOutOfBound => 1,
            Error::ItemMissing => 2,
            Error::LengthNotEnough => 3,
            Error::Encoding => 4,
            Error::TotalSizeNotMatch => 5,
            Error::HeaderIsBroken => 6,
            Error::UnknownItem => 7,
            Error::OffsetsNotMatch => 8,
            Error::FieldCountNotMatch => 9,
            Error::SignatureVerificationError => 10,
            Error::NoArgs => 11,
            Error::NoWitness => 12,
            Error::ChannelIdMismatch => 13,
            Error::VersionNumberNotIncreasing => 14,
            Error::StateIsFinal => 15,
            Error::StateNotFinal => 16,
            Error::ChannelNotFunded => 17,
            Error::NotParticipant => 18,
            Error::SumOfBalancesNotEqual => 19,
            Error::OwnIndexNotFound => 20,
            Error::ChannelDoesNotContinue => 21,
            Error::MultipleMatchingOutputs => 22,
            Error::FundsInInputs => 23,
            Error::AppChannelsNotSupported => 24,
            Error::NonLedgerChannelsNotSupported => 25,
            Error::VirtualChannelsNotSupported => 26,
            Error::ChannelStateNotEqual => 27,
            Error::FundingChanged => 28,
            Error::FundingNotInStatus => 29,
            Error::OwnFundingNotInOutputs => 30,
            Error::FundedBitStatusNotCorrect => 31,
            Error::StateIsFunded => 32,
            Error::ChannelFundWithoutChannelOutput => 33,
            Error::ChannelDisputeWithoutChannelOutput => 34,
            Error::ChannelCloseWithChannelOutput => 35,
            Error::ChannelForceCloseWithChannelOutput => 36,
            Error::ChannelAbortWithChannelOutput => 37,
            Error::InvalidThreadToken => 38,
            Error::InvalidChannelId => 39,
            Error::StartWithNonZeroVersion => 40,
            Error::StartWithFinalizedState => 41,
            Error::InvalidPCLSCodeHash => 42,
            Error::InvalidPCLSHashType => 43,
            Error::PCLSWithArgs => 44,
            Error::StatusDisputed => 45,
            Error::StatusNotDisputed => 46,
            Error::FundingNotZero => 47,
            Error::NotAllPayed => 48,
            Error::TimeLockNotExpired => 49,
            Error::InvalidTimestamp => 50,
            Error::UnableToLoadAnyChannelStatus => 51,
            Error::InvalidSignature => 52,
            Error::InvalidMessage => 53,
            Error::InvalidPFLSInOutputs => 54,
            Error::PCTSNotFound => 55,
            Error::FoundDifferentChannel => 56,
            Error::MoreThanOneChannel => 57,
            Error::BalanceBelowPFLSMinCapacity => 58,
            Error::SamePaymentAddress => 59,
            Error::TypeScriptInPaymentOutput => 60,
            Error::TypeScriptInPFLSOutput => 61,
            Error::InvalidSUDT => 62,
            Error::InvalidSUDTDataLength => 63,
        }
    }

    /// The script exit code of this error; codes are numbered from 1 in declaration order.
    pub fn code(&self) -> (r: i8)
        ensures
            r == self.code_of(),
    {
        match self {
            Error::IndexOutOfBound => 1,
            Error::ItemMissing => 2,
            Error::LengthNotEnough => 3,
            Error::Encoding => 4,
            Error::TotalSizeNotMatch => 5,
            Error::HeaderIsBroken => 6,
            Error::UnknownItem => 7,
            Error::OffsetsNotMatch => 8,
            Error::FieldCountNotMatch => 9,
            Error::SignatureVerificationError => 10,
            Error::NoArgs => 11,
            Error::NoWitness => 12,
            Error::ChannelIdMismatch => 13,
            Error::VersionNumberNotIncreasing => 14,
            Error::StateIsFinal => 15,
            Error::StateNotFinal => 16,
            Error::ChannelNotFunded => 17,
            Error::NotParticipant => 18,
            Error::SumOfBalancesNotEqual => 19,
            Error::OwnIndexNotFound => 20,
            Error::ChannelDoesNotContinue => 21,
            Error::MultipleMatchingOutputs => 22,
            Error::FundsInInputs => 23,
            Error::AppChannelsNotSupported => 24,
            Error::NonLedgerChannelsNotSupported => 25,
            Error::VirtualChannelsNotSupported => 26,
            Error::ChannelStateNotEqual => 27,
            Error::FundingChanged => 28,
            Error::FundingNotInStatus => 29,
            Error::OwnFundingNotInOutputs => 30,
            Error::FundedBitStatusNotCorrect => 31,
            Error::StateIsFunded => 32,
            Error::ChannelFundWithoutChannelOutput => 33,
            Error::ChannelDisputeWithoutChannelOutput => 34,
            Error::ChannelCloseWithChannelOutput => 35,
            Error::ChannelForceCloseWithChannelOutput => 36,
            Error::ChannelAbortWithChannelOutput => 37,
            Error::InvalidThreadToken => 38,
            Error::InvalidChannelId => 39,
            Error::StartWithNonZeroVersion => 40,
            Error::StartWithFinalizedState => 41,
            Error::InvalidPCLSCodeHash => 42,
            Error::InvalidPCLSHashType => 43,
            Error::PCLSWithArgs => 44,
            Error::StatusDisputed => 45,
            Error::StatusNotDisputed => 46,
            Error::FundingNotZero => 47,
            Error::NotAllPayed => 48,
            Error::TimeLockNotExpired => 49,
            Error::InvalidTimestamp => 50,
            Error::UnableToLoadAnyChannelStatus => 51,
            Error::InvalidSignature => 52,
            Error::InvalidMessage => 53,
            Error::InvalidPFLSInOutputs => 54,
            Error::PCTSNotFound => 55,
            Error::FoundDifferentChannel => 56,
            Error::MoreThanOneChannel => 57,
            Error::BalanceBelowPFLSMinCapacity => 58,
            Error::SamePaymentAddress => 59,
            Error::TypeScriptInPaymentOutput => 60,
            Error::TypeScriptInPFLSOutput => 61,
            Error::InvalidSUDT => 62,
            Error::InvalidSUDTDataLength => 63,
        }
    }

    /// Whether this is one of the errors that a malformed serialized record raises.
    pub open spec fn is_format_error(self) -> bool {
        ||| self == Error::TotalSizeNotMatch
        ||| self == Error::HeaderIsBroken
        ||| self == Error::UnknownItem
        ||| self == Error::OffsetsNotMatch
        ||| self == Error::FieldCountNotMatch
    }
}

} // verus!
