use vstd::prelude::*;

verus! {

/// Why an endpoint refused a call. On the chain a refusal reverts the whole
/// transaction; here the state is left as it was.
#[derive(Clone, Copy, PartialEq, Eq, Debug, Structural)]
pub enum EntityError {
    ActionNotAllowedByUser,
    GovTokenMustBeSet,
    InvalidPaymentToken,
    NotEnoughGovTokensAvailable,
    InvalidSignature,
    NotTrustedHost,
    InvalidTokenId,
    InvalidQuorum,
    MinVoteWeightZero,
    MinProposeWeightZero,
    VotingPeriodZero,
    VotingPeriodTooLong,
    RoleAlreadyExists,
    RoleDoesNotExist,
    LastLeader,
    PermissionDoesNotExist,
    PolicyAlreadyExists,
    CallerMustBeLeader,
    ProposalAlreadyRegistered,
    ActionNotAllowedForUser,
    InsufficientVoteWeight,
    InvalidActionsHash,
    VoteWeightZero,
    ProposalDoesNotExist,
    NotEnoughVoteWeight,
    ProposalNotActive,
    NoActionsToExecute,
    ProposalNotFound,
    ActionsCorrupted,
    ProposalNotExecutable,
    UntruthfulPermissions,
    GovTokenAlreadySet,
    GovernanceTokenAlreadySet,
    OnlyAllowedForLeader,
    AmountMustBePositive,
    AlreadyVotedWithNft,
    ContractStageLockedAlready,
    ContractStageUnlockedAlready,
    ContractNotStaged,
    ContractStageLocked,
    AddressMustNotBeSelf,
    CodeMustNotBeEmpty,
    CallerMustBeDeveloper,
    NotPlugged,
    StorageDecode,
    NegativeAmount,
    AmountOverflow,
    TimestampOverflow,
}

/// The message that the contract signals for each refusal.
pub open spec fn error_message(e: EntityError) -> Seq<char> {
    match e {
        EntityError::ActionNotAllowedByUser => "action not allowed by user"@,
        EntityError::GovTokenMustBeSet => "gov token must be set"@,
        EntityError::InvalidPaymentToken => "invalid token"@,
        EntityError::NotEnoughGovTokensAvailable => "not enough governance tokens available"@,
        EntityError::InvalidSignature => "invalid signature"@,
        EntityError::NotTrustedHost => "not a trusted host"@,
        EntityError::InvalidTokenId => "invalid token id"@,
        EntityError::InvalidQuorum => "invalid quorum"@,
        EntityError::MinVoteWeightZero => "min vote weight can not be zero"@,
        EntityError::MinProposeWeightZero => "min propose weight can not be zero"@,
        EntityError::VotingPeriodZero => "voting period can not be zero"@,
        EntityError::VotingPeriodTooLong => "max voting period exceeded"@,
        EntityError::RoleAlreadyExists => "role already exists"@,
        EntityError::RoleDoesNotExist => "role does not exist"@,
        EntityError::LastLeader => "can not remove last leader: gov token or plug required"@,
        EntityError::PermissionDoesNotExist => "permission does not exist"@,
        EntityError::PolicyAlreadyExists => "policy already exists"@,
        EntityError::CallerMustBeLeader => "caller must be leader"@,
        EntityError::ProposalAlreadyRegistered => "proposal already registered"@,
        EntityError::ActionNotAllowedForUser => "action not allowed for user"@,
        EntityError::InsufficientVoteWeight => "insufficient vote weight"@,
        EntityError::InvalidActionsHash => "invalid actions hash"@,
        EntityError::VoteWeightZero => "vote weight must be greater than 0"@,
        EntityError::ProposalDoesNotExist => "proposal does not exist"@,
        EntityError::NotEnoughVoteWeight => "not enought vote weight"@,
        EntityError::ProposalNotActive => "proposal is not active"@,
        EntityError::NoActionsToExecute => "no actions to execute"@,
        EntityError::ProposalNotFound => "proposal not found"@,
        EntityError::ActionsCorrupted => "actions have been corrupted"@,
        EntityError::ProposalNotExecutable => "proposal is not executable"@,
        EntityError::UntruthfulPermissions => "untruthful permissions announced"@,
        EntityError::GovTokenAlreadySet => "gov token is already set"@,
        EntityError::GovernanceTokenAlreadySet => "governance token already set"@,
        EntityError::OnlyAllowedForLeader => "only allowed for leader"@,
        EntityError::AmountMustBePositive => "amount must be greater than zero"@,
        EntityError::AlreadyVotedWithNft => "already voted with nft"@,
        EntityError::ContractStageLockedAlready => "contract stage is locked already"@,
        EntityError::ContractStageUnlockedAlready => "contract stage is unlocked already"@,
        EntityError::ContractNotStaged => "contract not staged"@,
        EntityError::ContractStageLocked => "contract stage is locked"@,
        EntityError::AddressMustNotBeSelf => "address must not be self"@,
        EntityError::CodeMustNotBeEmpty => "code must not be empty"@,
        EntityError::CallerMustBeDeveloper => "caller must be developer"@,
        EntityError::NotPlugged => "not plugged"@,
        EntityError::StorageDecode => "storage decode error: input too short"@,
        EntityError::NegativeAmount => "cannot subtract because result would be negative"@,
        EntityError::AmountOverflow => "amount exceeds the supported range"@,
        EntityError::TimestampOverflow => "voting period end exceeds the supported range"@,
    }
}

impl EntityError {
    pub fn message(&self) -> (msg: &'static str)
        ensures
            msg@ == error_message(*self),
    {
        match self {
            EntityError::ActionNotAllowedByUser => "action not allowed by user",
            EntityError::GovTokenMustBeSet => "gov token must be set",
            EntityError::InvalidPaymentToken => "invalid token",
            EntityError::NotEnoughGovTokensAvailable => "not enough governance tokens available",
            EntityError::InvalidSignature => "invalid signature",
            EntityError::NotTrustedHost => "not a trusted host",
            EntityError::InvalidTokenId => "invalid token id",
            EntityError::InvalidQuorum => "invalid quorum",
            EntityError::MinVoteWeightZero => "min vote weight can not be zero",
            EntityError::MinProposeWeightZero => "min propose weight can not be zero",
            EntityError::VotingPeriodZero => "voting period can not be zero",
            EntityError::VotingPeriodTooLong => "max voting period exceeded",
            EntityError::RoleAlreadyExists => "role already exists",
            EntityError::RoleDoesNotExist => "role does not exist",
            EntityError::LastLeader => "can not remove last leader: gov token or plug required",
            EntityError::PermissionDoesNotExist => "permission does not exist",
            EntityError::PolicyAlreadyExists => "policy already exists",
            EntityError::CallerMustBeLeader => "caller must be leader",
            EntityError::ProposalAlreadyRegistered => "proposal already registered",
            EntityError::ActionNotAllowedForUser => "action not allowed for user",
            EntityError::InsufficientVoteWeight => "insufficient vote weight",
            EntityError::InvalidActionsHash => "invalid actions hash",
            EntityError::VoteWeightZero => "vote weight must be greater than 0",
            EntityError::ProposalDoesNotExist => "proposal does not exist",
            EntityError::NotEnoughVoteWeight => "not enought vote weight",
            EntityError::ProposalNotActive => "proposal is not active",
            EntityError::NoActionsToExecute => "no actions to execute",
            EntityError::ProposalNotFound => "proposal not found",
            EntityError::ActionsCorrupted => "actions have been corrupted",
            EntityError::ProposalNotExecutable => "proposal is not executable",
            EntityError::UntruthfulPermissions => "untruthful permissions announced",
            EntityError::GovTokenAlreadySet => "gov token is already set",
            EntityError::GovernanceTokenAlreadySet => "governance token already set",
            EntityError::OnlyAllowedForLeader => "only allowed for leader",
            EntityError::AmountMustBePositive => "amount must be greater than zero",
            EntityError::AlreadyVotedWithNft => "already voted with nft",
            EntityError::ContractStageLockedAlready => "contract stage is locked already",
            EntityError::ContractStageUnlockedAlready => "contract stage is unlocked already",
            EntityError::ContractNotStaged => "contract not staged",
            EntityError::ContractStageLocked => "contract stage is locked",
            EntityError::AddressMustNotBeSelf => "address must not be self",
            EntityError::CodeMustNotBeEmpty => "code must not be empty",
            EntityError::CallerMustBeDeveloper => "caller must be developer",
            EntityError::NotPlugged => "not plugged",
            EntityError::StorageDecode => "storage decode error: input too short",
            EntityError::NegativeAmount => "cannot subtract because result would be negative",
            EntityError::AmountOverflow => "amount exceeds the supported range",
            EntityError::TimestampOverflow => "voting period end exceeds the supported range",
        }
    }
}

} // verus!
