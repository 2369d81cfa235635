use vstd::prelude::*;

use crate::crypto::{
    ed25519_valid, keccak256, keccak256_of, valid_esdt_identifier, verify_ed25519,
    is_valid_esdt_identifier,
};
use crate::errors::EntityError;
use crate::store::{bytes_eq, copy_bytes, views, Store};

verus! {

/// A token payment: `amount` of the token `token_identifier` with nonce
/// `token_nonce` (0 for a fungible token).
pub struct Payment {
    pub token_identifier: Vec<u8>,
    pub token_nonce: u64,
    pub amount: u128,
}

impl View for Payment {
    type V = (Seq<u8>, u64, u128);

    open spec fn view(&self) -> (Seq<u8>, u64, u128) {
        (self.token_identifier@, self.token_nonce, self.amount)
    }
}

impl Payment {
    pub fn copy(&self) -> (copy: Payment)
        ensures
            copy@ == self@,
    {
        Payment {
            token_identifier: copy_bytes(&self.token_identifier),
            token_nonce: self.token_nonce,
            amount: self.amount,
        }
    }
}

/// Copies a list of payments.
pub fn copy_payments(list: &Vec<Payment>) -> (copy: Vec<Payment>)
    ensures
        views(copy@) == views(list@),
{
    let mut out: Vec<Payment> = Vec::new();
    let mut i: usize = 0;
    while i < list.len()
        invariant
            i <= list@.len(),
            out@.len() == i,
            forall|j: int| 0 <= j < i ==> out@[j]@ == list@[j]@,
        decreases list@.len() - i,
    {
        out.push(list[i].copy());
        i = i + 1;
    }
    assert(views(out@) =~= views(list@));
    out
}

pub const VOTING_PERIOD_MINUTES_DEFAULT: usize = 4320;

pub const VOTING_PERIOD_MINUTES_MAX: usize = 20160;

pub const MIN_PROPOSAL_VOTE_WEIGHT_DEFAULT: u128 = 1;

pub const QUORUM_DEFAULT: u128 = 1;

pub const POLL_MAX_OPTIONS: u8 = 20;

pub const GAS_LIMIT_SET_TOKEN_ROLES: u64 = 60000000;

pub const TOKEN_MAX_DECIMALS: u8 = 18;

/// What the chain tells a call: who calls, the contract's own address, the
/// block time, and what was paid along with the call.
pub struct CallContext {
    pub caller: Vec<u8>,
    pub sc_address: Vec<u8>,
    pub block_timestamp: u64,
    pub egld_value: u128,
    pub esdt_transfers: Vec<Payment>,
}

/// The settings of the entity and the deposits it guards.
pub struct ConfigModule {
    /// The address whose signature admits proposals (empty when unset).
    pub trusted_host_address: Vec<u8>,
    /// The governance token (empty when unset).
    pub gov_token_id: Vec<u8>,
    /// The amount of each token and nonce that voters deposited.
    pub guarded_vote_tokens: Store<(Vec<u8>, u64), u128>,
    /// Whether vote tokens with a nonce are kept until withdrawal.
    pub lock_vote_tokens: Store<Vec<u8>, bool>,
    pub quorum: u128,
    pub min_vote_weight: u128,
    pub min_propose_weight: u128,
    pub voting_period_in_minutes: usize,
}

impl ConfigModule {
    pub open spec fn wf(&self) -> bool {
        &&& self.guarded_vote_tokens.wf()
        &&& self.lock_vote_tokens.wf()
    }

    pub open spec fn has_gov_token(&self) -> bool {
        self.gov_token_id@.len() > 0
    }

    /// The deposited amount of a token and nonce (zero when none).
    pub open spec fn guarded(&self, token: Seq<u8>, nonce: u64) -> nat {
        if self.guarded_vote_tokens.map().contains_key((token, nonce)) {
            self.guarded_vote_tokens.map()[(token, nonce)] as nat
        } else {
            0
        }
    }

    /// Whether vote tokens of `token` are locked (false when unset).
    pub open spec fn locks(&self, token: Seq<u8>) -> bool {
        self.lock_vote_tokens.map().contains_key(token) && self.lock_vote_tokens.map()[token]
    }

    /// The trusted host signed `signable` (by its Keccak-256 digest) with
    /// `signature`, or no trusted host is set.
    pub open spec fn signed_by_trusted_host(&self, signable: Seq<u8>, signature: Seq<u8>) -> bool {
        self.trusted_host_address@.len() == 0 || ed25519_valid(
            self.trusted_host_address@,
            keccak256_of(signable),
            signature,
        )
    }

    /// The settings of a fresh entity: the defaults of the governance module.
    pub fn new(trusted_host_address: Vec<u8>) -> (config: Self)
        ensures
            config.wf(),
            config.trusted_host_address@ == trusted_host_address@,
            config.gov_token_id@ == Seq::<u8>::empty(),
            config.guarded_vote_tokens.map() == Map::<(Seq<u8>, u64), u128>::empty(),
            config.lock_vote_tokens.map() == Map::<Seq<u8>, bool>::empty(),
            config.quorum == QUORUM_DEFAULT,
            config.min_vote_weight == 0,
            config.min_propose_weight == MIN_PROPOSAL_VOTE_WEIGHT_DEFAULT,
            config.voting_period_in_minutes == VOTING_PERIOD_MINUTES_DEFAULT,
    {
        ConfigModule {
            trusted_host_address,
            gov_token_id: Vec::new(),
            guarded_vote_tokens: Store::new(),
            lock_vote_tokens: Store::new(),
            quorum: QUORUM_DEFAULT,
            min_vote_weight: 0,
            min_propose_weight: MIN_PROPOSAL_VOTE_WEIGHT_DEFAULT,
            voting_period_in_minutes: VOTING_PERIOD_MINUTES_DEFAULT,
        }
    }

    pub fn get_guarded(&self, token: &Vec<u8>, nonce: u64) -> (amount: u128)
        requires
            self.wf(),
        ensures
            amount == self.guarded(token@, nonce),
    {
        match self.guarded_vote_tokens.get(&(copy_bytes(token), nonce)) {
            Some(a) => *a,
            None => 0,
        }
    }

    pub fn is_locking_vote_tokens(&self, token: &Vec<u8>) -> (locked: bool)
        requires
            self.wf(),
        ensures
            locked == self.locks(token@),
    {
        match self.lock_vote_tokens.get(token) {
            Some(l) => *l,
            None => false,
        }
    }

    pub fn require_caller_trusted_host(&self, ctx: &CallContext) -> (result: Result<(), EntityError>)
        ensures
            result is Ok <==> ctx.caller@ == self.trusted_host_address@,
            result is Err ==> result == Err::<(), EntityError>(EntityError::ActionNotAllowedByUser),
    {
        if bytes_eq(&ctx.caller, &self.trusted_host_address) {
            Ok(())
        } else {
            Err(EntityError::ActionNotAllowedByUser)
        }
    }

    pub fn require_gov_token_set(&self) -> (result: Result<(), EntityError>)
        ensures
            result is Ok <==> self.has_gov_token(),
            result is Err ==> result == Err::<(), EntityError>(EntityError::GovTokenMustBeSet),
    {
        if self.gov_token_id.len() != 0 {
            Ok(())
        } else {
            Err(EntityError::GovTokenMustBeSet)
        }
    }

    /// Every payment must be made in the governance token.
    pub fn require_payments_with_gov_token(&self, payments: &Vec<Payment>) -> (result: Result<(), EntityError>)
        ensures
            result is Ok <==> forall|i: int|
                0 <= i < payments@.len() ==> (#[trigger] payments@[i]).token_identifier@
                    == self.gov_token_id@,
            result is Err ==> result == Err::<(), EntityError>(EntityError::InvalidPaymentToken),
    {
        let mut i: usize = 0;
        while i < payments.len()
            invariant
                i <= payments@.len(),
                forall|j: int|
                    0 <= j < i ==> (#[trigger] payments@[j]).token_identifier@ == self.gov_token_id@,
            decreases payments@.len() - i,
        {
            if !bytes_eq(&payments[i].token_identifier, &self.gov_token_id) {
                return Err(EntityError::InvalidPaymentToken);
            }
            i = i + 1;
        }
        Ok(())
    }

    /// An amount of the governance token (with `nonce`) may leave the
    /// contract only out of what voters have not deposited: the contract's
    /// `balance` less the guarded amount.
    pub fn require_gov_tokens_available(&self, amount: u128, nonce: u64, balance: u128) -> (result: Result<(), EntityError>)
        requires
            self.wf(),
        ensures
            self.guarded(self.gov_token_id@, nonce) > balance ==> result == Err::<(), EntityError>(
                EntityError::NegativeAmount,
            ),
            self.guarded(self.gov_token_id@, nonce) <= balance ==> (result is Ok <==> amount
                <= balance - self.guarded(self.gov_token_id@, nonce)),
            self.guarded(self.gov_token_id@, nonce) <= balance && result is Err ==> result == Err::<
                (),
                EntityError,
            >(EntityError::NotEnoughGovTokensAvailable),
    {
        let protected = self.get_guarded(&self.gov_token_id, nonce);
        if protected > balance {
            return Err(EntityError::NegativeAmount);
        }
        let available = balance - protected;
        if amount <= available {
            Ok(())
        } else {
            Err(EntityError::NotEnoughGovTokensAvailable)
        }
    }

    /// Checks the trusted host's signature over the Keccak-256 digest of
    /// `signable`; there is nothing to check while no trusted host is set.
    pub fn require_signed_by_trusted_host(&self, signable: &Vec<u8>, signature: &Vec<u8>) -> (result: Result<(), EntityError>)
        ensures
            result is Ok <==> self.signed_by_trusted_host(signable@, signature@),
            result is Err ==> result == Err::<(), EntityError>(EntityError::InvalidSignature),
    {
        if self.trusted_host_address.len() == 0 {
            return Ok(());
        }
        let signable_hashed = keccak256(signable);
        if verify_ed25519(&self.trusted_host_address, &signable_hashed, signature) {
            Ok(())
        } else {
            Err(EntityError::InvalidSignature)
        }
    }

    pub fn try_change_governance_token(&mut self, token_id: &Vec<u8>) -> (result: Result<(), EntityError>)
        ensures
            result is Ok <==> valid_esdt_identifier(token_id@),
            result is Err ==> result == Err::<(), EntityError>(EntityError::InvalidTokenId)
                && *final(self) == *old(self),
            result is Ok ==> final(self).gov_token_id@ == token_id@ && *final(self) == (
            ConfigModule { gov_token_id: final(self).gov_token_id, ..*old(self) }),
    {
        if !is_valid_esdt_identifier(token_id) {
            return Err(EntityError::InvalidTokenId);
        }
        self.gov_token_id = copy_bytes(token_id);
        Ok(())
    }

    pub fn try_change_quorum(&mut self, quorum: u128) -> (result: Result<(), EntityError>)
        ensures
            quorum == 0 ==> result == Err::<(), EntityError>(EntityError::InvalidQuorum)
                && *final(self) == *old(self),
            quorum != 0 ==> result is Ok && *final(self) == (ConfigModule { quorum, ..*old(self) }),
    {
        if quorum == 0 {
            return Err(EntityError::InvalidQuorum);
        }
        self.quorum = quorum;
        Ok(())
    }

    pub fn try_change_min_vote_weight(&mut self, vote_weight: u128) -> (result: Result<(), EntityError>)
        ensures
            vote_weight == 0 ==> result == Err::<(), EntityError>(EntityError::MinVoteWeightZero)
                && *final(self) == *old(self),
            vote_weight != 0 ==> result is Ok && *final(self) == (ConfigModule {
                min_vote_weight: vote_weight,
                ..*old(self)
            }),
    {
        if vote_weight == 0 {
            return Err(EntityError::MinVoteWeightZero);
        }
        self.min_vote_weight = vote_weight;
        Ok(())
    }

    pub fn try_change_min_propose_weight(&mut self, vote_weight: u128) -> (result: Result<(), EntityError>)
        ensures
            vote_weight == 0 ==> result == Err::<(), EntityError>(EntityError::MinProposeWeightZero)
                && *final(self) == *old(self),
            vote_weight != 0 ==> result is Ok && *final(self) == (ConfigModule {
                min_propose_weight: vote_weight,
                ..*old(self)
            }),
    {
        if vote_weight == 0 {
            return Err(EntityError::MinProposeWeightZero);
        }
        self.min_propose_weight = vote_weight;
        Ok(())
    }

    pub fn try_change_voting_period_in_minutes(&mut self, voting_period: usize) -> (result: Result<(), EntityError>)
        ensures
            voting_period == 0 ==> result == Err::<(), EntityError>(EntityError::VotingPeriodZero)
                && *final(self) == *old(self),
            voting_period > VOTING_PERIOD_MINUTES_MAX ==> result == Err::<(), EntityError>(
                EntityError::VotingPeriodTooLong,
            ) && *final(self) == *old(self),
            0 < voting_period <= VOTING_PERIOD_MINUTES_MAX ==> result is Ok && *final(self) == (
            ConfigModule { voting_period_in_minutes: voting_period, ..*old(self) }),
    {
        if voting_period == 0 {
            return Err(EntityError::VotingPeriodZero);
        }
        if voting_period > VOTING_PERIOD_MINUTES_MAX {
            return Err(EntityError::VotingPeriodTooLong);
        }
        self.voting_period_in_minutes = voting_period;
        Ok(())
    }
}

/// The caller must be the contract itself.
pub fn require_caller_self(ctx: &CallContext) -> (result: Result<(), EntityError>)
    ensures
        result is Ok <==> ctx.caller@ == ctx.sc_address@,
        result is Err ==> result == Err::<(), EntityError>(EntityError::ActionNotAllowedByUser),
{
    if bytes_eq(&ctx.caller, &ctx.sc_address) {
        Ok(())
    } else {
        Err(EntityError::ActionNotAllowedByUser)
    }
}

} // verus!
