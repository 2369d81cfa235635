use vstd::prelude::*;

pub mod deposits;
pub mod events;
pub mod execution;
pub mod proposal;
pub mod status;
pub mod storage;
pub mod token;
pub mod voting;

use crate::config::{require_caller_self, CallContext, ConfigModule, Payment, GAS_LIMIT_SET_TOKEN_ROLES, POLL_MAX_OPTIONS};
use crate::governance::token::{EsdtLocalRole, SpecialRolesRequest, TokenIssueRequest, TokenModule, Transfer};
use crate::governance::deposits::{amount_for, get_weight_from_vote_payments, nonces, payments_total, WithdrawOutcome};
use crate::governance::events::{EventView, GovEventsModule};
use crate::governance::execution::{executed_calls, ActionCall};
use crate::governance::voting::VoteModule;
use crate::governance::proposal::{calculate_actions_hash, Action, ProposalStatus, ProposalView, VoteType};
use crate::governance::storage::{copy_ids, set_with, ProposalModule};
use crate::crypto::valid_esdt_identifier;
use crate::errors::EntityError;
use crate::permission::leader_role;
use crate::store::{bytes_eq, bytes_lists_eq, copy_bytes, views, Store};
use crate::EntityContract;

verus! {

/// The quorum that a token supply suggests: 5% of a supply above 100, else 1.
pub open spec fn initial_quorum(supply: u128) -> u128 {
    if supply > 100 {
        ((supply * 5) / 100) as u128
    } else {
        1
    }
}

/// The weight needed to propose that a token supply suggests: 1% of a
/// supply above 100, else 1.
pub open spec fn initial_min_propose_weight(supply: u128) -> u128 {
    if supply > 100 {
        (supply / 100) as u128
    } else {
        1
    }
}

impl EntityContract {
    /// Sets the governance token and whether its vote tokens stay locked;
    /// a positive supply also sets the quorum and the weight needed to
    /// propose from it.
    pub fn configure_governance_token(&mut self, gov_token_id: &Vec<u8>, supply: u128, lock_vote_tokens: bool) -> (result: Result<(), EntityError>)
        requires
            old(self).wf(),
        ensures
            final(self).wf(),
            !valid_esdt_identifier(gov_token_id@) ==> result == Err::<(), EntityError>(EntityError::InvalidTokenId)
                && *final(self) == *old(self),
            valid_esdt_identifier(gov_token_id@) ==> {
                &&& result is Ok
                &&& final(self).config.gov_token_id@ == gov_token_id@
                &&& final(self).config.lock_vote_tokens.map() == old(self).config.lock_vote_tokens.map().insert(gov_token_id@, lock_vote_tokens)
                &&& final(self).config.quorum == if supply == 0 { old(self).config.quorum } else { initial_quorum(supply) }
                &&& final(self).config.min_propose_weight == if supply == 0 { old(self).config.min_propose_weight } else { initial_min_propose_weight(supply) }
                &&& final(self).config == (ConfigModule {
                    gov_token_id: final(self).config.gov_token_id,
                    lock_vote_tokens: final(self).config.lock_vote_tokens,
                    quorum: final(self).config.quorum,
                    min_propose_weight: final(self).config.min_propose_weight,
                    ..old(self).config
                })
                &&& final(self).members == old(self).members
                &&& final(self).governance == old(self).governance
                &&& final(self).plug == old(self).plug
                &&& final(self).contracts == old(self).contracts
                &&& final(self).events == old(self).events
            },
    {
        self.config.try_change_governance_token(gov_token_id)?;
        self.config.lock_vote_tokens.insert(copy_bytes(gov_token_id), lock_vote_tokens);
        proof {
            EntityContract::lemma_deposits_kept(old(self), self);
        }
        if supply == 0 {
            return Ok(());
        }
        let initial_quorum = if supply > 100 {
            proof {
                assert((supply * 5) / 100 == supply / 20) by (nonlinear_arith);
            }
            supply / 20
        } else {
            1
        };
        let initial_min_tokens_for_proposing = if supply > 100 {
            supply / 100
        } else {
            1
        };
        let ghost before = *self;
        let _ = self.config.try_change_quorum(initial_quorum);
        let _ = self.config.try_change_min_propose_weight(initial_min_tokens_for_proposing);
        proof {
            EntityContract::lemma_deposits_kept(&before, self);
        }
        Ok(())
    }

    /// All payments are made in the governance token.
    pub open spec fn paid_in_gov_token(&self, payments: Seq<(Seq<u8>, u64, u128)>) -> bool {
        forall|i: int| 0 <= i < payments.len() ==> (#[trigger] payments[i]).0 == self.config.gov_token_id@
    }

    /// Why a proposal paid with `payments` would be refused, if it would.
    pub open spec fn propose_refusal(
        &self,
        sc_address: Seq<u8>,
        now: u64,
        caller: Seq<u8>,
        payments: Seq<(Seq<u8>, u64, u128)>,
        trusted_host_id: Seq<u8>,
        content_hash: Seq<u8>,
        content_sig: Seq<u8>,
        actions_hash: Seq<u8>,
        permissions: Seq<Seq<u8>>,
    ) -> Option<EntityError> {
        if !self.paid_in_gov_token(payments) {
            Some(EntityError::InvalidPaymentToken)
        } else if payments_total(payments) > u128::MAX {
            Some(EntityError::AmountOverflow)
        } else if self.proposal_refusal(
            sc_address,
            now,
            caller,
            trusted_host_id,
            content_hash,
            content_sig,
            actions_hash,
            payments_total(payments) as u128,
            permissions,
        ) is Some {
            self.proposal_refusal(
                sc_address,
                now,
                caller,
                trusted_host_id,
                content_hash,
                content_sig,
                actions_hash,
                payments_total(payments) as u128,
                permissions,
            )
        } else {
            self.commit_refusal(self.governance.next_proposal_id, payments)
        }
    }

    fn check_gov_payments(&self, payments: &Vec<Payment>) -> (result: Result<u128, EntityError>)
        ensures
            !self.paid_in_gov_token(views(payments@)) ==> result == Err::<u128, EntityError>(EntityError::InvalidPaymentToken),
            self.paid_in_gov_token(views(payments@)) && payments_total(views(payments@)) > u128::MAX ==> result == Err::<u128, EntityError>(EntityError::AmountOverflow),
            self.paid_in_gov_token(views(payments@)) && payments_total(views(payments@)) <= u128::MAX ==> result == Ok::<u128, EntityError>(payments_total(views(payments@)) as u128),
    {
        let checked = self.config.require_payments_with_gov_token(payments);
        proof {
            assert forall|i: int| 0 <= i < payments@.len() implies views(payments@)[i] == payments@[i]@ by {}
            if checked is Err {
                let i = choose|i: int| 0 <= i < payments@.len() && !((#[trigger] payments@[i]).token_identifier@ == self.config.gov_token_id@);
                assert(views(payments@)[i].0 != self.config.gov_token_id@);
            }
        }
        checked?;
        get_weight_from_vote_payments(payments)
    }

    /// Why a vote paid with `payments` would be refused, if it would.
    pub open spec fn vote_endpoint_refusal(
        &self,
        now: u64,
        payments: Seq<(Seq<u8>, u64, u128)>,
        proposal_id: u64,
        vote_type: VoteType,
        option_id: u8,
    ) -> Option<EntityError> {
        if !self.paid_in_gov_token(payments) {
            Some(EntityError::InvalidPaymentToken)
        } else if payments_total(payments) > u128::MAX {
            Some(EntityError::AmountOverflow)
        } else if self.vote_refusal(now, proposal_id, vote_type, payments_total(payments) as u128, option_id) is Some {
            self.vote_refusal(now, proposal_id, vote_type, payments_total(payments) as u128, option_id)
        } else {
            self.commit_refusal(proposal_id, payments)
        }
    }

    /// What a counted vote paid with `payments` changes: the proposal's
    /// tally and poll, the deposits and NFT votes, and the event log.
    pub open spec fn vote_effects(
        before: EntityContract,
        after: EntityContract,
        caller: Seq<u8>,
        payments: Seq<(Seq<u8>, u64, u128)>,
        proposal_id: u64,
        vote_type: VoteType,
        option_id: u8,
        returned: Seq<(Seq<u8>, u64, u128)>,
    ) -> bool {
        let weight = payments_total(payments) as u128;
        let p = before.governance.proposal(proposal_id);
        let ds = before.deposits_of(payments);
        let rs = before.returns_of(payments);
        &&& returned == rs
        &&& after.governance.proposals.map() == before.governance.proposals.map().insert(proposal_id, after.governance.proposals.map()[proposal_id])
        &&& after.governance.proposal(proposal_id) == (match vote_type {
            VoteType::For => ProposalView { votes_for: (p.votes_for + weight) as u128, ..p },
            VoteType::Against => ProposalView { votes_against: (p.votes_against + weight) as u128, ..p },
        })
        &&& forall|i: u64, o: u8| #[trigger] after.governance.poll(i, o) == if i == proposal_id && o == option_id && option_id != 0 {
            before.governance.poll(i, o) + weight as nat
        } else {
            before.governance.poll(i, o)
        }
        &&& after.governance.withdrawable(proposal_id, caller) == before.governance.withdrawable(proposal_id, caller) + ds
        &&& after.governance.withdrawable_nonces(proposal_id, caller) == before.governance.withdrawable_nonces(proposal_id, caller) + nonces(ds).to_set()
        &&& forall|i: u64, voter: Seq<u8>| (i, voter) != (proposal_id, caller) ==> #[trigger] after.governance.withdrawable(i, voter) == before.governance.withdrawable(i, voter)
        &&& after.governance.withdrawable_ids(caller) == if ds.len() > 0 {
            set_with(before.governance.withdrawable_ids(caller), proposal_id)
        } else {
            before.governance.withdrawable_ids(caller)
        }
        &&& forall|voter: Seq<u8>| voter != caller ==> #[trigger] after.governance.withdrawable_ids(voter) == before.governance.withdrawable_ids(voter)
        &&& after.governance.nft_votes(proposal_id) == before.governance.nft_votes(proposal_id) + nonces(rs)
        &&& forall|i: u64| i != proposal_id ==> #[trigger] after.governance.nft_votes(i) == before.governance.nft_votes(i)
        &&& forall|token: Seq<u8>, nonce: u64| #[trigger] after.config.guarded(token, nonce) == before.config.guarded(token, nonce) + amount_for(ds, token, nonce)
        &&& after.governance == (ProposalModule {
            proposals: after.governance.proposals,
            proposal_poll: after.governance.proposal_poll,
            proposal_nft_votes: after.governance.proposal_nft_votes,
            withdrawable_proposal_ids: after.governance.withdrawable_proposal_ids,
            withdrawable_votes: after.governance.withdrawable_votes,
            ..before.governance
        })
        &&& after.config == (ConfigModule { guarded_vote_tokens: after.config.guarded_vote_tokens, ..before.config })
        &&& after.members == before.members
        &&& after.plug == before.plug
        &&& after.contracts == before.contracts
        &&& after.events@ == before.events@.push(match vote_type {
            VoteType::For => EventView::VoteFor { caller, proposal_id, weight, poll_option: option_id },
            VoteType::Against => EventView::VoteAgainst { caller, proposal_id, weight, poll_option: option_id },
        })
    }

    #[verifier::rlimit(80)]
    fn vote_with_payments(&mut self, ctx: &CallContext, proposal_id: u64, vote_type: VoteType, option_id: u8) -> (result: Result<Vec<Payment>, EntityError>)
        requires
            old(self).wf(),
        ensures
            final(self).wf(),
            ({
                let refusal = old(self).vote_endpoint_refusal(ctx.block_timestamp, views(ctx.esdt_transfers@), proposal_id, vote_type, option_id);
                match result {
                    Err(e) => refusal == Some(e) && *final(self) == *old(self),
                    Ok(returned) => refusal is None && EntityContract::vote_effects(*old(self), *final(self), ctx.caller@, views(ctx.esdt_transfers@), proposal_id, vote_type, option_id, views(returned@)),
                }
            }),
    {
        let vote_weight = self.check_gov_payments(&ctx.esdt_transfers)?;
        self.check_vote(ctx, proposal_id, vote_type, vote_weight, option_id)?;
        proof {
            assert(self.governance.proposals.map()[proposal_id].id == proposal_id);
        }
        let plan = self.plan_vote_payments(ctx, proposal_id)?;
        let ghost start = *self;
        let voted = self.vote(ctx, &ctx.caller, proposal_id, vote_type, vote_weight, option_id);
        match voted {
            Ok(_) => {},
            Err(e) => {
                return Err(e);
            },
        }
        let ghost mid = *self;
        proof {
            assert(mid.governance.nft_votes(proposal_id) == start.governance.nft_votes(proposal_id));
            assert forall|ps: Seq<(Seq<u8>, u64, u128)>| mid.deposits_of(ps) == start.deposits_of(ps) && mid.returns_of(ps) == start.returns_of(ps) by {
                lemma_split_same_config(start, mid, ps);
            }
            assert(mid.governance.has_proposal(proposal_id));
        }
        let returned = self.apply_vote_payments(ctx, proposal_id, plan);
        proof {
            assert forall|i: u64, o: u8| #[trigger] self.governance.poll(i, o) == mid.governance.poll(i, o) by {}
            assert forall|i: u64, voter: Seq<u8>| #[trigger] mid.governance.withdrawable(i, voter) == start.governance.withdrawable(i, voter) by {}
            assert forall|voter: Seq<u8>| #[trigger] mid.governance.withdrawable_ids(voter) == start.governance.withdrawable_ids(voter) by {}
            assert forall|i: u64| #[trigger] mid.governance.nft_votes(i) == start.governance.nft_votes(i) by {}
            assert forall|token: Seq<u8>, nonce: u64| #[trigger] mid.config.guarded(token, nonce) == start.config.guarded(token, nonce) by {}
            assert(self.governance.proposal(proposal_id) == mid.governance.proposal(proposal_id));
            crate::governance::deposits::lemma_nonces_of_added(
                start.governance.withdrawable(proposal_id, ctx.caller@),
                start.deposits_of(views(ctx.esdt_transfers@)),
            );
        }
        Ok(returned)
    }
}

impl EntityContract {
    /// The signer addresses in `ids` added to `acc`, each once.
    pub open spec fn add_signer_addresses(&self, acc: Seq<Seq<u8>>, ids: Seq<usize>) -> Seq<Seq<u8>>
        decreases ids.len(),
    {
        if ids.len() == 0 {
            acc
        } else {
            let before = self.add_signer_addresses(acc, ids.drop_last());
            let address = self.members.address_of(ids.last());
            if before.contains(address) {
                before
            } else {
                before.push(address)
            }
        }
    }

    /// The addresses that signed proposal `id` for the roles, each once, in
    /// the order of the roles and of their signatures.
    pub open spec fn signer_addresses(&self, id: u64, roles: Seq<Seq<u8>>) -> Seq<Seq<u8>>
        decreases roles.len(),
    {
        if roles.len() == 0 {
            Seq::empty()
        } else {
            self.add_signer_addresses(self.signer_addresses(id, roles.drop_last()), self.governance.signers(id, roles.last()))
        }
    }

    /// The roles among `roles` that signed proposal `id`, with their number
    /// of signatures.
    pub open spec fn role_signature_counts(&self, id: u64, roles: Seq<Seq<u8>>) -> Seq<(Seq<u8>, usize)>
        decreases roles.len(),
    {
        if roles.len() == 0 {
            Seq::empty()
        } else {
            let before = self.role_signature_counts(id, roles.drop_last());
            let count = self.governance.signers(id, roles.last()).len();
            if count > 0 {
                before.push((roles.last(), count as usize))
            } else {
                before
            }
        }
    }
}

/// Which vote payments are deposits depends on the settings alone.
pub proof fn lemma_split_same_config(a: EntityContract, b: EntityContract, ps: Seq<(Seq<u8>, u64, u128)>)
    requires
        a.config == b.config,
    ensures
        a.deposits_of(ps) == b.deposits_of(ps),
        a.returns_of(ps) == b.returns_of(ps),
    decreases ps.len(),
{
    if ps.len() > 0 {
        lemma_split_same_config(a, b, ps.drop_last());
    }
}

/// The endpoints and views of governance: the governance token and its
/// settings, proposals, votes, signatures, execution and withdrawal.
pub trait GovernanceModule {
    /// The state invariant that every method keeps.
    spec fn wf(&self) -> bool;

    /// Room for one more user.
    spec fn has_room_for_user(&self) -> bool;

    /// Room for one more proposal id.
    spec fn has_room_for_proposal(&self) -> bool;

    fn init_gov_token_endpoint(&mut self, ctx: &CallContext, token_id: &Vec<u8>, supply: u128, lock_vote_tokens: bool) -> (result: Result<(), EntityError>)
        requires
            old(self).wf(),
        ensures
            final(self).wf(),
    ;

    fn change_gov_token_endpoint(&mut self, ctx: &CallContext, token_id: &Vec<u8>, supply: u128, lock_vote_tokens: bool) -> (result: Result<(), EntityError>)
        requires
            old(self).wf(),
        ensures
            final(self).wf(),
    ;

    fn change_quorum_endpoint(&mut self, ctx: &CallContext, value: u128) -> (result: Result<(), EntityError>)
        requires
            old(self).wf(),
        ensures
            final(self).wf(),
    ;

    fn change_min_vote_weight_endpoint(&mut self, ctx: &CallContext, value: u128) -> (result: Result<(), EntityError>)
        requires
            old(self).wf(),
        ensures
            final(self).wf(),
    ;

    fn change_min_propose_weight_endpoint(&mut self, ctx: &CallContext, value: u128) -> (result: Result<(), EntityError>)
        requires
            old(self).wf(),
        ensures
            final(self).wf(),
    ;

    fn change_voting_period_in_minutes_endpoint(&mut self, ctx: &CallContext, value: usize) -> (result: Result<(), EntityError>)
        requires
            old(self).wf(),
        ensures
            final(self).wf(),
    ;

    fn propose_endpoint(
        &mut self,
        ctx: &CallContext,
        trusted_host_id: Vec<u8>,
        content_hash: Vec<u8>,
        content_sig: Vec<u8>,
        actions_hash: Vec<u8>,
        option_id: u8,
        permissions: Vec<Vec<u8>>,
    ) -> (result: Result<(u64, Vec<Payment>), EntityError>)
        requires
            old(self).wf(),
            old(self).has_room_for_user(),
            old(self).has_room_for_proposal(),
        ensures
            final(self).wf(),
    ;

    fn vote_for_endpoint(&mut self, ctx: &CallContext, proposal_id: u64, opt_option_id: Option<u8>) -> (result: Result<Vec<Payment>, EntityError>)
        requires
            old(self).wf(),
        ensures
            final(self).wf(),
    ;

    fn vote_against_endpoint(&mut self, ctx: &CallContext, proposal_id: u64, opt_option_id: Option<u8>) -> (result: Result<Vec<Payment>, EntityError>)
        requires
            old(self).wf(),
        ensures
            final(self).wf(),
    ;

    fn sign_endpoint(&mut self, ctx: &CallContext, proposal_id: u64, opt_option_id: Option<u8>) -> (result: Result<(), EntityError>)
        requires
            old(self).wf(),
            old(self).has_room_for_user(),
        ensures
            final(self).wf(),
    ;

    fn execute_endpoint(&mut self, ctx: &CallContext, proposal_id: u64, actions: &Vec<Action>, gov_balances: &Store<u64, u128>) -> (result: Result<Vec<ActionCall>, EntityError>)
        requires
            old(self).wf(),
            gov_balances.wf(),
        ensures
            final(self).wf(),
    ;

    fn withdraw_endpoint(&mut self, ctx: &CallContext) -> (batches: Vec<Vec<Payment>>)
        requires
            old(self).wf(),
        ensures
            final(self).wf(),
    ;

    fn issue_gov_token_endpoint(&self, ctx: &CallContext, token_name: &Vec<u8>, token_ticker: &Vec<u8>, supply: u128) -> (result: Result<TokenIssueRequest, EntityError>)
        requires
            self.wf(),
    ;

    fn set_gov_token_local_roles_endpoint(&self, ctx: &CallContext) -> (result: Result<SpecialRolesRequest, EntityError>)
    ;

    fn gov_token_issue_callback(&mut self, ctx: &CallContext, initial_caller: &Vec<u8>, issued: Option<Payment>) -> (result: Result<Option<Transfer>, EntityError>)
        requires
            old(self).wf(),
        ensures
            final(self).wf(),
    ;

    fn mint_endpoint(&self, ctx: &CallContext, token: Vec<u8>, nonce: u64, amount: u128) -> (result: Result<Payment, EntityError>)
    ;

    fn burn_endpoint(&self, ctx: &CallContext, token: Vec<u8>, nonce: u64, amount: u128) -> (result: Result<Payment, EntityError>)
    ;

    fn get_proposal_view(&self, proposal_id: u64) -> (view: Option<(Vec<u8>, Vec<u8>, Vec<u8>, u64, u64, bool)>)
        requires
            self.wf(),
    ;

    fn get_proposal_status_view(&self, proposal_id: u64, now: u64) -> (result: Result<ProposalStatus, EntityError>)
        requires
            self.wf(),
    ;

    fn get_proposal_votes_view(&self, proposal_id: u64) -> (result: Result<(u128, u128), EntityError>)
        requires
            self.wf(),
    ;

    fn get_proposal_signers_view(&self, proposal_id: u64) -> (result: Result<Vec<Vec<u8>>, EntityError>)
        requires
            self.wf(),
    ;

    fn get_proposal_signature_role_counts_view(&self, proposal_id: u64) -> (result: Result<Vec<(Vec<u8>, usize)>, EntityError>)
        requires
            self.wf(),
    ;

    fn get_proposal_poll_results_view(&self, proposal_id: u64) -> (results: Vec<u128>)
        requires
            self.wf(),
    ;
}

impl GovernanceModule for EntityContract {
    open spec fn wf(&self) -> bool {
        EntityContract::wf(self)
    }

    open spec fn has_room_for_user(&self) -> bool {
        self.members.has_room_for_user()
    }

    open spec fn has_room_for_proposal(&self) -> bool {
        self.governance.next_proposal_id < u64::MAX
    }

    /// Sets the governance token once, computing the quorum and the weight
    /// needed to propose from the supply. Only a leader may do so.
    fn init_gov_token_endpoint(&mut self, ctx: &CallContext, token_id: &Vec<u8>, supply: u128, lock_vote_tokens: bool) -> (result: Result<(), EntityError>)
        ensures
            final(self).wf(),
            old(self).config.has_gov_token() ==> result == Err::<(), EntityError>(EntityError::GovTokenAlreadySet),
            !old(self).config.has_gov_token() && !old(self).members.roles_of(ctx.caller@).contains(leader_role())
                ==> result == Err::<(), EntityError>(EntityError::CallerMustBeLeader),
            !old(self).config.has_gov_token() && old(self).members.roles_of(ctx.caller@).contains(leader_role())
                && !valid_esdt_identifier(token_id@) ==> result == Err::<(), EntityError>(EntityError::InvalidTokenId),
            !old(self).config.has_gov_token() && old(self).members.roles_of(ctx.caller@).contains(leader_role()) && valid_esdt_identifier(token_id@) ==> result is Ok,
            result is Err ==> *final(self) == *old(self),
            result is Ok ==> !old(self).config.has_gov_token() && old(self).members.roles_of(ctx.caller@).contains(leader_role())
                && valid_esdt_identifier(token_id@) && final(self).config.gov_token_id@ == token_id@
                && final(self).config.quorum == if supply == 0 { old(self).config.quorum } else { initial_quorum(supply) }
                && final(self).config.min_propose_weight == if supply == 0 { old(self).config.min_propose_weight } else { initial_min_propose_weight(supply) }
                && final(self).config.lock_vote_tokens.map() == old(self).config.lock_vote_tokens.map().insert(token_id@, lock_vote_tokens)
                && *final(self) == (EntityContract {
                    config: ConfigModule {
                        gov_token_id: final(self).config.gov_token_id,
                        lock_vote_tokens: final(self).config.lock_vote_tokens,
                        quorum: final(self).config.quorum,
                        min_propose_weight: final(self).config.min_propose_weight,
                        ..old(self).config
                    },
                    ..*old(self)
                }),
    {
        if self.config.gov_token_id.len() != 0 {
            return Err(EntityError::GovTokenAlreadySet);
        }
        self.members.require_caller_has_leader_role(ctx)?;
        self.configure_governance_token(token_id, supply, lock_vote_tokens)
    }

    /// Changes the governance token, computing the quorum and the weight
    /// needed to propose from the supply. Only the contract itself may do so.
    fn change_gov_token_endpoint(&mut self, ctx: &CallContext, token_id: &Vec<u8>, supply: u128, lock_vote_tokens: bool) -> (result: Result<(), EntityError>)
        ensures
            final(self).wf(),
            ctx.caller@ != ctx.sc_address@ ==> result == Err::<(), EntityError>(EntityError::ActionNotAllowedByUser),
            ctx.caller@ == ctx.sc_address@ && !valid_esdt_identifier(token_id@) ==> result == Err::<(), EntityError>(EntityError::InvalidTokenId),
            ctx.caller@ == ctx.sc_address@ && valid_esdt_identifier(token_id@) ==> result is Ok,
            result is Err ==> *final(self) == *old(self),
            result is Ok ==> ctx.caller@ == ctx.sc_address@ && valid_esdt_identifier(token_id@)
                && final(self).config.gov_token_id@ == token_id@
                && final(self).config.quorum == if supply == 0 { old(self).config.quorum } else { initial_quorum(supply) }
                && final(self).config.min_propose_weight == if supply == 0 { old(self).config.min_propose_weight } else { initial_min_propose_weight(supply) }
                && final(self).config.lock_vote_tokens.map() == old(self).config.lock_vote_tokens.map().insert(token_id@, lock_vote_tokens)
                && *final(self) == (EntityContract {
                    config: ConfigModule {
                        gov_token_id: final(self).config.gov_token_id,
                        lock_vote_tokens: final(self).config.lock_vote_tokens,
                        quorum: final(self).config.quorum,
                        min_propose_weight: final(self).config.min_propose_weight,
                        ..old(self).config
                    },
                    ..*old(self)
                }),
    {
        require_caller_self(ctx)?;
        self.configure_governance_token(token_id, supply, lock_vote_tokens)
    }

    /// Changes the default quorum. Only the contract itself may do so, once
    /// a governance token is set.
    fn change_quorum_endpoint(&mut self, ctx: &CallContext, value: u128) -> (result: Result<(), EntityError>)
        ensures
            final(self).wf(),
            ctx.caller@ != ctx.sc_address@ ==> result == Err::<(), EntityError>(EntityError::ActionNotAllowedByUser),
            ctx.caller@ == ctx.sc_address@ && !old(self).config.has_gov_token() ==> result == Err::<(), EntityError>(EntityError::GovTokenMustBeSet),
            ctx.caller@ == ctx.sc_address@ && old(self).config.has_gov_token() && value == 0 ==> result == Err::<(), EntityError>(EntityError::InvalidQuorum),
            ctx.caller@ == ctx.sc_address@ && old(self).config.has_gov_token() && value != 0 ==> result is Ok,
            result is Err ==> *final(self) == *old(self),
            result is Ok ==> ctx.caller@ == ctx.sc_address@ && old(self).config.has_gov_token() && value != 0
                && *final(self) == (EntityContract { config: ConfigModule { quorum: value, ..old(self).config }, ..*old(self) }),
    {
        require_caller_self(ctx)?;
        self.config.require_gov_token_set()?;
        self.config.try_change_quorum(value)?;
        proof {
            EntityContract::lemma_deposits_kept(old(self), self);
        }
        Ok(())
    }

    /// Changes the weight needed to vote. Only the contract itself may do
    /// so, once a governance token is set.
    fn change_min_vote_weight_endpoint(&mut self, ctx: &CallContext, value: u128) -> (result: Result<(), EntityError>)
        ensures
            final(self).wf(),
            ctx.caller@ != ctx.sc_address@ ==> result == Err::<(), EntityError>(EntityError::ActionNotAllowedByUser),
            ctx.caller@ == ctx.sc_address@ && !old(self).config.has_gov_token() ==> result == Err::<(), EntityError>(EntityError::GovTokenMustBeSet),
            ctx.caller@ == ctx.sc_address@ && old(self).config.has_gov_token() && value == 0 ==> result == Err::<(), EntityError>(EntityError::MinVoteWeightZero),
            ctx.caller@ == ctx.sc_address@ && old(self).config.has_gov_token() && value != 0 ==> result is Ok,
            result is Err ==> *final(self) == *old(self),
            result is Ok ==> ctx.caller@ == ctx.sc_address@ && old(self).config.has_gov_token() && value != 0
                && *final(self) == (EntityContract { config: ConfigModule { min_vote_weight: value, ..old(self).config }, ..*old(self) }),
    {
        require_caller_self(ctx)?;
        self.config.require_gov_token_set()?;
        self.config.try_change_min_vote_weight(value)?;
        proof {
            EntityContract::lemma_deposits_kept(old(self), self);
        }
        Ok(())
    }

    /// Changes the weight needed to propose. Only the contract itself may
    /// do so, once a governance token is set.
    fn change_min_propose_weight_endpoint(&mut self, ctx: &CallContext, value: u128) -> (result: Result<(), EntityError>)
        ensures
            final(self).wf(),
            ctx.caller@ != ctx.sc_address@ ==> result == Err::<(), EntityError>(EntityError::ActionNotAllowedByUser),
            ctx.caller@ == ctx.sc_address@ && !old(self).config.has_gov_token() ==> result == Err::<(), EntityError>(EntityError::GovTokenMustBeSet),
            ctx.caller@ == ctx.sc_address@ && old(self).config.has_gov_token() && value == 0 ==> result == Err::<(), EntityError>(EntityError::MinProposeWeightZero),
            ctx.caller@ == ctx.sc_address@ && old(self).config.has_gov_token() && value != 0 ==> result is Ok,
            result is Err ==> *final(self) == *old(self),
            result is Ok ==> ctx.caller@ == ctx.sc_address@ && old(self).config.has_gov_token() && value != 0
                && *final(self) == (EntityContract { config: ConfigModule { min_propose_weight: value, ..old(self).config }, ..*old(self) }),
    {
        require_caller_self(ctx)?;
        self.config.require_gov_token_set()?;
        self.config.try_change_min_propose_weight(value)?;
        proof {
            EntityContract::lemma_deposits_kept(old(self), self);
        }
        Ok(())
    }

    /// Changes the default voting period, in minutes. Only the contract
    /// itself may do so.
    fn change_voting_period_in_minutes_endpoint(&mut self, ctx: &CallContext, value: usize) -> (result: Result<(), EntityError>)
        ensures
            final(self).wf(),
            ctx.caller@ != ctx.sc_address@ ==> result == Err::<(), EntityError>(EntityError::ActionNotAllowedByUser),
            ctx.caller@ == ctx.sc_address@ && value == 0 ==> result == Err::<(), EntityError>(EntityError::VotingPeriodZero),
            ctx.caller@ == ctx.sc_address@ && value > crate::config::VOTING_PERIOD_MINUTES_MAX ==> result == Err::<(), EntityError>(EntityError::VotingPeriodTooLong),
            ctx.caller@ == ctx.sc_address@ && 0 < value <= crate::config::VOTING_PERIOD_MINUTES_MAX ==> result is Ok,
            result is Err ==> *final(self) == *old(self),
            result is Ok ==> ctx.caller@ == ctx.sc_address@ && 0 < value <= crate::config::VOTING_PERIOD_MINUTES_MAX
                && *final(self) == (EntityContract { config: ConfigModule { voting_period_in_minutes: value, ..old(self).config }, ..*old(self) }),
    {
        require_caller_self(ctx)?;
        self.config.try_change_voting_period_in_minutes(value)?;
        proof {
            EntityContract::lemma_deposits_kept(old(self), self);
        }
        Ok(())
    }

    /// Creates a proposal paid in the governance token: the payment is the
    /// proposer's weight in favour and is deposited as the proposer's vote.
    /// Gives the new proposal's id and the NFTs handed back.
    #[verifier::rlimit(80)]
    fn propose_endpoint(
        &mut self,
        ctx: &CallContext,
        trusted_host_id: Vec<u8>,
        content_hash: Vec<u8>,
        content_sig: Vec<u8>,
        actions_hash: Vec<u8>,
        option_id: u8,
        permissions: Vec<Vec<u8>>,
    ) -> (result: Result<(u64, Vec<Payment>), EntityError>)
        ensures
            final(self).wf(),
            ({
                let refusal = old(self).propose_refusal(
                    ctx.sc_address@,
                    ctx.block_timestamp,
                    ctx.caller@,
                    views(ctx.esdt_transfers@),
                    trusted_host_id@,
                    content_hash@,
                    content_sig@,
                    actions_hash@,
                    views(permissions@),
                );
                match result {
                    Err(e) => refusal == Some(e) && *final(self) == *old(self),
                    Ok(_) => refusal is None,
                }
            }),
            result matches Ok(outcome) ==> {
                let id = old(self).governance.next_proposal_id;
                let ps = views(ctx.esdt_transfers@);
                let weight = payments_total(ps) as u128;
                let ds = old(self).deposits_of(ps);
                let rs = old(self).returns_of(ps);
                let uid = old(self).members.user_id(ctx.caller@) as usize;
                &&& outcome.0 == id
                &&& views(outcome.1@) == rs
                &&& final(self).governance.proposals.map() == old(self).governance.proposals.map().insert(id, final(self).governance.proposals.map()[id])
                &&& final(self).governance.proposal(id) == old(self).new_proposal(
                    ctx.block_timestamp,
                    ctx.caller@,
                    content_hash@,
                    actions_hash@,
                    weight,
                    views(permissions@),
                )
                &&& final(self).governance.next_proposal_id == id + 1
                &&& forall|r: Seq<u8>| #[trigger] final(self).governance.signers(id, r) == if crate::governance::voting::guarded_by_policies(actions_hash@, views(permissions@))
                    && old(self).members.roles_of(ctx.caller@).contains(r) {
                    seq![uid]
                } else {
                    Seq::<usize>::empty()
                }
                &&& forall|i: u64, r: Seq<u8>| i != id ==> #[trigger] final(self).governance.signers(i, r) == old(self).governance.signers(i, r)
                &&& forall|i: u64, o: u8| #[trigger] final(self).governance.poll(i, o) == if i == id && o == option_id && option_id != 0 {
                    weight as nat
                } else {
                    old(self).governance.poll(i, o)
                }
                &&& views(final(self).governance.known_trusted_host_proposal_ids@) == views(old(self).governance.known_trusted_host_proposal_ids@).push(trusted_host_id@)
                &&& final(self).governance.withdrawable(id, ctx.caller@) == ds
                &&& final(self).governance.withdrawable_nonces(id, ctx.caller@) == nonces(ds).to_set()
                &&& forall|i: u64, voter: Seq<u8>| (i, voter) != (id, ctx.caller@) ==> #[trigger] final(self).governance.withdrawable(i, voter) == old(self).governance.withdrawable(i, voter)
                &&& final(self).governance.withdrawable_ids(ctx.caller@) == if ds.len() > 0 {
                    set_with(old(self).governance.withdrawable_ids(ctx.caller@), id)
                } else {
                    old(self).governance.withdrawable_ids(ctx.caller@)
                }
                &&& forall|voter: Seq<u8>| voter != ctx.caller@ ==> #[trigger] final(self).governance.withdrawable_ids(voter) == old(self).governance.withdrawable_ids(voter)
                &&& final(self).governance.nft_votes(id) == nonces(rs)
                &&& forall|i: u64| i != id ==> #[trigger] final(self).governance.nft_votes(i) == old(self).governance.nft_votes(i)
                &&& forall|token: Seq<u8>, nonce: u64| #[trigger] final(self).config.guarded(token, nonce) == old(self).config.guarded(token, nonce) + amount_for(ds, token, nonce)
                &&& final(self).config == (ConfigModule { guarded_vote_tokens: final(self).config.guarded_vote_tokens, ..old(self).config })
                &&& final(self).members == old(self).members
                &&& final(self).plug == old(self).plug
                &&& final(self).contracts == old(self).contracts
                &&& final(self).events@ == old(self).events@.push(EventView::Propose {
                    caller: ctx.caller@,
                    proposal_id: id,
                    weight,
                    poll_option: option_id,
                })
            },
    {
        let proposer = &ctx.caller;
        let vote_weight = self.check_gov_payments(&ctx.esdt_transfers)?;
        let _ = self.check_proposal(
            ctx,
            proposer,
            &trusted_host_id,
            &content_hash,
            &content_sig,
            &actions_hash,
            vote_weight,
            &permissions,
        )?;
        let proposal_id = self.governance.next_proposal_id;
        let plan = self.plan_vote_payments(ctx, proposal_id)?;
        let ghost start = *self;
        proof {
            assert(start.governance.withdrawable(proposal_id, proposer@) == Seq::<(Seq<u8>, u64, u128)>::empty()) by {
                if start.governance.withdrawable_votes.map().contains_key((proposal_id, proposer@)) {
                    assert((proposal_id, proposer@).0 < start.governance.next_proposal_id);
                }
            }
            assert(start.governance.nft_votes(proposal_id) == Seq::<u64>::empty()) by {
                if start.governance.proposal_nft_votes.map().contains_key(proposal_id) {
                    assert(proposal_id < start.governance.next_proposal_id);
                }
            }
        }
        let created = self.create_proposal(
            ctx,
            proposer,
            trusted_host_id,
            content_hash,
            &content_sig,
            actions_hash,
            option_id,
            vote_weight,
            &permissions,
        );
        match created {
            Ok(_) => {},
            Err(e) => {
                return Err(e);
            },
        }
        let ghost mid = *self;
        proof {
            assert(mid.governance.nft_votes(proposal_id) == start.governance.nft_votes(proposal_id));
            assert(mid.governance.withdrawable(proposal_id, proposer@) == start.governance.withdrawable(proposal_id, proposer@));
            assert forall|ps: Seq<(Seq<u8>, u64, u128)>| mid.deposits_of(ps) == start.deposits_of(ps) && mid.returns_of(ps) == start.returns_of(ps) by {
                lemma_split_same_config(start, mid, ps);
            }
        }
        let returned = self.apply_vote_payments(ctx, proposal_id, plan);
        proof {
            assert(self.governance.nft_votes(proposal_id) =~= nonces(start.returns_of(views(ctx.esdt_transfers@))));
            assert(self.governance.withdrawable(proposal_id, proposer@) =~= start.deposits_of(views(ctx.esdt_transfers@)));
            assert forall|i: u64, o: u8| #[trigger] self.governance.poll(i, o) == mid.governance.poll(i, o) by {}
            assert forall|i: u64, r: Seq<u8>| #[trigger] self.governance.signers(i, r) == mid.governance.signers(i, r) by {}
            assert forall|i: u64, voter: Seq<u8>| (i, voter) != (proposal_id, proposer@) implies #[trigger] self.governance.withdrawable(i, voter) == start.governance.withdrawable(i, voter) by {
                assert(mid.governance.withdrawable(i, voter) == start.governance.withdrawable(i, voter));
            }
            assert forall|voter: Seq<u8>| voter != proposer@ implies #[trigger] self.governance.withdrawable_ids(voter) == start.governance.withdrawable_ids(voter) by {
                assert(mid.governance.withdrawable_ids(voter) == start.governance.withdrawable_ids(voter));
            }
            assert forall|i: u64| i != proposal_id implies #[trigger] self.governance.nft_votes(i) == start.governance.nft_votes(i) by {
                assert(mid.governance.nft_votes(i) == start.governance.nft_votes(i));
            }
            assert forall|token: Seq<u8>, nonce: u64| #[trigger] self.config.guarded(token, nonce) == start.config.guarded(token, nonce) + amount_for(start.deposits_of(views(ctx.esdt_transfers@)), token, nonce) by {
                assert(mid.config.guarded(token, nonce) == start.config.guarded(token, nonce));
            }
        }
        Ok((proposal_id, returned))
    }

    /// Votes for a proposal with the governance tokens paid, optionally for
    /// a poll option. Fungible tokens stay deposited until the vote ends;
    /// NFTs count once and come back (the result).
    fn vote_for_endpoint(&mut self, ctx: &CallContext, proposal_id: u64, opt_option_id: Option<u8>) -> (result: Result<Vec<Payment>, EntityError>)
        ensures
            final(self).wf(),
            ({
                let option_id = match opt_option_id { Some(o) => o, None => 0u8 };
                let refusal = old(self).vote_endpoint_refusal(ctx.block_timestamp, views(ctx.esdt_transfers@), proposal_id, VoteType::For, option_id);
                match result {
                    Err(e) => refusal == Some(e) && *final(self) == *old(self),
                    Ok(returned) => refusal is None && EntityContract::vote_effects(*old(self), *final(self), ctx.caller@, views(ctx.esdt_transfers@), proposal_id, VoteType::For, option_id, views(returned@)),
                }
            }),
    {
        let option_id = match opt_option_id {
            Some(o) => o,
            None => 0,
        };
        self.vote_with_payments(ctx, proposal_id, VoteType::For, option_id)
    }

    /// Votes against a proposal with the governance tokens paid, optionally
    /// for a poll option.
    fn vote_against_endpoint(&mut self, ctx: &CallContext, proposal_id: u64, opt_option_id: Option<u8>) -> (result: Result<Vec<Payment>, EntityError>)
        ensures
            final(self).wf(),
            ({
                let option_id = match opt_option_id { Some(o) => o, None => 0u8 };
                let refusal = old(self).vote_endpoint_refusal(ctx.block_timestamp, views(ctx.esdt_transfers@), proposal_id, VoteType::Against, option_id);
                match result {
                    Err(e) => refusal == Some(e) && *final(self) == *old(self),
                    Ok(returned) => refusal is None && EntityContract::vote_effects(*old(self), *final(self), ctx.caller@, views(ctx.esdt_transfers@), proposal_id, VoteType::Against, option_id, views(returned@)),
                }
            }),
    {
        let option_id = match opt_option_id {
            Some(o) => o,
            None => 0,
        };
        self.vote_with_payments(ctx, proposal_id, VoteType::Against, option_id)
    }

    /// Signs a proposal for each of the caller's roles, optionally for a
    /// poll option.
    fn sign_endpoint(&mut self, ctx: &CallContext, proposal_id: u64, opt_option_id: Option<u8>) -> (result: Result<(), EntityError>)
        ensures
            final(self).wf(),
            ({
                let option_id = match opt_option_id { Some(o) => o, None => 0u8 };
                let refusal = old(self).sign_refusal(ctx.block_timestamp, proposal_id, option_id);
                match result {
                    Err(e) => refusal == Some(e) && *final(self) == *old(self),
                    Ok(_) => refusal is None,
                }
            }),
            result is Ok ==> {
                let option_id = match opt_option_id { Some(o) => o, None => 0u8 };
                &&& forall|r: Seq<u8>| #[trigger] final(self).governance.signers(proposal_id, r) == if old(self).members.roles_of(ctx.caller@).contains(r) {
                    set_with(old(self).governance.signers(proposal_id, r), final(self).members.user_id(ctx.caller@) as usize)
                } else {
                    old(self).governance.signers(proposal_id, r)
                }
                &&& forall|id: u64, r: Seq<u8>| id != proposal_id ==> #[trigger] final(self).governance.signers(id, r) == old(self).governance.signers(id, r)
                &&& forall|i: u64, o: u8| #[trigger] final(self).governance.poll(i, o) == if i == proposal_id && o == option_id && option_id != 0 {
                    old(self).governance.poll(i, o) + 1
                } else {
                    old(self).governance.poll(i, o)
                }
                &&& final(self).events@ == old(self).events@.push(EventView::Sign { caller: ctx.caller@, proposal_id, poll_option: option_id })
                &&& final(self).members.user_id(ctx.caller@) >= 1
                &&& forall|a: Seq<u8>| #[trigger] old(self).members.users_view().contains(a) ==> final(self).members.user_id(a) == old(self).members.user_id(a)
                &&& old(self).members.users_view().contains(ctx.caller@) ==> final(self).members == old(self).members
                &&& forall|a: Seq<u8>| #[trigger] final(self).members.roles_of(a) == old(self).members.roles_of(a)
                &&& final(self).governance == (ProposalModule {
                    proposal_signers: final(self).governance.proposal_signers,
                    proposal_poll: final(self).governance.proposal_poll,
                    ..old(self).governance
                })
                &&& final(self).config == old(self).config
                &&& final(self).plug == old(self).plug
                &&& final(self).contracts == old(self).contracts
            },
    {
        let option_id = match opt_option_id {
            Some(o) => o,
            None => 0,
        };
        self.sign(ctx, proposal_id, option_id)
    }

    /// Executes the actions of a succeeded proposal: they must be the ones
    /// whose hash it recorded, and the permissions it announced must be the
    /// ones that apply. The proposal is marked executed; gives the calls.
    fn execute_endpoint(&mut self, ctx: &CallContext, proposal_id: u64, actions: &Vec<Action>, gov_balances: &Store<u64, u128>) -> (result: Result<Vec<ActionCall>, EntityError>)
        ensures
            final(self).wf(),
            ({
                let refusal = old(self).execute_refusal(ctx.block_timestamp, proposal_id, views(actions@), gov_balances.map());
                match result {
                    Err(e) => refusal == Some(e) && *final(self) == *old(self),
                    Ok(calls) => refusal is None && views(calls@) == executed_calls(views(actions@)),
                }
            }),
            result is Ok ==> {
                &&& final(self).governance.proposals.map() == old(self).governance.proposals.map().insert(proposal_id, final(self).governance.proposals.map()[proposal_id])
                &&& final(self).governance.proposal(proposal_id) == ProposalView { was_executed: true, ..old(self).governance.proposal(proposal_id) }
                &&& final(self).governance == (ProposalModule { proposals: final(self).governance.proposals, ..old(self).governance })
                &&& final(self).members == old(self).members
                &&& final(self).config == old(self).config
                &&& final(self).plug == old(self).plug
                &&& final(self).contracts == old(self).contracts
                &&& final(self).events@ == old(self).events@.push(EventView::Execute { caller: ctx.caller@, proposal_id })
            },
    {
        if actions.len() == 0 {
            return Err(EntityError::NoActionsToExecute);
        }
        let mut proposal = match self.governance.get_proposal(proposal_id) {
            Some(p) => p,
            None => {
                return Err(EntityError::ProposalNotFound);
            },
        };
        let actions_hash = calculate_actions_hash(actions);
        if !bytes_eq(&proposal.actions_hash, &actions_hash) {
            return Err(EntityError::ActionsCorrupted);
        }
        if self.get_proposal_status(&proposal, ctx.block_timestamp) != ProposalStatus::Succeeded {
            return Err(EntityError::ProposalNotExecutable);
        }
        let actual_permissions = self.get_actual_permissions(&proposal, actions);
        if !bytes_lists_eq(&proposal.permissions, &actual_permissions) {
            return Err(EntityError::UntruthfulPermissions);
        }
        let calls = self.execute_actions(actions, gov_balances)?;
        proposal.was_executed = true;
        let ghost old_self = *self;
        proof {
            assert(self.governance.proposals.map()[proposal_id].id == proposal_id);
        }
        self.governance.set_proposal(proposal);
        self.emit_execute_event(&ctx.caller, proposal_id);
        proof {
            EntityContract::lemma_deposits_kept(&old_self, self);
        }
        Ok(calls)
    }

    /// Withdraws the caller's deposits from every proposal it voted on that
    /// is no longer open to votes; gives the deposits handed back, one batch
    /// per proposal.
    #[verifier::rlimit(80)]
    fn withdraw_endpoint(&mut self, ctx: &CallContext) -> (batches: Vec<Vec<Payment>>)
        ensures
            final(self).wf(),
            ({
                let ids = old(self).governance.withdrawable_ids(ctx.caller@);
                &&& batches@.map_values(|b: Vec<Payment>| views(b@)) == old(self).withdrawn_batches(ids, ctx.caller@, ctx.block_timestamp)
                &&& forall|id: u64, voter: Seq<u8>| #[trigger] final(self).governance.withdrawable(id, voter) == if voter == ctx.caller@ && ids.contains(id)
                    && old(self).withdrawal_open(id, ctx.block_timestamp) {
                    Seq::<(Seq<u8>, u64, u128)>::empty()
                } else {
                    old(self).governance.withdrawable(id, voter)
                }
                &&& forall|id: u64| ids.contains(id) && old(self).withdrawal_open(id, ctx.block_timestamp)
                    ==> #[trigger] final(self).governance.withdrawable_nonces(id, ctx.caller@) == Set::<u64>::empty()
                &&& final(self).events@ == old(self).events@ + old(self).withdraw_events(ids, ctx.caller@, ctx.block_timestamp)
                &&& final(self).governance.withdrawable_ids(ctx.caller@) == ids.filter(|id: u64| !old(self).withdrawal_open(id, ctx.block_timestamp))
                &&& forall|voter: Seq<u8>| voter != ctx.caller@ ==> #[trigger] final(self).governance.withdrawable_ids(voter) == old(self).governance.withdrawable_ids(voter)
                &&& final(self).governance == (ProposalModule {
                    withdrawable_votes: final(self).governance.withdrawable_votes,
                    withdrawable_proposal_ids: final(self).governance.withdrawable_proposal_ids,
                    ..old(self).governance
                })
                &&& final(self).config == (ConfigModule { guarded_vote_tokens: final(self).config.guarded_vote_tokens, ..old(self).config })
                &&& final(self).members == old(self).members
                &&& final(self).plug == old(self).plug
                &&& final(self).contracts == old(self).contracts
            }),
    {
        let ghost start = *self;
        let ids = match self.governance.withdrawable_proposal_ids.get(&ctx.caller) {
            Some(v) => copy_ids(v),
            None => Vec::new(),
        };
        proof {
            assert(ids@ == start.governance.withdrawable_ids(ctx.caller@));
            assert(ids@.no_duplicates());
        }
        let ghost still_open = |id: u64| !start.withdrawal_open(id, ctx.block_timestamp);
        let mut batches: Vec<Vec<Payment>> = Vec::new();
        let mut remaining: Vec<u64> = Vec::new();
        let mut i: usize = 0;
        while i < ids.len()
            invariant
                self.wf(),
                start.wf(),
                i <= ids@.len(),
                ids@ == start.governance.withdrawable_ids(ctx.caller@),
                ids@.no_duplicates(),
                still_open == (|id: u64| !start.withdrawal_open(id, ctx.block_timestamp)),
                remaining@ == ids@.take(i as int).filter(still_open),
                remaining@.no_duplicates(),
                forall|k: int| 0 <= k < remaining@.len() ==> ids@.take(i as int).contains(#[trigger] remaining@[k]),
                batches@.map_values(|b: Vec<Payment>| views(b@)) == start.withdrawn_batches(ids@.take(i as int), ctx.caller@, ctx.block_timestamp),
                forall|id: u64, voter: Seq<u8>| #[trigger] self.governance.withdrawable(id, voter) == if voter == ctx.caller@ && ids@.take(i as int).contains(id)
                    && start.withdrawal_open(id, ctx.block_timestamp) {
                    Seq::<(Seq<u8>, u64, u128)>::empty()
                } else {
                    start.governance.withdrawable(id, voter)
                },
                self.events@ == start.events@ + start.withdraw_events(ids@.take(i as int), ctx.caller@, ctx.block_timestamp),
                self.governance == (ProposalModule { withdrawable_votes: self.governance.withdrawable_votes, ..start.governance }),
                self.config == (ConfigModule { guarded_vote_tokens: self.config.guarded_vote_tokens, ..start.config }),
                self.members == start.members,
                self.plug == start.plug,
                self.contracts == start.contracts,
            decreases ids@.len() - i,
        {
            let id = ids[i];
            let ghost before = *self;
            let ghost t = ids@.take(i as int);
            proof {
                assert(ids@.take(i as int + 1).drop_last() =~= t);
                assert(ids@.take(i as int + 1).last() == id);
                assert(!t.contains(id)) by {
                    if t.contains(id) {
                        let k = choose|k: int| 0 <= k < t.len() && t[k] == id;
                        assert(ids@[k] == ids@[i as int]);
                    }
                }
                if before.governance.has_proposal(id) {
                    crate::governance::status::lemma_status_same(&before, &start, before.governance.proposal(id), ctx.block_timestamp);
                }
                assert(before.withdrawal_open(id, ctx.block_timestamp) == start.withdrawal_open(id, ctx.block_timestamp));
                assert(before.governance.withdrawable(id, ctx.caller@) == start.governance.withdrawable(id, ctx.caller@));
            }
            let outcome = self.withdraw_tokens(ctx, id);
            match outcome {
                WithdrawOutcome::Withdrawn(returned) => {
                    if returned.len() != 0 {
                        let ghost b = batches@;
                        batches.push(returned);
                        proof {
                            assert(batches@.map_values(|b: Vec<Payment>| views(b@)) =~= b.map_values(|b: Vec<Payment>| views(b@)).push(start.governance.withdrawable(id, ctx.caller@)));
                        }
                    } else {
                        proof {
                            assert(start.governance.withdrawable(id, ctx.caller@).len() == 0);
                        }
                    }
                },
                _ => {
                    let ghost r = remaining@;
                    remaining.push(id);
                    proof {
                        assert forall|k: int| 0 <= k < r.len() implies r[k] != id by {
                            assert(t.contains(r[k]));
                        }
                    }
                },
            }
            proof {
                assert(ids@.take(i as int + 1) =~= t.push(id));
                t.lemma_filter_push(id, still_open);
                assert forall|k: int| 0 <= k < remaining@.len() implies ids@.take(i as int + 1).contains(#[trigger] remaining@[k]) by {
                    let u = ids@.take(i as int + 1);
                    if k < remaining@.len() - 1 || !(remaining@[k] == id) {
                        if t.contains(remaining@[k]) {
                            let m = choose|m: int| 0 <= m < t.len() && t[m] == remaining@[k];
                            assert(u[m] == remaining@[k]);
                        }
                    }
                    if remaining@[k] == id {
                        assert(u[i as int] == id);
                    }
                }
                assert forall|x: u64, voter: Seq<u8>| #[trigger] self.governance.withdrawable(x, voter) == if voter == ctx.caller@ && ids@.take(i as int + 1).contains(x)
                    && start.withdrawal_open(x, ctx.block_timestamp) {
                    Seq::<(Seq<u8>, u64, u128)>::empty()
                } else {
                    start.governance.withdrawable(x, voter)
                } by {
                    assert(ids@.take(i as int + 1).contains(x) <==> (t.contains(x) || x == id)) by {
                        let u = ids@.take(i as int + 1);
                        if u.contains(x) {
                            let k = choose|k: int| 0 <= k < u.len() && u[k] == x;
                            if k < i {
                                assert(t[k] == x);
                            }
                        }
                        if t.contains(x) {
                            let k = choose|k: int| 0 <= k < t.len() && t[k] == x;
                            assert(u[k] == x);
                        }
                        if x == id {
                            assert(u[i as int] == x);
                        }
                    }
                }
                assert(self.events@ =~= start.events@ + start.withdraw_events(ids@.take(i as int + 1), ctx.caller@, ctx.block_timestamp));
            }
            i = i + 1;
        }
        proof {
            assert(ids@.take(ids@.len() as int) =~= ids@);
        }
        let ghost withdrawn = *self;
        if remaining.len() == 0 {
            let _ = self.governance.withdrawable_proposal_ids.take(&ctx.caller);
        } else {
            self.governance.withdrawable_proposal_ids.insert(copy_bytes(&ctx.caller), remaining);
        }
        proof {
            EntityContract::lemma_deposits_kept(&withdrawn, self);
            assert(self.governance.withdrawable_ids(ctx.caller@) == remaining@);
            assert(ids@.filter(still_open) == ids@.filter(|id: u64| !start.withdrawal_open(id, ctx.block_timestamp)));
            assert(forall|voter: Seq<u8>| voter != ctx.caller@ ==> #[trigger] self.governance.withdrawable_ids(voter) == start.governance.withdrawable_ids(voter));
            assert(forall|x: u64, voter: Seq<u8>| #[trigger] self.governance.withdrawable(x, voter) == withdrawn.governance.withdrawable(x, voter));
        }
        batches
    }

    /// Issues a fresh governance token owned by the contract, paid with the
    /// EGLD of the call. Only a leader may do so, while no governance token
    /// is set.
    fn issue_gov_token_endpoint(&self, ctx: &CallContext, token_name: &Vec<u8>, token_ticker: &Vec<u8>, supply: u128) -> (result: Result<TokenIssueRequest, EntityError>)
        ensures
            self.config.has_gov_token() ==> result == Err::<TokenIssueRequest, EntityError>(EntityError::GovernanceTokenAlreadySet),
            !self.config.has_gov_token() && !self.members.roles_of(ctx.caller@).contains(leader_role())
                ==> result == Err::<TokenIssueRequest, EntityError>(EntityError::OnlyAllowedForLeader),
            !self.config.has_gov_token() && self.members.roles_of(ctx.caller@).contains(leader_role()) && supply == 0
                ==> result == Err::<TokenIssueRequest, EntityError>(EntityError::AmountMustBePositive),
            !self.config.has_gov_token() && self.members.roles_of(ctx.caller@).contains(leader_role()) && supply > 0 ==> result is Ok,
            result matches Ok(request) ==> !self.config.has_gov_token() && self.members.roles_of(ctx.caller@).contains(leader_role())
                && supply > 0 && request.egld_value == ctx.egld_value && request.token_name@ == token_name@
                && request.token_ticker@ == token_ticker@ && request.initial_supply == supply,
    {
        if self.config.gov_token_id.len() != 0 {
            return Err(EntityError::GovernanceTokenAlreadySet);
        }
        if !self.members.has_leader_role(&ctx.caller) {
            return Err(EntityError::OnlyAllowedForLeader);
        }
        self.issue_gov_token(ctx, token_name, token_ticker, supply)
    }

    /// Asks for the local mint and burn roles of the governance token for
    /// the contract itself.
    fn set_gov_token_local_roles_endpoint(&self, ctx: &CallContext) -> (result: Result<SpecialRolesRequest, EntityError>)
        ensures
            !self.config.has_gov_token() ==> result == Err::<SpecialRolesRequest, EntityError>(EntityError::GovTokenMustBeSet),
            self.config.has_gov_token() ==> (result matches Ok(request) && request.address@ == ctx.sc_address@
                && request.token_id@ == self.config.gov_token_id@
                && request.roles@ == seq![EsdtLocalRole::Mint, EsdtLocalRole::Burn]
                && request.gas_limit == GAS_LIMIT_SET_TOKEN_ROLES),
    {
        if self.config.gov_token_id.len() == 0 {
            return Err(EntityError::GovTokenMustBeSet);
        }
        let roles = vec![EsdtLocalRole::Mint, EsdtLocalRole::Burn];
        assert(roles@ =~= seq![EsdtLocalRole::Mint, EsdtLocalRole::Burn]);
        Ok(SpecialRolesRequest {
            address: copy_bytes(&ctx.sc_address),
            token_id: copy_bytes(&self.config.gov_token_id),
            roles,
            gas_limit: GAS_LIMIT_SET_TOKEN_ROLES,
        })
    }

    /// Completes the issue of the governance token: on success the issued
    /// supply (`issued`) goes to the account that asked for it and becomes
    /// the governance token, with vote tokens locked; on failure the EGLD
    /// paid goes back.
    fn gov_token_issue_callback(&mut self, ctx: &CallContext, initial_caller: &Vec<u8>, issued: Option<Payment>) -> (result: Result<Option<Transfer>, EntityError>)
        ensures
            final(self).wf(),
            match issued {
                Some(payment) => {
                    &&& !valid_esdt_identifier(payment.token_identifier@) ==> result == Err::<Option<Transfer>, EntityError>(EntityError::InvalidTokenId) && *final(self) == *old(self)
                    &&& valid_esdt_identifier(payment.token_identifier@) ==> {
                        &&& result matches Ok(Some(Transfer::Esdt { to, payment: sent })) && to@ == initial_caller@
                            && sent.token_identifier@ == payment.token_identifier@ && sent.token_nonce == 0 && sent.amount == payment.amount
                        &&& final(self).config.gov_token_id@ == payment.token_identifier@
                        &&& final(self).config.lock_vote_tokens.map() == old(self).config.lock_vote_tokens.map().insert(payment.token_identifier@, true)
                        &&& final(self).config.quorum == if payment.amount == 0 { old(self).config.quorum } else { initial_quorum(payment.amount) }
                        &&& final(self).config.min_propose_weight == if payment.amount == 0 { old(self).config.min_propose_weight } else { initial_min_propose_weight(payment.amount) }
                        &&& *final(self) == (EntityContract {
                            config: ConfigModule {
                                gov_token_id: final(self).config.gov_token_id,
                                lock_vote_tokens: final(self).config.lock_vote_tokens,
                                quorum: final(self).config.quorum,
                                min_propose_weight: final(self).config.min_propose_weight,
                                ..old(self).config
                            },
                            ..*old(self)
                        })
                    }
                },
                None => *final(self) == *old(self) && (if ctx.egld_value > 0 {
                    (result matches Ok(Some(Transfer::Egld { to, amount })) && to@ == initial_caller@ && amount == ctx.egld_value)
                } else {
                    result == Ok::<Option<Transfer>, EntityError>(None)
                }),
            },
    {
        match issued {
            Some(payment) => {
                self.configure_governance_token(&payment.token_identifier, payment.amount, true)?;
                Ok(Some(Transfer::Esdt {
                    to: copy_bytes(initial_caller),
                    payment: Payment { token_identifier: copy_bytes(&payment.token_identifier), token_nonce: 0, amount: payment.amount },
                }))
            },
            None => Ok(self.send_received_egld(ctx, initial_caller)),
        }
    }

    /// The local mint of `amount` of `token` with `nonce`, which only the
    /// contract itself may ask for.
    fn mint_endpoint(&self, ctx: &CallContext, token: Vec<u8>, nonce: u64, amount: u128) -> (result: Result<Payment, EntityError>)
        ensures
            ctx.caller@ != ctx.sc_address@ ==> result == Err::<Payment, EntityError>(EntityError::ActionNotAllowedByUser),
            ctx.caller@ == ctx.sc_address@ ==> (result matches Ok(change) && change.token_identifier@ == token@
                && change.token_nonce == nonce && change.amount == amount),
    {
        require_caller_self(ctx)?;
        Ok(Payment { token_identifier: token, token_nonce: nonce, amount })
    }

    /// The local burn of `amount` of `token` with `nonce`, which only the
    /// contract itself may ask for.
    fn burn_endpoint(&self, ctx: &CallContext, token: Vec<u8>, nonce: u64, amount: u128) -> (result: Result<Payment, EntityError>)
        ensures
            ctx.caller@ != ctx.sc_address@ ==> result == Err::<Payment, EntityError>(EntityError::ActionNotAllowedByUser),
            ctx.caller@ == ctx.sc_address@ ==> (result matches Ok(change) && change.token_identifier@ == token@
                && change.token_nonce == nonce && change.amount == amount),
    {
        require_caller_self(ctx)?;
        Ok(Payment { token_identifier: token, token_nonce: nonce, amount })
    }

    /// The content hash, actions hash, proposer, voting window and execution
    /// flag of a proposal, if it exists.
    fn get_proposal_view(&self, proposal_id: u64) -> (view: Option<(Vec<u8>, Vec<u8>, Vec<u8>, u64, u64, bool)>)
        ensures
            !self.governance.has_proposal(proposal_id) ==> view is None,
            self.governance.has_proposal(proposal_id) ==> (view matches Some(v) && {
                let p = self.governance.proposal(proposal_id);
                &&& v.0@ == p.content_hash
                &&& v.1@ == p.actions_hash
                &&& v.2@ == p.proposer
                &&& v.3 == p.starts_at
                &&& v.4 == p.ends_at
                &&& v.5 == p.was_executed
            }),
    {
        match self.governance.get_proposal(proposal_id) {
            Some(p) => Some((p.content_hash, p.actions_hash, p.proposer, p.starts_at, p.ends_at, p.was_executed)),
            None => None,
        }
    }

    /// The status of a proposal at time `now`.
    fn get_proposal_status_view(&self, proposal_id: u64, now: u64) -> (result: Result<ProposalStatus, EntityError>)
        ensures
            !self.governance.has_proposal(proposal_id) ==> result == Err::<ProposalStatus, EntityError>(EntityError::ProposalNotFound),
            self.governance.has_proposal(proposal_id) ==> result == Ok::<ProposalStatus, EntityError>(
                self.proposal_status(self.governance.proposal(proposal_id), now),
            ),
    {
        match self.governance.get_proposal(proposal_id) {
            Some(p) => Ok(self.get_proposal_status(&p, now)),
            None => Err(EntityError::ProposalNotFound),
        }
    }

    /// The votes for and against a proposal.
    fn get_proposal_votes_view(&self, proposal_id: u64) -> (result: Result<(u128, u128), EntityError>)
        ensures
            !self.governance.has_proposal(proposal_id) ==> result == Err::<(u128, u128), EntityError>(EntityError::StorageDecode),
            self.governance.has_proposal(proposal_id) ==> result == Ok::<(u128, u128), EntityError>(
                (self.governance.proposal(proposal_id).votes_for, self.governance.proposal(proposal_id).votes_against),
            ),
    {
        match self.governance.get_proposal(proposal_id) {
            Some(p) => Ok((p.votes_for, p.votes_against)),
            None => Err(EntityError::StorageDecode),
        }
    }

    /// The addresses that signed a proposal for the proposer's roles.
    fn get_proposal_signers_view(&self, proposal_id: u64) -> (result: Result<Vec<Vec<u8>>, EntityError>)
        ensures
            !self.governance.has_proposal(proposal_id) ==> result == Err::<Vec<Vec<u8>>, EntityError>(EntityError::StorageDecode),
            self.governance.has_proposal(proposal_id) ==> (result matches Ok(signers) && views(signers@) == self.signer_addresses(
                proposal_id,
                self.members.roles_of(self.governance.proposal(proposal_id).proposer),
            )),
    {
        let proposal = match self.governance.get_proposal(proposal_id) {
            Some(p) => p,
            None => {
                return Err(EntityError::StorageDecode);
            },
        };
        let roles = self.members.get_user_roles(&proposal.proposer);
        let ghost rs = views(roles@);
        let mut signers: Vec<Vec<u8>> = Vec::new();
        let mut r: usize = 0;
        while r < roles.len()
            invariant
                self.wf(),
                r <= rs.len(),
                rs == views(roles@),
                views(signers@) == self.signer_addresses(proposal.id, rs.take(r as int)),
            decreases rs.len() - r,
        {
            let ids = self.governance.get_signers(proposal.id, &roles[r]);
            let ghost acc = views(signers@);
            let mut k: usize = 0;
            while k < ids.len()
                invariant
                    self.wf(),
                    k <= ids@.len(),
                    views(signers@) == self.add_signer_addresses(acc, ids@.take(k as int)),
                decreases ids@.len() - k,
            {
                proof {
                    assert(ids@.take(k as int + 1).drop_last() =~= ids@.take(k as int));
                }
                let address = self.members.get_user_address_unchecked(ids[k]);
                if !crate::store::set_contains(&signers, &address) {
                    let ghost b = views(signers@);
                    signers.push(address);
                    assert(views(signers@) =~= b.push(address@));
                }
                k = k + 1;
            }
            proof {
                assert(ids@.take(ids@.len() as int) =~= ids@);
                assert(rs.take(r as int + 1).drop_last() =~= rs.take(r as int));
                assert(rs.take(r as int + 1).last() == roles@[r as int]@);
            }
            r = r + 1;
        }
        proof {
            assert(rs.take(rs.len() as int) =~= rs);
        }
        Ok(signers)
    }

    /// The proposer's roles that signed a proposal, with their number of
    /// signatures.
    fn get_proposal_signature_role_counts_view(&self, proposal_id: u64) -> (result: Result<Vec<(Vec<u8>, usize)>, EntityError>)
        ensures
            !self.governance.has_proposal(proposal_id) ==> result == Err::<Vec<(Vec<u8>, usize)>, EntityError>(EntityError::StorageDecode),
            self.governance.has_proposal(proposal_id) ==> (result matches Ok(counts) && counts@.map_values(|c: (Vec<u8>, usize)| (c.0@, c.1))
                == self.role_signature_counts(proposal_id, self.members.roles_of(self.governance.proposal(proposal_id).proposer))),
    {
        let proposal = match self.governance.get_proposal(proposal_id) {
            Some(p) => p,
            None => {
                return Err(EntityError::StorageDecode);
            },
        };
        let roles = self.members.get_user_roles(&proposal.proposer);
        let ghost rs = views(roles@);
        let mut counts: Vec<(Vec<u8>, usize)> = Vec::new();
        let mut r: usize = 0;
        while r < roles.len()
            invariant
                self.wf(),
                r <= rs.len(),
                rs == views(roles@),
                counts@.map_values(|c: (Vec<u8>, usize)| (c.0@, c.1)) == self.role_signature_counts(proposal.id, rs.take(r as int)),
            decreases rs.len() - r,
        {
            proof {
                assert(rs.take(r as int + 1).drop_last() =~= rs.take(r as int));
                assert(rs.take(r as int + 1).last() == roles@[r as int]@);
            }
            let count = self.governance.signer_count(proposal.id, &roles[r]);
            if count > 0 {
                let ghost b = counts@.map_values(|c: (Vec<u8>, usize)| (c.0@, c.1));
                counts.push((copy_bytes(&roles[r]), count));
                assert(counts@.map_values(|c: (Vec<u8>, usize)| (c.0@, c.1)) =~= b.push((roles@[r as int]@, count)));
            }
            r = r + 1;
        }
        proof {
            assert(rs.take(rs.len() as int) =~= rs);
        }
        Ok(counts)
    }

    /// The weight cast for each of the poll options 1 to 20 of a proposal.
    fn get_proposal_poll_results_view(&self, proposal_id: u64) -> (results: Vec<u128>)
        ensures
            results@.len() == POLL_MAX_OPTIONS,
            forall|i: int| 0 <= i < POLL_MAX_OPTIONS ==> results@[i] == self.governance.poll(proposal_id, (i + 1) as u8),
    {
        let mut results: Vec<u128> = Vec::new();
        let mut option_id: u8 = 1;
        while option_id <= POLL_MAX_OPTIONS
            invariant
                self.wf(),
                1 <= option_id <= POLL_MAX_OPTIONS + 1,
                results@.len() == option_id - 1,
                forall|i: int| 0 <= i < option_id - 1 ==> results@[i] == self.governance.poll(proposal_id, (i + 1) as u8),
            decreases POLL_MAX_OPTIONS + 1 - option_id,
        {
            results.push(self.governance.get_poll(proposal_id, option_id));
            option_id = option_id + 1;
        }
        results
    }
}

} // verus!
