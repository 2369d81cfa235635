use vstd::prelude::*;

use crate::governance::events::GovEventsModule;
use crate::config::{CallContext, ConfigModule, Payment};
use crate::governance::deposits::{amount_for, deposit_sum, lemma_amount_for_prefix, lemma_deposit_sum_remove, WithdrawOutcome};
use crate::errors::EntityError;
use crate::governance::events::EventView;
use crate::governance::proposal::{concat, lemma_concat_take, Proposal, ProposalStatus, ProposalView, VoteType};
use crate::governance::storage::{set_with, ProposalModule};
use crate::permission::{has_token_weighted_policy, has_weighted, Policy};
use crate::store::{append_bytes, copy_bytes, views};
use crate::EntityContract;

verus! {

/// The bytes that the trusted host signs to admit a proposal.
pub open spec fn trusted_host_signable(
    proposer: Seq<u8>,
    entity_address: Seq<u8>,
    trusted_host_id: Seq<u8>,
    content_hash: Seq<u8>,
    actions_hash: Seq<u8>,
    permissions: Seq<Seq<u8>>,
) -> Seq<u8> {
    proposer + entity_address + trusted_host_id + content_hash + actions_hash + concat(permissions)
}

/// A proposal is guarded by policies when it carries actions or announces
/// permissions; only then does its proposer sign it on proposing.
pub open spec fn guarded_by_policies(actions_hash: Seq<u8>, permissions: Seq<Seq<u8>>) -> bool {
    actions_hash.len() > 0 || nonempty_permissions(permissions).len() > 0
}

/// The signature taken from `content_sig`: the bytes themselves when they
/// are 64, else 64 zero bytes.
pub open spec fn signature_bytes(content_sig: Seq<u8>) -> Seq<u8> {
    if content_sig.len() == 64 {
        content_sig
    } else {
        Seq::new(64, |i: int| 0u8)
    }
}

/// The longest voting period among the policies.
pub open spec fn max_period(policies: Seq<Policy>) -> nat
    decreases policies.len(),
{
    if policies.len() == 0 {
        0
    } else {
        let before = max_period(policies.drop_last());
        let last = policies.last().voting_period_minutes as nat;
        if last >= before {
            last
        } else {
            before
        }
    }
}

/// The voting period of a proposal: the longest one of its policies, or the
/// default when it has none.
pub open spec fn voting_period(policies: Seq<Policy>, default: usize) -> nat {
    if policies.len() == 0 {
        default as nat
    } else {
        max_period(policies)
    }
}

/// The permissions with the empty names left out.
pub open spec fn nonempty_permissions(perms: Seq<Seq<u8>>) -> Seq<Seq<u8>>
    decreases perms.len(),
{
    if perms.len() == 0 {
        Seq::empty()
    } else if perms.last().len() > 0 {
        nonempty_permissions(perms.drop_last()).push(perms.last())
    } else {
        nonempty_permissions(perms.drop_last())
    }
}

fn max_voting_period(policies: &Vec<Policy>) -> (period: usize)
    ensures
        period == max_period(policies@),
{
    let mut max: usize = 0;
    let mut i: usize = 0;
    while i < policies.len()
        invariant
            i <= policies@.len(),
            max == max_period(policies@.take(i as int)),
        decreases policies@.len() - i,
    {
        proof {
            assert(policies@.take(i as int + 1).drop_last() =~= policies@.take(i as int));
        }
        if policies[i].voting_period_minutes >= max {
            max = policies[i].voting_period_minutes;
        }
        i = i + 1;
    }
    proof {
        assert(policies@.take(policies@.len() as int) =~= policies@);
    }
    max
}

fn sanitized_permissions(perms: &Vec<Vec<u8>>) -> (kept: Vec<Vec<u8>>)
    ensures
        views(kept@) == nonempty_permissions(views(perms@)),
{
    let ghost ps = views(perms@);
    let mut kept: Vec<Vec<u8>> = Vec::new();
    let mut i: usize = 0;
    while i < perms.len()
        invariant
            i <= perms@.len(),
            ps == views(perms@),
            views(kept@) == nonempty_permissions(ps.take(i as int)),
        decreases perms@.len() - i,
    {
        proof {
            assert(ps.take(i as int + 1).drop_last() =~= ps.take(i as int));
            assert(ps.take(i as int + 1).last() == perms@[i as int]@);
        }
        if perms[i].len() != 0 {
            let ghost before = views(kept@);
            kept.push(copy_bytes(&perms[i]));
            assert(views(kept@) =~= before.push(perms@[i as int]@));
        }
        i = i + 1;
    }
    proof {
        assert(ps.take(ps.len() as int) =~= ps);
    }
    kept
}

fn zero_signature() -> (sig: Vec<u8>)
    ensures
        sig@ == Seq::new(64, |i: int| 0u8),
{
    let mut sig: Vec<u8> = Vec::new();
    let mut i: usize = 0;
    while i < 64
        invariant
            i <= 64,
            sig@ == Seq::new(i as nat, |j: int| 0u8),
        decreases 64 - i,
    {
        sig.push(0);
        i = i + 1;
        assert(sig@ =~= Seq::new(i as nat, |j: int| 0u8));
    }
    sig
}

impl EntityContract {
    /// Whether `proposer` may propose, and the policies of its roles for the
    /// announced permissions. A proposal without actions may always be
    /// made, and so may any proposal in a leaderless entity.
    pub open spec fn may_propose(&self, proposer: Seq<u8>, actions_hash: Seq<u8>, permissions: Seq<Seq<u8>>) -> (bool, Seq<Policy>) {
        if actions_hash.len() == 0 && permissions.len() == 0 {
            (true, Seq::empty())
        } else if self.leaderless() {
            (true, Seq::empty())
        } else {
            let roles = self.members.roles_of(proposer);
            let policies = self.members.policies_for(roles, permissions);
            (roles.contains(crate::permission::leader_role()) || policies.len() > 0, policies)
        }
    }

    pub fn can_propose(&self, proposer: &Vec<u8>, actions_hash: &Vec<u8>, permissions: &Vec<Vec<u8>>) -> (result: (bool, Vec<Policy>))
        requires
            self.wf(),
        ensures
            (result.0, result.1@) == self.may_propose(proposer@, actions_hash@, views(permissions@)),
    {
        if actions_hash.len() == 0 && permissions.len() == 0 {
            return (true, Vec::new());
        }
        if self.members.is_leaderless() {
            return (true, Vec::new());
        }
        self.members.get_user_policies_for_permissions(proposer, permissions)
    }

    /// Checks that the trusted host signed the proposal: its proposer, this
    /// entity, the trusted host's id for it, the content and actions hashes
    /// and the announced permissions. Without any signature, while a trusted
    /// host is set, the proposer is refused as not coming from it.
    pub fn require_proposed_via_trusted_host(
        &self,
        ctx: &CallContext,
        proposer: &Vec<u8>,
        trusted_host_id: &Vec<u8>,
        content_hash: &Vec<u8>,
        content_sig: &Vec<u8>,
        actions_hash: &Vec<u8>,
        permissions: &Vec<Vec<u8>>,
    ) -> (result: Result<(), EntityError>)
        ensures
            self.config.trusted_host_address@.len() > 0 && content_sig@.len() == 0
                ==> result == Err::<(), EntityError>(EntityError::NotTrustedHost),
            !(self.config.trusted_host_address@.len() > 0 && content_sig@.len() == 0) ==> {
                &&& result is Ok <==> self.config.signed_by_trusted_host(
                    trusted_host_signable(
                        proposer@,
                        ctx.sc_address@,
                        trusted_host_id@,
                        content_hash@,
                        actions_hash@,
                        views(permissions@),
                    ),
                    signature_bytes(content_sig@),
                )
                &&& result is Err ==> result == Err::<(), EntityError>(EntityError::InvalidSignature)
            },
    {
        if self.config.trusted_host_address.len() != 0 && content_sig.len() == 0 {
            return Err(EntityError::NotTrustedHost);
        }
        let signature = if content_sig.len() == 64 {
            copy_bytes(content_sig)
        } else {
            zero_signature()
        };
        let mut signable = copy_bytes(proposer);
        append_bytes(&mut signable, &ctx.sc_address);
        append_bytes(&mut signable, trusted_host_id);
        append_bytes(&mut signable, content_hash);
        append_bytes(&mut signable, actions_hash);
        let ghost head = signable@;
        let ghost perms = views(permissions@);
        let mut i: usize = 0;
        while i < permissions.len()
            invariant
                i <= permissions@.len(),
                perms == views(permissions@),
                signable@ == head + concat(perms.take(i as int)),
            decreases permissions@.len() - i,
        {
            append_bytes(&mut signable, &permissions[i]);
            proof {
                lemma_concat_take(perms, i as int);
                assert(perms[i as int] == permissions@[i as int]@);
                assert(signable@ =~= head + concat(perms.take(i as int + 1)));
            }
            i = i + 1;
        }
        proof {
            assert(perms.take(perms.len() as int) =~= perms);
            assert(signable@ =~= trusted_host_signable(
                proposer@,
                ctx.sc_address@,
                trusted_host_id@,
                content_hash@,
                actions_hash@,
                perms,
            ));
        }
        self.config.require_signed_by_trusted_host(&signable, &signature)
    }

    /// Why a proposal with these arguments would be refused, if it would.
    pub open spec fn proposal_refusal(
        &self,
        ctx_sc_address: Seq<u8>,
        now: u64,
        proposer: Seq<u8>,
        trusted_host_id: Seq<u8>,
        content_hash: Seq<u8>,
        content_sig: Seq<u8>,
        actions_hash: Seq<u8>,
        vote_weight: u128,
        permissions: Seq<Seq<u8>>,
    ) -> Option<EntityError> {
        let signable = trusted_host_signable(
            proposer,
            ctx_sc_address,
            trusted_host_id,
            content_hash,
            actions_hash,
            permissions,
        );
        let allowed = self.may_propose(proposer, actions_hash, permissions);
        let roles = self.members.roles_of(proposer);
        let period = voting_period(allowed.1, self.config.voting_period_in_minutes);
        if self.config.trusted_host_address@.len() > 0 && content_sig.len() == 0 {
            Some(EntityError::NotTrustedHost)
        } else if !self.config.signed_by_trusted_host(signable, signature_bytes(content_sig)) {
            Some(EntityError::InvalidSignature)
        } else if self.governance.is_known_trusted_host_id(trusted_host_id) {
            Some(EntityError::ProposalAlreadyRegistered)
        } else if !allowed.0 {
            Some(EntityError::ActionNotAllowedForUser)
        } else if (roles.len() == 0 || has_weighted(allowed.1)) && vote_weight
            < self.config.min_propose_weight {
            Some(EntityError::InsufficientVoteWeight)
        } else if actions_hash.len() != 0 && actions_hash.len() != 32 {
            Some(EntityError::InvalidActionsHash)
        } else if now + period * 60 > u64::MAX {
            Some(EntityError::TimestampOverflow)
        } else {
            None
        }
    }

    /// The proposal that these arguments create: the next id, a voting
    /// window that opens now, the proposer's weight in favour, and the
    /// announced permissions without empty names.
    pub open spec fn new_proposal(
        &self,
        now: u64,
        proposer: Seq<u8>,
        content_hash: Seq<u8>,
        actions_hash: Seq<u8>,
        vote_weight: u128,
        permissions: Seq<Seq<u8>>,
    ) -> ProposalView {
        let policies = self.may_propose(proposer, actions_hash, permissions).1;
        let period = voting_period(policies, self.config.voting_period_in_minutes);
        ProposalView {
            id: self.governance.next_proposal_id,
            proposer,
            content_hash,
            actions_hash,
            starts_at: now,
            ends_at: (now + period * 60) as u64,
            was_executed: false,
            votes_for: vote_weight,
            votes_against: 0,
            permissions: nonempty_permissions(permissions),
        }
    }

    /// Checks a proposal before it is created: the trusted host's signature,
    /// a fresh trusted host id, the proposer's right to propose, its weight,
    /// the actions hash and the voting window. Gives the end of the window
    /// and whether the proposer has roles.
    pub fn check_proposal(
        &self,
        ctx: &CallContext,
        proposer: &Vec<u8>,
        trusted_host_id: &Vec<u8>,
        content_hash: &Vec<u8>,
        content_sig: &Vec<u8>,
        actions_hash: &Vec<u8>,
        vote_weight: u128,
        permissions: &Vec<Vec<u8>>,
    ) -> (result: Result<(u64, bool), EntityError>)
        requires
            self.wf(),
        ensures
            ({
                let refusal = self.proposal_refusal(
                    ctx.sc_address@,
                    ctx.block_timestamp,
                    proposer@,
                    trusted_host_id@,
                    content_hash@,
                    content_sig@,
                    actions_hash@,
                    vote_weight,
                    views(permissions@),
                );
                match result {
                    Err(e) => refusal == Some(e),
                    Ok(checked) => refusal is None && checked.0 == self.new_proposal(
                        ctx.block_timestamp,
                        proposer@,
                        content_hash@,
                        actions_hash@,
                        vote_weight,
                        views(permissions@),
                    ).ends_at && checked.1 == (self.members.roles_of(proposer@).len() > 0),
                }
            }),
    {
        self.require_proposed_via_trusted_host(
            ctx,
            proposer,
            trusted_host_id,
            content_hash,
            content_sig,
            actions_hash,
            permissions,
        )?;
        if self.governance.is_known_trusted_host_proposal_id(trusted_host_id) {
            return Err(EntityError::ProposalAlreadyRegistered);
        }
        let (allowed, policies) = self.can_propose(proposer, actions_hash, permissions);
        if !allowed {
            return Err(EntityError::ActionNotAllowedForUser);
        }
        let proposer_roles = self.members.get_user_roles(proposer);
        if proposer_roles.len() == 0 || has_token_weighted_policy(&policies) {
            if vote_weight < self.config.min_propose_weight {
                return Err(EntityError::InsufficientVoteWeight);
            }
        }
        if actions_hash.len() != 0 && actions_hash.len() != 32 {
            return Err(EntityError::InvalidActionsHash);
        }
        let voting_period_minutes = if policies.len() == 0 {
            self.config.voting_period_in_minutes
        } else {
            max_voting_period(&policies)
        };
        let starts_at = ctx.block_timestamp;
        let period = voting_period_minutes as u64;
        let ends_at = match period.checked_mul(60) {
            Some(duration) => match starts_at.checked_add(duration) {
                Some(end) => end,
                None => {
                    return Err(EntityError::TimestampOverflow);
                },
            },
            None => {
                assert(period * 60 > u64::MAX);
                return Err(EntityError::TimestampOverflow);
            },
        };
        Ok((ends_at, proposer_roles.len() != 0))
    }

    /// Creates a proposal admitted by the trusted host. The proposer's
    /// weight counts in favour and for the poll option; a proposer with
    /// roles signs it for each of them.
    #[verifier::rlimit(60)]
    pub fn create_proposal(
        &mut self,
        ctx: &CallContext,
        proposer: &Vec<u8>,
        trusted_host_id: Vec<u8>,
        content_hash: Vec<u8>,
        content_sig: &Vec<u8>,
        actions_hash: Vec<u8>,
        option_id: u8,
        vote_weight: u128,
        permissions: &Vec<Vec<u8>>,
    ) -> (result: Result<Proposal, EntityError>)
        requires
            old(self).wf(),
            old(self).members.has_room_for_user(),
            old(self).governance.next_proposal_id < u64::MAX,
        ensures
            final(self).wf(),
            ({
                let refusal = old(self).proposal_refusal(
                    ctx.sc_address@,
                    ctx.block_timestamp,
                    proposer@,
                    trusted_host_id@,
                    content_hash@,
                    content_sig@,
                    actions_hash@,
                    vote_weight,
                    views(permissions@),
                );
                match result {
                    Err(e) => refusal == Some(e) && *final(self) == *old(self),
                    Ok(p) => refusal is None,
                }
            }),
            result matches Ok(p) ==> {
                let id = old(self).governance.next_proposal_id;
                let uid = old(self).members.user_id(proposer@) as usize;
                &&& p@ == old(self).new_proposal(
                    ctx.block_timestamp,
                    proposer@,
                    content_hash@,
                    actions_hash@,
                    vote_weight,
                    views(permissions@),
                )
                &&& final(self).governance.proposals.map() == old(self).governance.proposals.map().insert(
                    id,
                    final(self).governance.proposals.map()[id],
                )
                &&& final(self).governance.proposal(id) == p@
                &&& final(self).governance.next_proposal_id == id + 1
                &&& forall|r: Seq<u8>| #[trigger] final(self).governance.signers(id, r) == if guarded_by_policies(actions_hash@, views(permissions@))
                    && old(self).members.roles_of(proposer@).contains(r) {
                    seq![uid]
                } else {
                    Seq::<usize>::empty()
                }
                &&& forall|i: u64, r: Seq<u8>|
                    i != id ==> #[trigger] final(self).governance.signers(i, r) == old(self).governance.signers(i, r)
                &&& forall|i: u64, o: u8| #[trigger]
                    final(self).governance.poll(i, o) == if i == id && o == option_id && option_id
                        != 0 {
                        vote_weight as nat
                    } else {
                        old(self).governance.poll(i, o)
                    }
                &&& views(final(self).governance.known_trusted_host_proposal_ids@) == views(
                    old(self).governance.known_trusted_host_proposal_ids@,
                ).push(trusted_host_id@)
                &&& final(self).governance == (ProposalModule {
                    proposals: final(self).governance.proposals,
                    next_proposal_id: final(self).governance.next_proposal_id,
                    proposal_signers: final(self).governance.proposal_signers,
                    proposal_poll: final(self).governance.proposal_poll,
                    known_trusted_host_proposal_ids: final(self).governance.known_trusted_host_proposal_ids,
                    ..old(self).governance
                })
                &&& final(self).members == old(self).members
                &&& final(self).config == old(self).config
                &&& final(self).plug == old(self).plug
                &&& final(self).contracts == old(self).contracts
                &&& final(self).events@ == old(self).events@.push(
                    EventView::Propose {
                        caller: proposer@,
                        proposal_id: id,
                        weight: vote_weight,
                        poll_option: option_id,
                    },
                )
            },
    {
        let proposal_id = self.governance.next_proposal_id;
        let (ends_at, has_roles) = self.check_proposal(
            ctx,
            proposer,
            &trusted_host_id,
            &content_hash,
            content_sig,
            &actions_hash,
            vote_weight,
            permissions,
        )?;
        let starts_at = ctx.block_timestamp;
        let proposal = Proposal {
            id: proposal_id,
            proposer: copy_bytes(proposer),
            content_hash,
            actions_hash,
            starts_at,
            ends_at,
            was_executed: false,
            votes_for: vote_weight,
            votes_against: 0,
            permissions: sanitized_permissions(permissions),
        };
        let ghost old_self = *self;
        proof {
            old_self.members.lemma_user_id(proposer@);
        }
        self.governance.store_new_proposal(proposal.copy());
        let ghost stored = *self;
        proof {
            EntityContract::lemma_deposits_kept(&old_self, self);
        }
        let guarded = proposal.actions_hash.len() != 0 || proposal.permissions.len() != 0;
        assert(guarded == guarded_by_policies(actions_hash@, views(permissions@)));
        if has_roles && guarded {
            proof {
                assert(old_self.members.users_view().contains(proposer@));
            }
            self.sign_for_all_roles(proposer, proposal_id);
        }
        let ghost signed = *self;
        proof {
            assert(old_self.governance.poll(proposal_id, option_id) == 0) by {
                if old_self.governance.proposal_poll.map().contains_key((proposal_id, option_id)) {
                    assert((proposal_id, option_id).0 < old_self.governance.next_proposal_id);
                }
            }
            assert forall|r: Seq<u8>| #[trigger] old_self.governance.signers(proposal_id, r) == Seq::<usize>::empty() by {
                if old_self.governance.proposal_signers.map().contains_key((proposal_id, r)) {
                    assert((proposal_id, r).0 < old_self.governance.next_proposal_id);
                }
            }
        }
        self.governance.cast_poll_vote(proposal_id, option_id, vote_weight);
        let ghost cast = *self;
        self.governance.add_known_trusted_host_id(trusted_host_id);
        self.emit_propose_event(proposer, proposal_id, vote_weight, option_id);
        proof {
            EntityContract::lemma_deposits_kept(&old_self, self);
            assert(stored.governance.proposal_poll == old_self.governance.proposal_poll);
            assert(stored.governance.proposal_signers == old_self.governance.proposal_signers);
            assert(self.governance.proposal_signers == signed.governance.proposal_signers);
            assert(self.members == signed.members);
            assert forall|i: u64, r: Seq<u8>| i != proposal_id implies #[trigger] self.governance.signers(i, r) == old_self.governance.signers(i, r) by {
                assert(signed.governance.signers(i, r) == stored.governance.signers(i, r));
            }
            assert(signed.governance.proposal_poll == old_self.governance.proposal_poll);
            assert forall|r: Seq<u8>| #[trigger] self.governance.signers(proposal_id, r) == if guarded_by_policies(actions_hash@, views(permissions@))
                && old_self.members.roles_of(proposer@).contains(r) {
                seq![old_self.members.user_id(proposer@) as usize]
            } else {
                Seq::<usize>::empty()
            } by {
                if has_roles && guarded {
                    assert(signed.governance.signers(proposal_id, r) == self.governance.signers(proposal_id, r));
                    if old_self.members.roles_of(proposer@).contains(r) {
                        assert(set_with(Seq::<usize>::empty(), old_self.members.user_id(proposer@) as usize) =~= seq![old_self.members.user_id(proposer@) as usize]);
                    }
                } else if !has_roles {
                    assert(old_self.members.roles_of(proposer@).len() == 0);
                } else {
                    assert(!guarded_by_policies(actions_hash@, views(permissions@)));
                    assert(signed.governance.signers(proposal_id, r) == stored.governance.signers(proposal_id, r));
                }
            }
            assert forall|i: u64, o: u8| #[trigger]
                self.governance.poll(i, o) == if i == proposal_id && o == option_id && option_id != 0 {
                    vote_weight as nat
                } else {
                    old_self.governance.poll(i, o)
                } by {
                assert(self.governance.poll(i, o) == cast.governance.poll(i, o));
                assert(signed.governance.poll(i, o) == old_self.governance.poll(i, o));
                if i == proposal_id {
                    assert(old_self.governance.poll(i, o) == 0) by {
                        if old_self.governance.proposal_poll.map().contains_key((i, o)) {
                            assert((i, o).0 < old_self.governance.next_proposal_id);
                        }
                    }
                }
                if option_id == 0 || vote_weight == 0 {
                    assert(cast.governance.poll(i, o) == signed.governance.poll(i, o));
                } else if i == proposal_id && o == option_id {
                } else {
                    assert((i, o) != (proposal_id, option_id));
                    assert(cast.governance.poll(i, o) == signed.governance.poll(i, o));
                }
            }
        }
        Ok(proposal)
    }

    /// Why a vote would be refused, if it would.
    pub open spec fn vote_refusal(&self, now: u64, proposal_id: u64, vote_type: VoteType, weight: u128, option_id: u8) -> Option<EntityError> {
        let p = self.governance.proposal(proposal_id);
        let tally = match vote_type {
            VoteType::For => p.votes_for,
            VoteType::Against => p.votes_against,
        };
        if weight == 0 {
            Some(EntityError::VoteWeightZero)
        } else if !self.governance.has_proposal(proposal_id) {
            Some(EntityError::ProposalDoesNotExist)
        } else if weight < self.config.min_vote_weight {
            Some(EntityError::NotEnoughVoteWeight)
        } else if self.proposal_status(p, now) != ProposalStatus::Active {
            Some(EntityError::ProposalNotActive)
        } else if tally + weight > u128::MAX || (option_id != 0 && self.governance.poll(proposal_id, option_id) + weight > u128::MAX) {
            Some(EntityError::AmountOverflow)
        } else {
            None
        }
    }

    /// Checks a vote before it is counted.
    pub fn check_vote(&self, ctx: &CallContext, proposal_id: u64, vote_type: VoteType, weight: u128, option_id: u8) -> (result: Result<(), EntityError>)
        requires
            self.wf(),
        ensures
            match result {
                Err(e) => self.vote_refusal(ctx.block_timestamp, proposal_id, vote_type, weight, option_id) == Some(e),
                Ok(_) => self.vote_refusal(ctx.block_timestamp, proposal_id, vote_type, weight, option_id) is None,
            },
    {
        if weight == 0 {
            return Err(EntityError::VoteWeightZero);
        }
        let proposal = match self.governance.get_proposal(proposal_id) {
            Some(p) => p,
            None => {
                return Err(EntityError::ProposalDoesNotExist);
            },
        };
        if weight < self.config.min_vote_weight {
            return Err(EntityError::NotEnoughVoteWeight);
        }
        if self.get_proposal_status(&proposal, ctx.block_timestamp) != ProposalStatus::Active {
            return Err(EntityError::ProposalNotActive);
        }
        let tally = match vote_type {
            VoteType::For => proposal.votes_for,
            VoteType::Against => proposal.votes_against,
        };
        if tally > u128::MAX - weight {
            return Err(EntityError::AmountOverflow);
        }
        if option_id != 0 && self.governance.get_poll(proposal_id, option_id) > u128::MAX - weight {
            return Err(EntityError::AmountOverflow);
        }
        Ok(())
    }

    /// Why a signature would be refused, if it would.
    pub open spec fn sign_refusal(&self, now: u64, proposal_id: u64, option_id: u8) -> Option<EntityError> {
        if !self.governance.has_proposal(proposal_id) {
            Some(EntityError::StorageDecode)
        } else if self.proposal_status(self.governance.proposal(proposal_id), now) != ProposalStatus::Active {
            Some(EntityError::ProposalNotActive)
        } else if option_id != 0 && self.governance.poll(proposal_id, option_id) + 1 > u128::MAX {
            Some(EntityError::AmountOverflow)
        } else {
            None
        }
    }

    /// Withdraws a proposal from the entity: it is removed and a cancel
    /// event is logged.
    pub fn cancel_proposal(&mut self, ctx: &CallContext, proposal_id: u64)
        requires
            old(self).wf(),
        ensures
            final(self).wf(),
            final(self).governance.proposals.map() == old(self).governance.proposals.map().remove(proposal_id),
            final(self).governance == (ProposalModule { proposals: final(self).governance.proposals, ..old(self).governance }),
            final(self).events@ == old(self).events@.push(EventView::Cancel { caller: ctx.caller@, proposal_id }),
            *final(self) == (EntityContract { governance: final(self).governance, events: final(self).events, ..*old(self) }),
    {
        self.governance.clear_proposal(proposal_id);
        self.emit_cancel_event(&ctx.caller, proposal_id);
        proof {
            EntityContract::lemma_deposits_kept(old(self), self);
        }
    }
}

/// Counting votes and signatures on proposals, and handing deposits back.
pub trait VoteModule {
    /// The state invariant that every method keeps.
    spec fn wf(&self) -> bool;

    /// Room for one more user.
    spec fn has_room_for_user(&self) -> bool;

    /// `proposal_id` was handed out to a proposal.
    spec fn is_issued_proposal_id(&self, proposal_id: u64) -> bool;

    fn vote(&mut self, ctx: &CallContext, voter: &Vec<u8>, proposal_id: u64, vote_type: VoteType, weight: u128, option_id: u8) -> (result: Result<(), EntityError>)
        requires
            old(self).wf(),
        ensures
            final(self).wf(),
    ;

    fn sign(&mut self, ctx: &CallContext, proposal_id: u64, option_id: u8) -> (result: Result<(), EntityError>)
        requires
            old(self).wf(),
            old(self).has_room_for_user(),
        ensures
            final(self).wf(),
    ;

    fn sign_for_all_roles(&mut self, signer: &Vec<u8>, proposal_id: u64)
        requires
            old(self).wf(),
            old(self).has_room_for_user(),
            old(self).is_issued_proposal_id(proposal_id),
        ensures
            final(self).wf(),
    ;

    fn withdraw_tokens(&mut self, ctx: &CallContext, proposal_id: u64) -> (outcome: WithdrawOutcome)
        requires
            old(self).wf(),
        ensures
            final(self).wf(),
    ;
}

impl VoteModule for EntityContract {
    open spec fn wf(&self) -> bool {
        EntityContract::wf(self)
    }

    open spec fn has_room_for_user(&self) -> bool {
        self.members.has_room_for_user()
    }

    open spec fn is_issued_proposal_id(&self, proposal_id: u64) -> bool {
        proposal_id < self.governance.next_proposal_id
    }

    /// Votes with `weight` for or against an active proposal, optionally
    /// for a poll option.
    fn vote(&mut self, ctx: &CallContext, voter: &Vec<u8>, proposal_id: u64, vote_type: VoteType, weight: u128, option_id: u8) -> (result: Result<(), EntityError>)
        ensures
            final(self).wf(),
            ({
                let refusal = old(self).vote_refusal(ctx.block_timestamp, proposal_id, vote_type, weight, option_id);
                match result {
                    Err(e) => refusal == Some(e) && *final(self) == *old(self),
                    Ok(_) => refusal is None,
                }
            }),
            result is Ok ==> {
                let p = old(self).governance.proposal(proposal_id);
                &&& final(self).governance.proposals.map() == old(self).governance.proposals.map().insert(proposal_id, final(self).governance.proposals.map()[proposal_id])
                &&& final(self).governance.proposal(proposal_id) == (match vote_type {
                    VoteType::For => ProposalView { votes_for: (p.votes_for + weight) as u128, ..p },
                    VoteType::Against => ProposalView { votes_against: (p.votes_against + weight) as u128, ..p },
                })
                &&& forall|i: u64, o: u8| #[trigger] final(self).governance.poll(i, o) == if i == proposal_id && o == option_id && option_id != 0 {
                    old(self).governance.poll(i, o) + weight as nat
                } else {
                    old(self).governance.poll(i, o)
                }
                &&& final(self).governance == (ProposalModule {
                    proposals: final(self).governance.proposals,
                    proposal_poll: final(self).governance.proposal_poll,
                    ..old(self).governance
                })
                &&& final(self).members == old(self).members
                &&& final(self).config == old(self).config
                &&& final(self).plug == old(self).plug
                &&& final(self).contracts == old(self).contracts
                &&& final(self).events@ == old(self).events@.push(match vote_type {
                    VoteType::For => EventView::VoteFor { caller: voter@, proposal_id, weight, poll_option: option_id },
                    VoteType::Against => EventView::VoteAgainst { caller: voter@, proposal_id, weight, poll_option: option_id },
                })
            },
    {
        self.check_vote(ctx, proposal_id, vote_type, weight, option_id)?;
        let mut proposal = match self.governance.get_proposal(proposal_id) {
            Some(p) => p,
            None => {
                return Err(EntityError::ProposalDoesNotExist);
            },
        };
        match vote_type {
            VoteType::For => proposal.votes_for = proposal.votes_for + weight,
            VoteType::Against => proposal.votes_against = proposal.votes_against + weight,
        }
        let ghost old_self = *self;
        proof {
            assert(self.governance.proposals.map()[proposal_id].id == proposal_id);
        }
        self.governance.set_proposal(proposal);
        let ghost stored = *self;
        self.governance.cast_poll_vote(proposal_id, option_id, weight);
        let ghost cast = *self;
        self.emit_vote_event(voter, proposal_id, vote_type, weight, option_id);
        proof {
            EntityContract::lemma_deposits_kept(&old_self, self);
            assert forall|i: u64, o: u8| #[trigger] self.governance.poll(i, o) == if i == proposal_id && o == option_id && option_id != 0 {
                old_self.governance.poll(i, o) + weight as nat
            } else {
                old_self.governance.poll(i, o)
            } by {
                assert(stored.governance.poll(i, o) == old_self.governance.poll(i, o));
                if !(i == proposal_id && o == option_id) {
                    assert((i, o) != (proposal_id, option_id));
                }
            }
        }
        Ok(())
    }

    /// The caller signs an active proposal for each of its roles, and casts
    /// a weight of one for the poll option.
    fn sign(&mut self, ctx: &CallContext, proposal_id: u64, option_id: u8) -> (result: Result<(), EntityError>)
        ensures
            final(self).wf(),
            ({
                let refusal = old(self).sign_refusal(ctx.block_timestamp, proposal_id, option_id);
                match result {
                    Err(e) => refusal == Some(e) && *final(self) == *old(self),
                    Ok(_) => refusal is None,
                }
            }),
            result is Ok ==> {
                &&& final(self).members.user_id(ctx.caller@) >= 1
                &&& forall|a: Seq<u8>| #[trigger] old(self).members.users_view().contains(a) ==> final(self).members.user_id(a) == old(self).members.user_id(a)
                &&& old(self).members.users_view().contains(ctx.caller@) ==> final(self).members == old(self).members
                &&& forall|a: Seq<u8>| #[trigger] final(self).members.roles_of(a) == old(self).members.roles_of(a)
                &&& forall|r: Seq<u8>| #[trigger] final(self).governance.signers(proposal_id, r) == if old(self).members.roles_of(ctx.caller@).contains(r) {
                    set_with(old(self).governance.signers(proposal_id, r), final(self).members.user_id(ctx.caller@) as usize)
                } else {
                    old(self).governance.signers(proposal_id, r)
                }
                &&& forall|id: u64, r: Seq<u8>| id != proposal_id ==> #[trigger] final(self).governance.signers(id, r) == old(self).governance.signers(id, r)
                &&& forall|i: u64, o: u8| #[trigger] final(self).governance.poll(i, o) == if i == proposal_id && o == option_id && option_id != 0 {
                    old(self).governance.poll(i, o) + 1
                } else {
                    old(self).governance.poll(i, o)
                }
                &&& final(self).governance == (ProposalModule {
                    proposal_signers: final(self).governance.proposal_signers,
                    proposal_poll: final(self).governance.proposal_poll,
                    ..old(self).governance
                })
                &&& final(self).config == old(self).config
                &&& final(self).plug == old(self).plug
                &&& final(self).contracts == old(self).contracts
                &&& final(self).events@ == old(self).events@.push(EventView::Sign { caller: ctx.caller@, proposal_id, poll_option: option_id })
            },
    {
        let proposal = match self.governance.get_proposal(proposal_id) {
            Some(p) => p,
            None => {
                return Err(EntityError::StorageDecode);
            },
        };
        if self.get_proposal_status(&proposal, ctx.block_timestamp) != ProposalStatus::Active {
            return Err(EntityError::ProposalNotActive);
        }
        if option_id != 0 && self.governance.get_poll(proposal_id, option_id) == u128::MAX {
            return Err(EntityError::AmountOverflow);
        }
        let ghost old_self = *self;
        proof {
            assert(self.governance.proposals.map()[proposal_id].id == proposal_id);
        }
        self.sign_for_all_roles(&ctx.caller, proposal.id);
        let ghost signed = *self;
        self.governance.cast_poll_vote(proposal.id, option_id, 1);
        self.emit_sign_event(&ctx.caller, proposal.id, option_id);
        proof {
            EntityContract::lemma_deposits_kept(&old_self, self);
            assert(self.governance.proposal_signers == signed.governance.proposal_signers);
            assert(self.members == signed.members);
            assert forall|r: Seq<u8>| #[trigger] self.governance.signers(proposal_id, r) == signed.governance.signers(proposal_id, r) by {}
            assert forall|id: u64, r: Seq<u8>| #[trigger] self.governance.signers(id, r) == signed.governance.signers(id, r) by {}
            assert forall|i: u64, o: u8| #[trigger] self.governance.poll(i, o) == if i == proposal_id && o == option_id && option_id != 0 {
                old_self.governance.poll(i, o) + 1
            } else {
                old_self.governance.poll(i, o)
            } by {
                assert(signed.governance.poll(i, o) == old_self.governance.poll(i, o));
                if !(i == proposal_id && o == option_id) {
                    assert((i, o) != (proposal_id, option_id));
                }
            }
        }
        Ok(())
    }

    /// Records the signature of `signer` on proposal `proposal_id` for each
    /// of the signer's roles, registering the signer as a user when unknown.
    fn sign_for_all_roles(&mut self, signer: &Vec<u8>, proposal_id: u64)
        ensures
            final(self).wf(),
            final(self).members.user_id(signer@) >= 1,
            old(self).members.users_view().contains(signer@) ==> final(self).members == old(self).members,
            !old(self).members.users_view().contains(signer@) ==> {
                &&& final(self).members.users_view() == old(self).members.users_view().push(signer@)
                &&& final(self).members.user_roles_view() == old(self).members.user_roles_view().push(Seq::empty())
                &&& final(self).members.roles == old(self).members.roles
                &&& final(self).members.roles_member_amount == old(self).members.roles_member_amount
                &&& final(self).members.permissions == old(self).members.permissions
                &&& final(self).members.permission_details == old(self).members.permission_details
                &&& final(self).members.policies == old(self).members.policies
            },
            forall|a: Seq<u8>| #[trigger] final(self).members.roles_of(a) == old(self).members.roles_of(a),
            forall|a: Seq<u8>| #[trigger] old(self).members.users_view().contains(a) ==> final(self).members.user_id(a) == old(self).members.user_id(a),
            forall|r: Seq<u8>| #[trigger] final(self).governance.signers(proposal_id, r) == if old(self).members.roles_of(signer@).contains(r) {
                set_with(
                    old(self).governance.signers(proposal_id, r),
                    final(self).members.user_id(signer@) as usize,
                )
            } else {
                old(self).governance.signers(proposal_id, r)
            },
            forall|id: u64, r: Seq<u8>|
                id != proposal_id ==> #[trigger] final(self).governance.signers(id, r) == old(self).governance.signers(id, r),
            final(self).governance == (ProposalModule {
                proposal_signers: final(self).governance.proposal_signers,
                ..old(self).governance
            }),
            final(self).config == old(self).config,
            final(self).plug == old(self).plug,
            final(self).contracts == old(self).contracts,
            final(self).events == old(self).events,
    {
        let signer_id = self.members.get_or_create_user(signer);
        let signer_roles = self.members.get_user_roles(signer);
        let ghost rs = views(signer_roles@);
        let ghost start = self.governance;
        let ghost mid = *self;
        let mut i: usize = 0;
        while i < signer_roles.len()
            invariant
                self.governance.wf(),
                self.members == mid.members,
                self.config == mid.config,
                self.plug == mid.plug,
                self.contracts == mid.contracts,
                self.events == mid.events,
                mid.wf(),
                signer_id == mid.members.user_id(signer@),
                proposal_id < self.governance.next_proposal_id,
                rs == views(signer_roles@),
                i <= rs.len(),
                forall|r: Seq<u8>| #[trigger] self.governance.signers(proposal_id, r) == if rs.take(i as int).contains(r) {
                    set_with(start.signers(proposal_id, r), signer_id)
                } else {
                    start.signers(proposal_id, r)
                },
                forall|id: u64, r: Seq<u8>|
                    id != proposal_id ==> #[trigger] self.governance.signers(id, r) == start.signers(id, r),
                self.governance == (ProposalModule {
                    proposal_signers: self.governance.proposal_signers,
                    ..start
                }),
            decreases rs.len() - i,
        {
            let ghost before = self.governance;
            self.governance.add_signer(proposal_id, &signer_roles[i], signer_id);
            proof {
                let role = signer_roles@[i as int]@;
                assert(rs[i as int] == role);
                assert forall|r: Seq<u8>| #[trigger] self.governance.signers(proposal_id, r) == if rs.take(i as int + 1).contains(r) {
                    set_with(start.signers(proposal_id, r), signer_id)
                } else {
                    start.signers(proposal_id, r)
                } by {
                    assert(rs.take(i as int + 1).contains(r) <==> (rs.take(i as int).contains(r) || r == role)) by {
                        let t = rs.take(i as int + 1);
                        if t.contains(r) {
                            let k = choose|k: int| 0 <= k < t.len() && t[k] == r;
                            if k < i {
                                assert(rs.take(i as int)[k] == r);
                            }
                        }
                        if rs.take(i as int).contains(r) {
                            let k = choose|k: int| 0 <= k < i && rs.take(i as int)[k] == r;
                            assert(t[k] == r);
                        }
                        if r == role {
                            assert(t[i as int] == r);
                        }
                    }
                    if r == role && rs.take(i as int).contains(r) {
                        let s0 = start.signers(proposal_id, r);
                        assert(set_with(set_with(s0, signer_id), signer_id) =~= set_with(s0, signer_id)) by {
                            if !s0.contains(signer_id) {
                                assert(s0.push(signer_id)[s0.len() as int] == signer_id);
                            }
                        }
                    }
                }
            }
            i = i + 1;
        }
        proof {
            assert(rs.take(rs.len() as int) =~= rs);
            EntityContract::lemma_deposits_kept(old(self), self);
        }
    }

    /// Hands the caller's deposits on `proposal_id` back once the proposal
    /// is no longer open to votes, releasing them from the guarded amounts.
    #[verifier::rlimit(60)]
    fn withdraw_tokens(&mut self, ctx: &CallContext, proposal_id: u64) -> (outcome: WithdrawOutcome)
        ensures
            final(self).wf(),
            !old(self).governance.has_proposal(proposal_id) ==> outcome is NoProposal && *final(self) == *old(self),
            old(self).governance.has_proposal(proposal_id) && !old(self).withdrawal_open(proposal_id, ctx.block_timestamp)
                ==> outcome is StillVoting && *final(self) == *old(self),
            old(self).withdrawal_open(proposal_id, ctx.block_timestamp) ==> {
                let w = old(self).governance.withdrawable(proposal_id, ctx.caller@);
                &&& outcome matches WithdrawOutcome::Withdrawn(returned) && views(returned@) == w
                &&& forall|token: Seq<u8>, nonce: u64| #[trigger] final(self).config.guarded(token, nonce)
                    == old(self).config.guarded(token, nonce) - amount_for(w, token, nonce)
                &&& final(self).governance.withdrawable(proposal_id, ctx.caller@) == Seq::<(Seq<u8>, u64, u128)>::empty()
                &&& forall|id: u64, voter: Seq<u8>| (id, voter) != (proposal_id, ctx.caller@) ==> #[trigger] final(self).governance.withdrawable(id, voter) == old(self).governance.withdrawable(id, voter)
                &&& final(self).governance == (ProposalModule {
                    withdrawable_votes: final(self).governance.withdrawable_votes,
                    ..old(self).governance
                })
                &&& final(self).config == (ConfigModule {
                    guarded_vote_tokens: final(self).config.guarded_vote_tokens,
                    ..old(self).config
                })
                &&& final(self).members == old(self).members
                &&& final(self).plug == old(self).plug
                &&& final(self).contracts == old(self).contracts
                &&& final(self).events@ == old(self).events@.push(EventView::Withdraw { caller: ctx.caller@, proposal_id })
            },
    {
        let proposal = match self.governance.get_proposal(proposal_id) {
            Some(p) => p,
            None => {
                return WithdrawOutcome::NoProposal;
            },
        };
        let status = self.get_proposal_status(&proposal, ctx.block_timestamp);
        if status == ProposalStatus::Active || status == ProposalStatus::Pending {
            return WithdrawOutcome::StillVoting;
        }
        let caller = &ctx.caller;
        let mut returnables: Vec<Payment> = Vec::new();
        let votes = self.governance.get_legacy_votes(proposal_id, caller);
        proof {
            assert(self.governance.legacy_votes(proposal_id, caller@) == 0);
        }
        if votes > 0 {
            let gov_token_id = copy_bytes(&self.config.gov_token_id);
            let guarded = self.config.get_guarded(&gov_token_id, 0);
            self.config.guarded_vote_tokens.insert((copy_bytes(&gov_token_id), 0), guarded - votes);
            let _ = self.governance.votes.take(&(proposal_id, copy_bytes(caller)));
            returnables.push(Payment { token_identifier: gov_token_id, token_nonce: 0, amount: votes });
        }
        let ghost start = *self;
        let ghost pre_take = self.governance.withdrawable_votes.entries@;
        let key = (proposal_id, copy_bytes(caller));
        let taken = self.governance.withdrawable_votes.take(&key);
        let ghost taken_entries = self.governance.withdrawable_votes.entries@;
        let ghost w = start.governance.withdrawable(proposal_id, caller@);
        proof {
            assert forall|token: Seq<u8>, nonce: u64| #[trigger] deposit_sum(taken_entries, token, nonce) + amount_for(
                w, token, nonce) == deposit_sum(pre_take, token, nonce) by {
                match taken {
                    Some(v) => {
                        let i = choose|i: int| 0 <= i < pre_take.len() && pre_take[i] == (pre_take[i].0, v) && pre_take[i].0@ == key@ && taken_entries == pre_take.remove(i);
                        lemma_deposit_sum_remove(pre_take, i, token, nonce);
                    },
                    None => {
                        assert(w.len() == 0);
                    },
                }
            }
            assert forall|token: Seq<u8>, nonce: u64| #[trigger] start.config.guarded(token, nonce) == deposit_sum(taken_entries, token, nonce) + amount_for(w, token, nonce) by {
                assert(start.config.guarded(token, nonce) == deposit_sum(pre_take, token, nonce));
            }
        }
        let list = match taken {
            Some(l) => l,
            None => Vec::new(),
        };
        let ghost mid = *self;
        let mut j: usize = 0;
        while j < list.len()
            invariant
                j <= w.len(),
                w == views(list@),
                self.config.wf(),
                forall|token: Seq<u8>, nonce: u64| #[trigger] start.config.guarded(token, nonce) == deposit_sum(taken_entries, token, nonce) + amount_for(w, token, nonce),
                forall|token: Seq<u8>, nonce: u64| #[trigger] self.config.guarded(token, nonce) == start.config.guarded(token, nonce) - amount_for(w.take(j as int), token, nonce),
                views(returnables@) == w.take(j as int),
                *self == (EntityContract { config: ConfigModule { guarded_vote_tokens: self.config.guarded_vote_tokens, ..mid.config }, ..mid }),
            decreases w.len() - j,
        {
            let vote = &list[j];
            proof {
                assert(w.take(j as int + 1).drop_last() =~= w.take(j as int));
                assert(w.take(j as int + 1).last() == vote@);
                lemma_amount_for_prefix(w, j as int + 1, vote.token_identifier@, vote.token_nonce);
                assert(start.config.guarded(vote.token_identifier@, vote.token_nonce) == deposit_sum(taken_entries, vote.token_identifier@, vote.token_nonce) + amount_for(w, vote.token_identifier@, vote.token_nonce));
            }
            let current = self.config.get_guarded(&vote.token_identifier, vote.token_nonce);
            let ghost prev = *self;
            self.config.guarded_vote_tokens.insert((copy_bytes(&vote.token_identifier), vote.token_nonce), current - vote.amount);
            proof {
                assert forall|token: Seq<u8>, nonce: u64| #[trigger] self.config.guarded(token, nonce)
                    == start.config.guarded(token, nonce) - amount_for(w.take(j as int + 1), token, nonce) by {
                    assert(prev.config.guarded(token, nonce) == start.config.guarded(token, nonce) - amount_for(w.take(j as int), token, nonce));
                    if token == vote.token_identifier@ && nonce == vote.token_nonce {
                    } else {
                        assert(self.config.guarded_vote_tokens.map()[(token, nonce)] == prev.config.guarded_vote_tokens.map()[(token, nonce)]);
                    }
                }
            }
            let ghost before_push = views(returnables@);
            returnables.push(vote.copy());
            proof {
                assert(views(returnables@) =~= before_push.push(vote@));
                assert(views(returnables@) =~= w.take(j as int + 1));
            }
            j = j + 1;
        }
        proof {
            assert(w.take(w.len() as int) =~= w);
        }
        let ghost done = *self;
        self.emit_withdraw_event(caller, proposal_id);
        proof {
            assert forall|token: Seq<u8>, nonce: u64| #[trigger] self.config.guarded(token, nonce)
                == deposit_sum(self.governance.withdrawable_votes.entries@, token, nonce) by {
                assert(done.config.guarded(token, nonce) == start.config.guarded(token, nonce) - amount_for(w, token, nonce));
                assert(start.config.guarded(token, nonce) == deposit_sum(taken_entries, token, nonce) + amount_for(w, token, nonce));
            }
            assert forall|id: u64, voter: Seq<u8>| #[trigger] self.governance.legacy_votes(id, voter) == 0 by {
                assert(start.governance.legacy_votes(id, voter) == 0);
            }
            assert(self.governance.withdrawable(proposal_id, caller@) =~= Seq::<(Seq<u8>, u64, u128)>::empty());
        }
        WithdrawOutcome::Withdrawn(returnables)
    }
}

} // verus!
