use vstd::prelude::*;

use crate::config::{require_caller_self, CallContext};
use crate::errors::EntityError;
use crate::governance::events::EventView;
use crate::governance::proposal::ProposalStatus;
use crate::governance::storage::ProposalModule;
use crate::permission::{developer_role, role_builtin_developer};
use crate::store::{copy_bytes, views, Store};
use crate::EntityContract;

verus! {

/// Contract code that the entity stages for deployment or upgrade, per
/// target address, whether a stage is locked, and the proposal that was
/// last made for it.
pub struct ContractStages {
    pub stage: Store<Vec<u8>, Vec<u8>>,
    pub stage_lock: Store<Vec<u8>, bool>,
    pub stage_previous_proposal: Store<Vec<u8>, u64>,
}

impl ContractStages {
    pub open spec fn wf(&self) -> bool {
        &&& self.stage.wf()
        &&& self.stage_lock.wf()
        &&& self.stage_previous_proposal.wf()
    }

    /// The code staged for `address` (empty when none).
    pub open spec fn staged(&self, address: Seq<u8>) -> Seq<u8> {
        if self.stage.map().contains_key(address) {
            self.stage.map()[address]@
        } else {
            Seq::empty()
        }
    }

    pub open spec fn locked(&self, address: Seq<u8>) -> bool {
        self.stage_lock.map().contains_key(address) && self.stage_lock.map()[address]
    }

    /// The proposal last made for the stage of `address` (0 when none).
    pub open spec fn previous_proposal(&self, address: Seq<u8>) -> u64 {
        if self.stage_previous_proposal.map().contains_key(address) {
            self.stage_previous_proposal.map()[address]
        } else {
            0
        }
    }

    pub fn new() -> (module: Self)
        ensures
            module.wf(),
            module.stage.map() == Map::<Seq<u8>, Vec<u8>>::empty(),
            module.stage_lock.map() == Map::<Seq<u8>, bool>::empty(),
            module.stage_previous_proposal.map() == Map::<Seq<u8>, u64>::empty(),
    {
        ContractStages { stage: Store::new(), stage_lock: Store::new(), stage_previous_proposal: Store::new() }
    }

    pub fn is_stage_locked(&self, address: &Vec<u8>) -> (locked: bool)
        requires
            self.wf(),
        ensures
            locked == self.locked(address@),
    {
        match self.stage_lock.get(address) {
            Some(l) => *l,
            None => false,
        }
    }

    /// Drops the code staged for `address` and its lock.
    pub fn clear_stage(&mut self, address: &Vec<u8>)
        requires
            old(self).wf(),
        ensures
            final(self).wf(),
            final(self).stage.map() == old(self).stage.map().remove(address@),
            final(self).stage_lock.map() == old(self).stage_lock.map().remove(address@),
            final(self).stage_previous_proposal == old(self).stage_previous_proposal,
    {
        let _ = self.stage_lock.take(address);
        let _ = self.stage.take(address);
    }

    /// Why staging `code` for `address` would be refused, if it would.
    pub open spec fn stage_refusal(&self, address: Seq<u8>, code: Seq<u8>, sc_address: Seq<u8>) -> Option<EntityError> {
        if self.locked(address) {
            Some(EntityError::ContractStageLocked)
        } else if sc_address == address {
            Some(EntityError::AddressMustNotBeSelf)
        } else if code.len() == 0 {
            Some(EntityError::CodeMustNotBeEmpty)
        } else {
            None
        }
    }

    /// Stages `code` for `address` and locks the stage.
    pub fn stage_contract(&mut self, address: &Vec<u8>, code: Vec<u8>, sc_address: &Vec<u8>) -> (result: Result<(), EntityError>)
        requires
            old(self).wf(),
        ensures
            final(self).wf(),
            match result {
                Err(e) => old(self).stage_refusal(address@, code@, sc_address@) == Some(e) && *final(self) == *old(self),
                Ok(_) => old(self).stage_refusal(address@, code@, sc_address@) is None
                    && final(self).staged(address@) == code@
                    && final(self).locked(address@)
                    && forall|a: Seq<u8>| a != address@ ==> #[trigger] final(self).staged(a) == old(self).staged(a) && final(self).locked(a) == old(self).locked(a)
                    && final(self).stage_previous_proposal == old(self).stage_previous_proposal,
            },
    {
        if self.is_stage_locked(address) {
            return Err(EntityError::ContractStageLocked);
        }
        if crate::store::bytes_eq(sc_address, address) {
            return Err(EntityError::AddressMustNotBeSelf);
        }
        if code.len() == 0 {
            return Err(EntityError::CodeMustNotBeEmpty);
        }
        self.stage.insert(copy_bytes(address), code);
        self.stage_lock.insert(copy_bytes(address), true);
        Ok(())
    }
}

/// A staged contract to deploy (no address) or to upgrade at `address`,
/// with the code metadata and arguments of the activation.
pub struct ContractDeployment {
    pub address: Option<Vec<u8>>,
    pub code: Vec<u8>,
    pub code_metadata: u16,
    pub arguments: Vec<Vec<u8>>,
}

/// The endpoints by which developers stage contract code and the entity
/// deploys or upgrades it.
pub trait ContractModule {
    /// The state invariant that every method keeps.
    spec fn wf(&self) -> bool;

    /// Room for one more user and one more proposal.
    spec fn has_room(&self) -> bool;

    fn lock_contract_stage_endpoint(&mut self, ctx: &CallContext, address: &Vec<u8>) -> (result: Result<(), EntityError>)
        requires
            old(self).wf(),
        ensures
            final(self).wf(),
    ;

    fn unlock_contract_stage_endpoint(&mut self, ctx: &CallContext, address: &Vec<u8>) -> (result: Result<(), EntityError>)
        requires
            old(self).wf(),
        ensures
            final(self).wf(),
    ;

    fn stage_contract_endpoint(&mut self, ctx: &CallContext, address: &Vec<u8>, code: Vec<u8>) -> (result: Result<(), EntityError>)
        requires
            old(self).wf(),
        ensures
            final(self).wf(),
    ;

    fn stage_contract_and_propose_endpoint(
        &mut self,
        ctx: &CallContext,
        address: &Vec<u8>,
        code: Vec<u8>,
        trusted_host_id: Vec<u8>,
        content_hash: Vec<u8>,
        content_sig: Vec<u8>,
        actions_hash: Vec<u8>,
        permissions: Vec<Vec<u8>>,
    ) -> (result: Result<u64, EntityError>)
        requires
            old(self).wf(),
            old(self).has_room(),
        ensures
            final(self).wf(),
    ;

    fn activate_contract_endpoint(&mut self, ctx: &CallContext, address: &Vec<u8>, code_metadata: u16, arguments: Vec<Vec<u8>>) -> (result: Result<ContractDeployment, EntityError>)
        requires
            old(self).wf(),
        ensures
            final(self).wf(),
    ;

    /// The lock flag and the code staged for `address`.
    fn get_contract_stage_view(&self, address: &Vec<u8>) -> (view: (bool, Vec<u8>))
        requires
            self.wf(),
    ;
}

impl EntityContract {
    /// The caller must hold the developer role.
    pub fn require_caller_is_developer(&self, ctx: &CallContext) -> (result: Result<(), EntityError>)
        requires
            self.wf(),
        ensures
            result is Ok <==> self.members.roles_of(ctx.caller@).contains(developer_role()),
            result is Err ==> result == Err::<(), EntityError>(EntityError::CallerMustBeDeveloper),
    {
        if self.members.has_role(&ctx.caller, &role_builtin_developer()) {
            Ok(())
        } else {
            Err(EntityError::CallerMustBeDeveloper)
        }
    }

    /// Cancels the proposal made for the stage of `address` while it is
    /// still open to votes, and clears the stage.
    pub fn cancel_previous_stage_proposal(&mut self, ctx: &CallContext, address: &Vec<u8>, active_proposal_id: u64) -> (result: Result<(), EntityError>)
        requires
            old(self).wf(),
        ensures
            final(self).wf(),
            !old(self).governance.has_proposal(active_proposal_id) ==> result == Err::<(), EntityError>(EntityError::StorageDecode) && *final(self) == *old(self),
            old(self).governance.has_proposal(active_proposal_id) && old(self).proposal_status(old(self).governance.proposal(active_proposal_id), ctx.block_timestamp)
                != ProposalStatus::Active ==> result is Ok && *final(self) == *old(self),
            old(self).governance.has_proposal(active_proposal_id) && old(self).proposal_status(old(self).governance.proposal(active_proposal_id), ctx.block_timestamp)
                == ProposalStatus::Active ==> {
                &&& result is Ok
                &&& final(self).governance.proposals.map() == old(self).governance.proposals.map().remove(active_proposal_id)
                &&& final(self).governance == (ProposalModule { proposals: final(self).governance.proposals, ..old(self).governance })
                &&& final(self).events@ == old(self).events@.push(EventView::Cancel { caller: ctx.caller@, proposal_id: active_proposal_id })
                &&& final(self).contracts.stage.map() == old(self).contracts.stage.map().remove(address@)
                &&& final(self).contracts.stage_lock.map() == old(self).contracts.stage_lock.map().remove(address@)
                &&& final(self).contracts.stage_previous_proposal == old(self).contracts.stage_previous_proposal
                &&& *final(self) == (EntityContract { governance: final(self).governance, events: final(self).events, contracts: final(self).contracts, ..*old(self) })
            },
    {
        let active_proposal = match self.governance.get_proposal(active_proposal_id) {
            Some(p) => p,
            None => {
                return Err(EntityError::StorageDecode);
            },
        };
        if self.get_proposal_status(&active_proposal, ctx.block_timestamp) != ProposalStatus::Active {
            return Ok(());
        }
        self.cancel_proposal(ctx, active_proposal_id);
        let ghost cancelled = *self;
        self.contracts.clear_stage(address);
        proof {
            EntityContract::lemma_deposits_kept(&cancelled, self);
        }
        Ok(())
    }

    /// Whether staging for `address` cancels the proposal last made for it:
    /// it exists and is still open to votes.
    pub open spec fn stage_cancels(&self, address: Seq<u8>, now: u64) -> bool {
        let previous = self.contracts.previous_proposal(address);
        &&& previous > 0
        &&& self.governance.has_proposal(previous)
        &&& self.proposal_status(self.governance.proposal(previous), now) == ProposalStatus::Active
    }

    /// Why staging and proposing would be refused, if it would.
    pub open spec fn stage_and_propose_refusal(
        &self,
        caller: Seq<u8>,
        sc_address: Seq<u8>,
        now: u64,
        address: Seq<u8>,
        code: Seq<u8>,
        trusted_host_id: Seq<u8>,
        content_hash: Seq<u8>,
        content_sig: Seq<u8>,
        actions_hash: Seq<u8>,
        permissions: Seq<Seq<u8>>,
    ) -> Option<EntityError> {
        let previous = self.contracts.previous_proposal(address);
        let locked = !self.stage_cancels(address, now) && self.contracts.locked(address);
        if !self.members.roles_of(caller).contains(developer_role()) {
            Some(EntityError::CallerMustBeDeveloper)
        } else if previous > 0 && !self.governance.has_proposal(previous) {
            Some(EntityError::StorageDecode)
        } else if locked {
            Some(EntityError::ContractStageLocked)
        } else if sc_address == address {
            Some(EntityError::AddressMustNotBeSelf)
        } else if code.len() == 0 {
            Some(EntityError::CodeMustNotBeEmpty)
        } else {
            self.proposal_refusal(sc_address, now, caller, trusted_host_id, content_hash, content_sig, actions_hash, 0, permissions)
        }
    }
}

impl ContractModule for EntityContract {
    open spec fn wf(&self) -> bool {
        EntityContract::wf(self)
    }

    open spec fn has_room(&self) -> bool {
        self.members.has_room_for_user() && self.governance.next_proposal_id < u64::MAX
    }

    /// Locks the stage of `address`. Only the contract itself may do so.
    fn lock_contract_stage_endpoint(&mut self, ctx: &CallContext, address: &Vec<u8>) -> (result: Result<(), EntityError>)
        ensures
            final(self).wf(),
            ctx.caller@ != ctx.sc_address@ ==> result == Err::<(), EntityError>(EntityError::ActionNotAllowedByUser),
            ctx.caller@ == ctx.sc_address@ && old(self).contracts.locked(address@) ==> result == Err::<(), EntityError>(EntityError::ContractStageLockedAlready),
            ctx.caller@ == ctx.sc_address@ && !old(self).contracts.locked(address@) ==> result is Ok,
            result is Err ==> *final(self) == *old(self),
            result is Ok ==> ctx.caller@ == ctx.sc_address@ && !old(self).contracts.locked(address@)
                && final(self).contracts.stage_lock.map() == old(self).contracts.stage_lock.map().insert(address@, true)
                && *final(self) == (EntityContract { contracts: ContractStages { stage_lock: final(self).contracts.stage_lock, ..old(self).contracts }, ..*old(self) }),
    {
        require_caller_self(ctx)?;
        if self.contracts.is_stage_locked(address) {
            return Err(EntityError::ContractStageLockedAlready);
        }
        self.contracts.stage_lock.insert(copy_bytes(address), true);
        proof {
            EntityContract::lemma_deposits_kept(old(self), self);
        }
        Ok(())
    }

    /// Clears the locked stage of `address`. Only the contract itself may
    /// do so.
    fn unlock_contract_stage_endpoint(&mut self, ctx: &CallContext, address: &Vec<u8>) -> (result: Result<(), EntityError>)
        ensures
            final(self).wf(),
            ctx.caller@ != ctx.sc_address@ ==> result == Err::<(), EntityError>(EntityError::ActionNotAllowedByUser),
            ctx.caller@ == ctx.sc_address@ && !old(self).contracts.locked(address@) ==> result == Err::<(), EntityError>(EntityError::ContractStageUnlockedAlready),
            ctx.caller@ == ctx.sc_address@ && old(self).contracts.locked(address@) ==> result is Ok,
            result is Err ==> *final(self) == *old(self),
            result is Ok ==> ctx.caller@ == ctx.sc_address@ && old(self).contracts.locked(address@)
                && final(self).contracts.stage.map() == old(self).contracts.stage.map().remove(address@)
                && final(self).contracts.stage_lock.map() == old(self).contracts.stage_lock.map().remove(address@)
                && *final(self) == (EntityContract { contracts: final(self).contracts, ..*old(self) }),
    {
        require_caller_self(ctx)?;
        if !self.contracts.is_stage_locked(address) {
            return Err(EntityError::ContractStageUnlockedAlready);
        }
        self.contracts.clear_stage(address);
        proof {
            EntityContract::lemma_deposits_kept(old(self), self);
        }
        Ok(())
    }

    /// Stages `code` for `address`. Only a developer may do so.
    fn stage_contract_endpoint(&mut self, ctx: &CallContext, address: &Vec<u8>, code: Vec<u8>) -> (result: Result<(), EntityError>)
        ensures
            final(self).wf(),
            !old(self).members.roles_of(ctx.caller@).contains(developer_role()) ==> result == Err::<(), EntityError>(EntityError::CallerMustBeDeveloper),
            old(self).members.roles_of(ctx.caller@).contains(developer_role()) ==> match result {
                Err(e) => old(self).contracts.stage_refusal(address@, code@, ctx.sc_address@) == Some(e),
                Ok(_) => old(self).contracts.stage_refusal(address@, code@, ctx.sc_address@) is None,
            },
            result is Err ==> *final(self) == *old(self),
            result is Ok ==> final(self).contracts.staged(address@) == code@ && final(self).contracts.locked(address@)
                && *final(self) == (EntityContract { contracts: final(self).contracts, ..*old(self) }),
    {
        self.require_caller_is_developer(ctx)?;
        self.contracts.stage_contract(address, code, &ctx.sc_address)?;
        proof {
            EntityContract::lemma_deposits_kept(old(self), self);
        }
        Ok(())
    }

    /// Stages `code` for the contract at `address` and proposes it; a
    /// proposal made earlier for the stage and still open is cancelled.
    /// Only a developer may do so. Gives the new proposal's id.
    #[verifier::rlimit(80)]
    fn stage_contract_and_propose_endpoint(
        &mut self,
        ctx: &CallContext,
        address: &Vec<u8>,
        code: Vec<u8>,
        trusted_host_id: Vec<u8>,
        content_hash: Vec<u8>,
        content_sig: Vec<u8>,
        actions_hash: Vec<u8>,
        permissions: Vec<Vec<u8>>,
    ) -> (result: Result<u64, EntityError>)
        ensures
            final(self).wf(),
            ({
                let refusal = old(self).stage_and_propose_refusal(
                    ctx.caller@,
                    ctx.sc_address@,
                    ctx.block_timestamp,
                    address@,
                    code@,
                    trusted_host_id@,
                    content_hash@,
                    content_sig@,
                    actions_hash@,
                    views(permissions@),
                );
                match result {
                    Err(e) => refusal == Some(e) && *final(self) == *old(self),
                    Ok(_) => refusal is None,
                }
            }),
            result matches Ok(id) ==> {
                let cancels = old(self).stage_cancels(address@, ctx.block_timestamp);
                let previous = old(self).contracts.previous_proposal(address@);
                let kept = if cancels {
                    old(self).governance.proposals.map().remove(previous)
                } else {
                    old(self).governance.proposals.map()
                };
                &&& id == old(self).governance.next_proposal_id
                &&& final(self).governance.proposals.map() == kept.insert(id, final(self).governance.proposals.map()[id])
                &&& final(self).governance.proposal(id) == old(self).new_proposal(
                    ctx.block_timestamp,
                    ctx.caller@,
                    content_hash@,
                    actions_hash@,
                    0,
                    views(permissions@),
                )
                &&& final(self).governance.next_proposal_id == id + 1
                &&& forall|r: Seq<u8>| #[trigger] final(self).governance.signers(id, r) == if crate::governance::voting::guarded_by_policies(actions_hash@, views(permissions@))
                    && old(self).members.roles_of(ctx.caller@).contains(r) {
                    seq![old(self).members.user_id(ctx.caller@) as usize]
                } else {
                    Seq::<usize>::empty()
                }
                &&& forall|i: u64, r: Seq<u8>| i != id ==> #[trigger] final(self).governance.signers(i, r) == old(self).governance.signers(i, r)
                &&& forall|i: u64, o: u8| #[trigger] final(self).governance.poll(i, o) == old(self).governance.poll(i, o)
                &&& views(final(self).governance.known_trusted_host_proposal_ids@) == views(old(self).governance.known_trusted_host_proposal_ids@).push(trusted_host_id@)
                &&& final(self).governance.withdrawable_votes == old(self).governance.withdrawable_votes
                &&& final(self).governance.withdrawable_proposal_ids == old(self).governance.withdrawable_proposal_ids
                &&& final(self).governance.proposal_nft_votes == old(self).governance.proposal_nft_votes
                &&& final(self).contracts.staged(address@) == code@
                &&& final(self).contracts.locked(address@)
                &&& final(self).contracts.previous_proposal(address@) == id
                &&& final(self).events@ == if cancels {
                    old(self).events@.push(EventView::Cancel { caller: ctx.caller@, proposal_id: previous })
                } else {
                    old(self).events@
                }.push(EventView::Propose { caller: ctx.caller@, proposal_id: id, weight: 0, poll_option: 0 })
                &&& final(self).members == old(self).members
                &&& final(self).config == old(self).config
                &&& final(self).plug == old(self).plug
            },
    {
        self.require_caller_is_developer(ctx)?;
        let active_proposal_id = match self.contracts.stage_previous_proposal.get(address) {
            Some(id) => *id,
            None => 0,
        };
        let mut cancels = false;
        if active_proposal_id > 0 {
            match self.governance.get_proposal(active_proposal_id) {
                Some(p) => {
                    cancels = self.get_proposal_status(&p, ctx.block_timestamp) == ProposalStatus::Active;
                },
                None => {
                    return Err(EntityError::StorageDecode);
                },
            }
        }
        if !cancels && self.contracts.is_stage_locked(address) {
            return Err(EntityError::ContractStageLocked);
        }
        if crate::store::bytes_eq(&ctx.sc_address, address) {
            return Err(EntityError::AddressMustNotBeSelf);
        }
        if code.len() == 0 {
            return Err(EntityError::CodeMustNotBeEmpty);
        }
        let _ = self.check_proposal(ctx, &ctx.caller, &trusted_host_id, &content_hash, &content_sig, &actions_hash, 0, &permissions)?;
        let ghost start = *self;
        if active_proposal_id > 0 {
            let _ = self.cancel_previous_stage_proposal(ctx, address, active_proposal_id);
        }
        let ghost after_cancel = *self;
        let staged = self.contracts.stage_contract(address, code, &ctx.sc_address);
        match staged {
            Ok(_) => {},
            Err(e) => {
                return Err(e);
            },
        }
        let ghost after_stage = *self;
        proof {
            EntityContract::lemma_deposits_kept(&after_cancel, self);
            assert(self.governance == after_cancel.governance);
            assert(self.governance.next_proposal_id == start.governance.next_proposal_id);
        }
        let created = self.create_proposal(ctx, &ctx.caller, trusted_host_id, content_hash, &content_sig, actions_hash, 0, 0, &permissions);
        let proposal = match created {
            Ok(p) => p,
            Err(e) => {
                return Err(e);
            },
        };
        let ghost after_create = *self;
        self.contracts.stage_previous_proposal.insert(copy_bytes(address), proposal.id);
        proof {
            EntityContract::lemma_deposits_kept(&after_create, self);
            assert(self.contracts.staged(address@) == after_stage.contracts.staged(address@));
        }
        Ok(proposal.id)
    }

    /// Deploys (for the zero address) or upgrades the contract staged for
    /// `address`, and clears its lock. Only the contract itself may do so.
    fn activate_contract_endpoint(&mut self, ctx: &CallContext, address: &Vec<u8>, code_metadata: u16, arguments: Vec<Vec<u8>>) -> (result: Result<ContractDeployment, EntityError>)
        ensures
            final(self).wf(),
            ctx.caller@ != ctx.sc_address@ ==> result == Err::<ContractDeployment, EntityError>(EntityError::ActionNotAllowedByUser),
            ctx.caller@ == ctx.sc_address@ && old(self).contracts.staged(address@).len() == 0
                ==> result == Err::<ContractDeployment, EntityError>(EntityError::ContractNotStaged),
            result is Err ==> *final(self) == *old(self),
            result matches Ok(deployment) ==> {
                &&& ctx.caller@ == ctx.sc_address@ && old(self).contracts.staged(address@).len() > 0
                &&& deployment.code@ == old(self).contracts.staged(address@)
                &&& deployment.code_metadata == code_metadata
                &&& deployment.arguments == arguments
                &&& if crate::governance::proposal::is_zero_address(address@) {
                    deployment.address is None
                } else {
                    (deployment.address matches Some(a) && a@ == address@)
                }
                &&& final(self).contracts.stage.map() == old(self).contracts.stage.map().remove(address@)
                &&& final(self).contracts.stage_lock.map() == old(self).contracts.stage_lock.map().remove(address@)
                &&& *final(self) == (EntityContract { contracts: final(self).contracts, ..*old(self) })
            },
    {
        require_caller_self(ctx)?;
        let staged = match self.contracts.stage.get(address) {
            Some(code) => code.len() != 0,
            None => false,
        };
        if !staged {
            return Err(EntityError::ContractNotStaged);
        }
        let code = match self.contracts.stage.take(address) {
            Some(c) => c,
            None => Vec::new(),
        };
        let target = if crate::governance::proposal::is_zero_address_bytes(address) {
            None
        } else {
            Some(copy_bytes(address))
        };
        let _ = self.contracts.stage_lock.take(address);
        proof {
            EntityContract::lemma_deposits_kept(old(self), self);
        }
        Ok(ContractDeployment { address: target, code, code_metadata, arguments })
    }
    fn get_contract_stage_view(&self, address: &Vec<u8>) -> (view: (bool, Vec<u8>))
        ensures
            view.0 == self.contracts.locked(address@),
            view.1@ == self.contracts.staged(address@),
    {
        let locked = self.contracts.is_stage_locked(address);
        let code = match self.contracts.stage.get(address) {
            Some(c) => copy_bytes(c),
            None => Vec::new(),
        };
        (locked, code)
    }
}

} // verus!
