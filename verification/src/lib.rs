use vstd::prelude::*;

pub mod config;
pub mod contract;
pub mod crypto;
pub mod errors;
pub mod governance;
pub mod laws;
pub mod permission;
pub mod plug;
pub mod store;

use crate::config::{require_caller_self, CallContext, ConfigModule};
use crate::contract::ContractStages;
use crate::errors::EntityError;
use crate::governance::events::EventLog;
use crate::governance::storage::ProposalModule;
use crate::permission::{leader_role, Members};
use crate::plug::Plug;
use crate::store::{copy_bytes, views};

verus! {

/// The state of a DAO entity: its members and their roles, its settings,
/// its proposals, its plug, the contracts it stages and the events it
/// logged. It implements `Entity` and each of its modules.
pub struct EntityContract {
    pub members: Members,
    pub config: ConfigModule,
    pub governance: ProposalModule,
    pub plug: Plug,
    pub contracts: ContractStages,
    pub events: EventLog,
}

/// A call to a DNS contract that registers a name for the entity, carrying
/// `egld_value`.
pub struct DnsRegistration {
    pub dns_address: Vec<u8>,
    pub name: Vec<u8>,
    pub egld_value: u128,
}

impl EntityContract {
    pub open spec fn wf(&self) -> bool {
        &&& self.members.wf()
        &&& self.config.wf()
        &&& self.governance.wf()
        &&& self.plug.wf()
        &&& self.contracts.wf()
        &&& self.deposits_balanced()
    }
}

/// The entity contract: its construction and the endpoints that belong to
/// no module. Its modules are `ContractModule`, `PermissionModule`,
/// `PlugModule`, `GovernanceModule`, `VoteModule`, `GovEventsModule` and
/// `TokenModule`.
pub trait Entity: Sized {
    /// The state invariant that every method keeps.
    spec fn wf(&self) -> bool;

    fn init(trusted_host_address: Vec<u8>, opt_leader: Option<Vec<u8>>) -> (entity: Self)
        ensures
            entity.wf(),
    ;

    fn change_vote_token_lock_endpoint(&mut self, ctx: &CallContext, token: &Vec<u8>, lock: bool) -> (result: Result<(), EntityError>)
        requires
            old(self).wf(),
        ensures
            final(self).wf(),
    ;

    fn register_dns(&self, ctx: &CallContext, dns_address: Vec<u8>, name: Vec<u8>) -> (result: Result<DnsRegistration, EntityError>);
}

impl Entity for EntityContract {
    open spec fn wf(&self) -> bool {
        EntityContract::wf(self)
    }

    /// A fresh entity with `trusted_host_address` as its trusted host and,
    /// when given, `opt_leader` as its only leader.
    fn init(trusted_host_address: Vec<u8>, opt_leader: Option<Vec<u8>>) -> (entity: Self)
        ensures
            entity.wf(),
            entity.config.trusted_host_address@ == trusted_host_address@,
            !entity.config.has_gov_token(),
            entity.config.quorum == 1,
            entity.config.min_propose_weight == 1,
            entity.config.min_vote_weight == 0,
            entity.config.voting_period_in_minutes == 4320,
            entity.governance.next_proposal_id == 1,
            entity.governance.proposals.map().len() == 0,
            !entity.plug.plugged(),
            entity.events@.len() == 0,
            match opt_leader {
                Some(leader) => {
                    &&& views(entity.members.roles@) == seq![leader_role()]
                    &&& entity.members.users_view() == seq![leader@]
                    &&& entity.members.roles_of(leader@) == seq![leader_role()]
                    &&& entity.members.member_amount(leader_role()) == 1
                },
                None => {
                    &&& views(entity.members.roles@).len() == 0
                    &&& entity.members.users@.len() == 0
                },
            },
    {
        let mut members = Members::new();
        match opt_leader {
            Some(leader) => members.init_permission_module(&leader),
            None => {},
        }
        let entity = EntityContract {
            members,
            config: ConfigModule::new(trusted_host_address),
            governance: ProposalModule::new(),
            plug: Plug::new(),
            contracts: ContractStages::new(),
            events: EventLog::new(),
        };
        proof {
            assert(entity.governance.proposals.map() =~= Map::<u64, crate::governance::proposal::Proposal>::empty());
            assert(entity.governance.withdrawable_votes.entries@.len() == 0);
        }
        entity
    }

    /// Sets whether vote tokens of `token` that carry a nonce stay locked
    /// in the contract until withdrawal. Only the trusted host may do so.
    fn change_vote_token_lock_endpoint(&mut self, ctx: &CallContext, token: &Vec<u8>, lock: bool) -> (result: Result<(), EntityError>)
        ensures
            final(self).wf(),
            result is Ok <==> ctx.caller@ == old(self).config.trusted_host_address@,
            result is Err ==> result == Err::<(), EntityError>(EntityError::ActionNotAllowedByUser)
                && *final(self) == *old(self),
            result is Ok ==> {
                &&& final(self).config.lock_vote_tokens.map() == old(self).config.lock_vote_tokens.map().insert(token@, lock)
                &&& final(self).config.guarded_vote_tokens == old(self).config.guarded_vote_tokens
                &&& final(self).config.gov_token_id == old(self).config.gov_token_id
                &&& final(self).members == old(self).members
                &&& final(self).governance == old(self).governance
                &&& final(self).plug == old(self).plug
                &&& final(self).contracts == old(self).contracts
                &&& final(self).events == old(self).events
            },
    {
        self.config.require_caller_trusted_host(ctx)?;
        self.config.lock_vote_tokens.insert(copy_bytes(token), lock);
        proof {
            EntityContract::lemma_deposits_kept(old(self), self);
        }
        Ok(())
    }

    /// The registration of `name` at the DNS contract `dns_address`, paid
    /// with the EGLD of the call; only the contract itself registers its name.
    fn register_dns(&self, ctx: &CallContext, dns_address: Vec<u8>, name: Vec<u8>) -> (result: Result<DnsRegistration, EntityError>)
        ensures
            ctx.caller@ != ctx.sc_address@ ==> result == Err::<DnsRegistration, EntityError>(EntityError::ActionNotAllowedByUser),
            ctx.caller@ == ctx.sc_address@ ==> (result matches Ok(registration) && registration.dns_address@ == dns_address@
                && registration.name@ == name@ && registration.egld_value == ctx.egld_value),
    {
        require_caller_self(ctx)?;
        Ok(DnsRegistration { dns_address, name, egld_value: ctx.egld_value })
    }
}

} // verus!
