use vstd::prelude::*;

use crate::config::CallContext;
use crate::errors::EntityError;
use crate::permission::Members;
use crate::store::{copy_bytes, set_contains, set_insert, views, Store};
use crate::EntityContract;

verus! {

/// A plug: an outside contract that tells the entity the vote weight of
/// its users.
pub struct Plug {
    /// The plug contract (empty while the entity is not plugged).
    pub plug_contract: Vec<u8>,
    pub plug_weight_decimals: u8,
    /// The user ids that voted through the plug, per proposal.
    pub plug_votes: Store<u64, Vec<usize>>,
}

/// The query that asks the plug for the vote weight of `address`, in the
/// governance token when one is set.
pub struct PlugVoteWeightQuery {
    pub plug_contract: Vec<u8>,
    pub address: Vec<u8>,
    pub token: Option<Vec<u8>>,
}

impl Plug {
    pub open spec fn wf(&self) -> bool {
        self.plug_votes.wf()
    }

    pub open spec fn plugged(&self) -> bool {
        self.plug_contract@.len() > 0
    }

    /// The user ids that voted on proposal `id` through the plug.
    pub open spec fn voters(&self, id: u64) -> Seq<usize> {
        if self.plug_votes.map().contains_key(id) {
            self.plug_votes.map()[id]@
        } else {
            Seq::empty()
        }
    }

    pub fn new() -> (plug: Self)
        ensures
            plug.wf(),
            !plug.plugged(),
            plug.plug_weight_decimals == 0,
            plug.plug_votes.map() == Map::<u64, Vec<usize>>::empty(),
    {
        Plug { plug_contract: Vec::new(), plug_weight_decimals: 0, plug_votes: Store::new() }
    }

    pub fn is_plugged(&self) -> (plugged: bool)
        ensures
            plugged == self.plugged(),
    {
        self.plug_contract.len() != 0
    }

    /// Records that `voter` voted on `proposal_id` through the plug,
    /// registering the voter as a user when it is unknown.
    pub fn record_plug_vote(&mut self, members: &mut Members, voter: &Vec<u8>, proposal_id: u64)
        requires
            old(self).wf(),
            old(members).wf(),
            old(members).has_room_for_user(),
        ensures
            final(self).wf(),
            final(members).wf(),
            final(members).user_id(voter@) >= 1,
            forall|a: Seq<u8>| #[trigger] final(members).roles_of(a) == old(members).roles_of(a),
            final(self).plug_contract == old(self).plug_contract,
            final(self).plug_weight_decimals == old(self).plug_weight_decimals,
            final(self).voters(proposal_id) == if old(self).voters(proposal_id).contains(
                final(members).user_id(voter@) as usize,
            ) {
                old(self).voters(proposal_id)
            } else {
                old(self).voters(proposal_id).push(final(members).user_id(voter@) as usize)
            },
            forall|id: u64| id != proposal_id ==> #[trigger] final(self).voters(id) == old(self).voters(id),
    {
        let user_id = members.get_or_create_user(voter);
        let mut voters = match self.plug_votes.take(&proposal_id) {
            Some(v) => v,
            None => Vec::new(),
        };
        let ghost before = voters@;
        let _ = set_insert(&mut voters, user_id);
        proof {
            assert(views(before) =~= before);
            assert(views(voters@) =~= voters@);
        }
        self.plug_votes.insert(proposal_id, voters);
    }

    /// Whether the user with `address` voted on `proposal_id` through the plug.
    pub fn has_user_plug_voted(&self, members: &Members, proposal_id: u64, address: &Vec<u8>) -> (voted: bool)
        requires
            self.wf(),
            members.wf(),
        ensures
            voted == (members.user_id(address@) != 0 && self.voters(proposal_id).contains(
                members.user_id(address@) as usize,
            )),
    {
        let user_id = members.get_user_id(address);
        if user_id == 0 {
            return false;
        }
        match self.plug_votes.get(&proposal_id) {
            Some(v) => {
                let found = set_contains(v, &user_id);
                assert(views(v@) =~= v@);
                found
            },
            None => false,
        }
    }
}

/// The views of the plug, and the query that asks it for a vote weight.
pub trait PlugModule {
    /// The state invariant that every method keeps.
    spec fn wf(&self) -> bool;

    /// Whether the user with `address` voted on `proposal_id` through the plug.
    fn has_user_plug_voted_view(&self, proposal_id: u64, address: &Vec<u8>) -> (voted: bool)
        requires
            self.wf(),
    ;

    /// The plug contract and the decimals of the weights it reports.
    fn get_plug_view(&self) -> (plug: (Vec<u8>, u8));

    /// The query for the caller's vote weight; refused while not plugged.
    fn call_plug_vote_weight_async(&self, ctx: &CallContext) -> (result: Result<PlugVoteWeightQuery, EntityError>);
}

impl PlugModule for EntityContract {
    open spec fn wf(&self) -> bool {
        EntityContract::wf(self)
    }

    fn has_user_plug_voted_view(&self, proposal_id: u64, address: &Vec<u8>) -> (voted: bool)
        ensures
            voted == (self.members.user_id(address@) != 0 && self.plug.voters(proposal_id).contains(
                self.members.user_id(address@) as usize,
            )),
    {
        self.plug.has_user_plug_voted(&self.members, proposal_id, address)
    }

    fn get_plug_view(&self) -> (plug: (Vec<u8>, u8))
        ensures
            plug.0@ == self.plug.plug_contract@,
            plug.1 == self.plug.plug_weight_decimals,
    {
        (copy_bytes(&self.plug.plug_contract), self.plug.plug_weight_decimals)
    }

    fn call_plug_vote_weight_async(&self, ctx: &CallContext) -> (result: Result<PlugVoteWeightQuery, EntityError>)
        ensures
            !self.plug.plugged() ==> result == Err::<PlugVoteWeightQuery, EntityError>(
                EntityError::NotPlugged,
            ),
            self.plug.plugged() ==> (result matches Ok(q) && q.plug_contract@ == self.plug.plug_contract@
                && q.address@ == ctx.caller@ && (if self.config.gov_token_id@.len() == 0 {
                q.token is None
            } else {
                (q.token matches Some(t) && t@ == self.config.gov_token_id@)
            })),
    {
        if !self.plug.is_plugged() {
            return Err(EntityError::NotPlugged);
        }
        let token = if self.config.gov_token_id.len() == 0 {
            None
        } else {
            Some(copy_bytes(&self.config.gov_token_id))
        };
        Ok(
            PlugVoteWeightQuery {
                plug_contract: copy_bytes(&self.plug.plug_contract),
                address: copy_bytes(&ctx.caller),
                token,
            },
        )
    }
}

} // verus!
