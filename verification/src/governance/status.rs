use vstd::prelude::*;

use crate::governance::proposal::{
    does_permission_apply_to_action, get_signer_majority_for_role, has_sufficient_votes,
    is_proposal_active, lemma_half_in_percent, permission_applies, signer_majority, sufficient_votes, Action, ActionView,
    Proposal, ProposalStatus, ProposalView,
};
use crate::permission::{leader_role, role_builtin_leader, Policy, PolicyMethod};
use crate::store::{bytes_eq, copy_bytes, lemma_entries_map_at, set_contains, views};
use crate::EntityContract;

verus! {

impl EntityContract {
    pub open spec fn leaderless(&self) -> bool {
        self.members.member_amount(leader_role()) == 0
    }

    /// More than half of the members of `role` signed proposal `id`.
    pub open spec fn signer_majority_reached(&self, id: u64, role: Seq<u8>) -> bool {
        self.governance.signers(id, role).len() >= signer_majority(self.members.member_amount(role))
    }

    /// Whether `role` fulfils its policy for `permission` on proposal `p`,
    /// and whether that policy weighs votes by tokens. A role without a
    /// policy for the permission needs a majority of its members to sign.
    pub open spec fn role_fulfills(&self, p: ProposalView, role: Seq<u8>, permission: Seq<u8>) -> (bool, bool) {
        match self.members.policy_of(role, permission) {
            Some(policy) => match policy.method {
                PolicyMethod::Weight => (
                    sufficient_votes(p.votes_for as nat, p.votes_against as nat, policy.quorum as nat),
                    true,
                ),
                PolicyMethod::One => (
                    self.governance.signers(p.id, role).contains(
                        self.members.user_id(p.proposer) as usize,
                    ),
                    false,
                ),
                PolicyMethod::All => (
                    self.governance.signers(p.id, role).len() >= self.members.member_amount(role),
                    false,
                ),
                PolicyMethod::Quorum => (
                    self.governance.signers(p.id, role).len() >= policy.quorum,
                    false,
                ),
            },
            None => (self.signer_majority_reached(p.id, role), false),
        }
    }

    /// The roles in order fulfil `permission`; the check stops at the first
    /// role that does not. The second part tells whether a token weighted
    /// policy was met on the way.
    pub open spec fn roles_fulfill(&self, p: ProposalView, roles: Seq<Seq<u8>>, permission: Seq<u8>) -> (bool, bool)
        decreases roles.len(),
    {
        if roles.len() == 0 {
            (true, false)
        } else {
            let before = self.roles_fulfill(p, roles.drop_last(), permission);
            if !before.0 {
                before
            } else {
                let last = self.role_fulfills(p, roles.last(), permission);
                (last.0, before.1 || last.1)
            }
        }
    }

    /// Every permission in `perms` is fulfilled by the roles.
    pub open spec fn permissions_fulfilled(&self, p: ProposalView, roles: Seq<Seq<u8>>, perms: Seq<Seq<u8>>) -> (bool, bool)
        decreases perms.len(),
    {
        if perms.len() == 0 {
            (true, false)
        } else {
            let before = self.permissions_fulfilled(p, roles, perms.drop_last());
            let last = self.roles_fulfill(p, roles, perms.last());
            (before.0 && last.0, before.1 || last.1)
        }
    }

    /// Each of the roles has a signer majority on proposal `id`.
    pub open spec fn majority_of_each_role(&self, id: u64, roles: Seq<Seq<u8>>) -> bool {
        forall|i: int| 0 <= i < roles.len() ==> self.signer_majority_reached(id, #[trigger] roles[i])
    }

    /// Whether the proposer's roles fulfil what proposal `p` announces, and
    /// whether a token weighted policy takes part. Without announced
    /// permissions each role of the proposer needs a signer majority.
    pub open spec fn fulfilled_permissions(&self, p: ProposalView) -> (bool, bool) {
        let roles = self.members.roles_of(p.proposer);
        if p.permissions.len() == 0 {
            (self.majority_of_each_role(p.id, roles), false)
        } else {
            self.permissions_fulfilled(p, roles, p.permissions)
        }
    }

    /// The status of proposal `p` at time `now`.
    pub open spec fn proposal_status(&self, p: ProposalView, now: u64) -> ProposalStatus {
        if p.was_executed {
            ProposalStatus::Executed
        } else {
            let has_gov_token = self.config.has_gov_token();
            let has_actions = p.actions_hash.len() > 0 || p.permissions.len() > 0;
            let leaderless = self.leaderless();
            let fulfilled = if !leaderless && has_actions {
                self.fulfilled_permissions(p)
            } else {
                (false, false)
            };
            if fulfilled.0 && !fulfilled.1 {
                ProposalStatus::Succeeded
            } else if p.starts_at <= now < p.ends_at {
                ProposalStatus::Active
            } else if (leaderless || !has_actions) && (has_gov_token || self.plug.plugged()) {
                if sufficient_votes(p.votes_for as nat, p.votes_against as nat, self.config.quorum as nat) {
                    ProposalStatus::Succeeded
                } else {
                    ProposalStatus::Defeated
                }
            } else if fulfilled.0 {
                ProposalStatus::Succeeded
            } else {
                ProposalStatus::Defeated
            }
        }
    }

    pub fn has_signer_majority_for_role(&self, proposal_id: u64, role: &Vec<u8>) -> (reached: bool)
        requires
            self.wf(),
        ensures
            reached == self.signer_majority_reached(proposal_id, role@),
    {
        self.governance.signer_count(proposal_id, role) >= get_signer_majority_for_role(
            self.members.member_amount_of(role),
        )
    }

    fn role_fulfills_policy(&self, proposal: &Proposal, proposer_id: usize, role: &Vec<u8>, permission: &Vec<u8>) -> (result: (bool, bool))
        requires
            self.wf(),
            proposer_id == self.members.user_id(proposal.proposer@),
        ensures
            result == self.role_fulfills(proposal@, role@, permission@),
    {
        match self.members.get_policy(role, permission) {
            Some(policy) => match policy.method {
                PolicyMethod::Weight => (has_sufficient_votes(proposal, policy.quorum), true),
                PolicyMethod::One => (self.governance.has_signed(proposal.id, role, proposer_id), false),
                PolicyMethod::All => (
                    self.governance.signer_count(proposal.id, role) >= self.members.member_amount_of(role),
                    false,
                ),
                PolicyMethod::Quorum => (
                    self.governance.signer_count(proposal.id, role) as u128 >= policy.quorum,
                    false,
                ),
            },
            None => (self.has_signer_majority_for_role(proposal.id, role), false),
        }
    }

    /// Whether the proposer's roles fulfil the permissions that the proposal
    /// announces, and whether a token weighted policy takes part.
    pub fn has_fulfilled_permissions(&self, proposal: &Proposal) -> (result: (bool, bool))
        requires
            self.wf(),
        ensures
            result == self.fulfilled_permissions(proposal@),
    {
        let proposer_id = self.members.get_user_id(&proposal.proposer);
        let roles = self.members.get_user_roles(&proposal.proposer);
        let ghost rs = views(roles@);
        if proposal.permissions.len() == 0 {
            let mut i: usize = 0;
            while i < roles.len()
                invariant
                    self.wf(),
                    rs == views(roles@),
                    rs == self.members.roles_of(proposal.proposer@),
                    proposal.permissions@.len() == 0,
                    i <= rs.len(),
                    forall|j: int| 0 <= j < i ==> self.signer_majority_reached(proposal.id, #[trigger] rs[j]),
                decreases rs.len() - i,
            {
                if !self.has_signer_majority_for_role(proposal.id, &roles[i]) {
                    proof {
                        assert(rs[i as int] == roles@[i as int]@);
                        assert(proposal@.permissions.len() == 0);
                        assert(!self.signer_majority_reached(proposal@.id, rs[i as int]));
                        assert(!self.majority_of_each_role(proposal.id, rs));
                    }
                    return (false, false);
                }
                assert(rs[i as int] == roles@[i as int]@);
                i = i + 1;
            }
            return (true, false);
        }
        let ghost perms = views(proposal.permissions@);
        let mut fulfilled_all = true;
        let mut weighted = false;
        let mut k: usize = 0;
        while k < proposal.permissions.len()
            invariant
                self.wf(),
                rs == views(roles@),
                rs == self.members.roles_of(proposal.proposer@),
                proposer_id == self.members.user_id(proposal.proposer@),
                perms == views(proposal.permissions@),
                k <= perms.len(),
                (fulfilled_all, weighted) == self.permissions_fulfilled(proposal@, rs, perms.take(k as int)),
            decreases perms.len() - k,
        {
            let permission = &proposal.permissions[k];
            let mut ok = true;
            let mut w = false;
            let mut i: usize = 0;
            while i < roles.len()
                invariant
                    self.wf(),
                    rs == views(roles@),
                    proposer_id == self.members.user_id(proposal.proposer@),
                    i <= rs.len(),
                    (ok, w) == self.roles_fulfill(proposal@, rs.take(i as int), permission@),
                decreases rs.len() - i,
            {
                proof {
                    assert(rs.take(i as int + 1).drop_last() =~= rs.take(i as int));
                    assert(rs.take(i as int + 1).last() == roles@[i as int]@);
                }
                if ok {
                    let (f, w1) = self.role_fulfills_policy(proposal, proposer_id, &roles[i], permission);
                    ok = f;
                    w = w || w1;
                }
                i = i + 1;
            }
            proof {
                assert(rs.take(rs.len() as int) =~= rs);
                assert(perms.take(k as int + 1).drop_last() =~= perms.take(k as int));
                assert(perms.take(k as int + 1).last() == permission@);
            }
            if !ok {
                fulfilled_all = false;
            }
            weighted = weighted || w;
            k = k + 1;
        }
        proof {
            assert(perms.take(perms.len() as int) =~= perms);
        }
        (fulfilled_all, weighted)
    }

    /// The status of `proposal` at time `now`.
    pub fn get_proposal_status(&self, proposal: &Proposal, now: u64) -> (status: ProposalStatus)
        requires
            self.wf(),
        ensures
            status == self.proposal_status(proposal@, now),
    {
        if proposal.was_executed {
            return ProposalStatus::Executed;
        }
        let has_gov_token = self.config.gov_token_id.len() != 0;
        let has_actions = proposal.actions_hash.len() != 0 || proposal.permissions.len() != 0;
        let is_leaderless = self.members.is_leaderless();
        let (has_permission, has_token_weighted_policy) = if !is_leaderless && has_actions {
            self.has_fulfilled_permissions(proposal)
        } else {
            (false, false)
        };
        if has_permission && !has_token_weighted_policy {
            return ProposalStatus::Succeeded;
        }
        if is_proposal_active(proposal, now) {
            return ProposalStatus::Active;
        }
        if (is_leaderless || !has_actions) && (has_gov_token || self.plug.is_plugged()) {
            return if has_sufficient_votes(proposal, self.config.quorum) {
                ProposalStatus::Succeeded
            } else {
                ProposalStatus::Defeated
            };
        }
        if has_permission {
            return ProposalStatus::Succeeded;
        }
        ProposalStatus::Defeated
    }

    /// One policy of a role considered for an action: a permission not yet
    /// applied that covers the action is applied, and then the action is
    /// permitted with approval or when the policy lets one member decide.
    pub open spec fn policy_step(
        &self,
        state: (Seq<Seq<u8>>, bool),
        entry: (Vec<u8>, Policy),
        action: ActionView,
        has_approval: bool,
    ) -> (Seq<Seq<u8>>, bool) {
        let perm = entry.0@;
        if state.0.contains(perm) {
            state
        } else if permission_applies(self.members.permission_details.map()[perm]@, action) {
            (state.0.push(perm), has_approval || entry.1.method == PolicyMethod::One)
        } else {
            state
        }
    }

    pub open spec fn scan_policies(
        &self,
        entries: Seq<(Vec<u8>, Policy)>,
        action: ActionView,
        has_approval: bool,
        state: (Seq<Seq<u8>>, bool),
    ) -> (Seq<Seq<u8>>, bool)
        decreases entries.len(),
    {
        if entries.len() == 0 {
            state
        } else {
            self.policy_step(
                self.scan_policies(entries.drop_last(), action, has_approval, state),
                entries.last(),
                action,
                has_approval,
            )
        }
    }

    /// The policies of one role considered for an action; the only leader
    /// may do anything.
    pub open spec fn role_step(
        &self,
        state: (Seq<Seq<u8>>, bool),
        role: Seq<u8>,
        action: ActionView,
        has_approval: bool,
    ) -> (Seq<Seq<u8>>, bool) {
        let after = self.scan_policies(self.members.policy_entries(role), action, has_approval, state);
        if role == leader_role() && self.members.member_amount(leader_role()) == 1 {
            (after.0, true)
        } else {
            after
        }
    }

    pub open spec fn scan_roles(
        &self,
        roles: Seq<Seq<u8>>,
        action: ActionView,
        has_approval: bool,
        state: (Seq<Seq<u8>>, bool),
    ) -> (Seq<Seq<u8>>, bool)
        decreases roles.len(),
    {
        if roles.len() == 0 {
            state
        } else {
            self.role_step(
                self.scan_roles(roles.drop_last(), action, has_approval, state),
                roles.last(),
                action,
                has_approval,
            )
        }
    }

    /// The permissions applied after one action and whether the action is
    /// permitted: without a sole leader, an approved action always is.
    pub open spec fn action_permissions(
        &self,
        roles: Seq<Seq<u8>>,
        action: ActionView,
        has_approval: bool,
        applied: Seq<Seq<u8>>,
    ) -> (Seq<Seq<u8>>, bool) {
        let after = self.scan_roles(roles, action, has_approval, (applied, false));
        let leaders = self.members.member_amount(leader_role());
        if (leaders == 0 || leaders > 1) && has_approval {
            (after.0, true)
        } else {
            after
        }
    }

    /// Whether all actions are permitted to a holder of `roles`, and the
    /// permissions applied to them, in the order they were applied; the scan
    /// stops at the first action that is not permitted.
    pub open spec fn permissions_for_actions(
        &self,
        roles: Seq<Seq<u8>>,
        actions: Seq<ActionView>,
        has_approval: bool,
    ) -> (bool, Seq<Seq<u8>>)
        decreases actions.len(),
    {
        if actions.len() == 0 {
            (true, Seq::empty())
        } else {
            let before = self.permissions_for_actions(roles, actions.drop_last(), has_approval);
            if !before.0 {
                before
            } else {
                let step = self.action_permissions(roles, actions.last(), has_approval, before.1);
                (step.1, step.0)
            }
        }
    }

    /// Whether the user with `address` may perform `actions`, and the
    /// permissions that apply to them.
    pub fn get_user_permissions_for_actions(
        &self,
        address: &Vec<u8>,
        actions: &Vec<Action>,
        has_approval: bool,
    ) -> (result: (bool, Vec<Vec<u8>>))
        requires
            self.wf(),
        ensures
            result.0 == self.permissions_for_actions(
                self.members.roles_of(address@),
                views(actions@),
                has_approval,
            ).0,
            views(result.1@) == self.permissions_for_actions(
                self.members.roles_of(address@),
                views(actions@),
                has_approval,
            ).1,
    {
        let roles = self.members.get_user_roles(address);
        let ghost rs = views(roles@);
        let ghost acts = views(actions@);
        let leader = role_builtin_leader();
        let leader_count = self.members.member_amount_of(&leader);
        let mut applied: Vec<Vec<u8>> = Vec::new();
        let mut a: usize = 0;
        while a < actions.len()
            invariant
                self.wf(),
                rs == views(roles@),
                rs == self.members.roles_of(address@),
                acts == views(actions@),
                leader@ == leader_role(),
                leader_count == self.members.member_amount(leader_role()),
                a <= acts.len(),
                self.permissions_for_actions(rs, acts.take(a as int), has_approval).0,
                views(applied@) == self.permissions_for_actions(rs, acts.take(a as int), has_approval).1,
            decreases acts.len() - a,
        {
            let action = &actions[a];
            let ghost at_action = views(applied@);
            let mut permitted = false;
            let mut r: usize = 0;
            while r < roles.len()
                invariant
                    self.wf(),
                    rs == views(roles@),
                    leader@ == leader_role(),
                    leader_count == self.members.member_amount(leader_role()),
                    r <= rs.len(),
                    (views(applied@), permitted) == self.scan_roles(rs.take(r as int), action@, has_approval, (at_action, false)),
                decreases rs.len() - r,
            {
                let role = &roles[r];
                let ghost at_role = (views(applied@), permitted);
                let empty: Vec<(Vec<u8>, Policy)> = Vec::new();
                let entries = match self.members.policies.get(role) {
                    Some(st) => &st.entries,
                    None => &empty,
                };
                proof {
                    assert(entries@ == self.members.policy_entries(role@));
                }
                let mut e: usize = 0;
                while e < entries.len()
                    invariant
                        self.wf(),
                        entries@ == self.members.policy_entries(role@),
                        e <= entries@.len(),
                        (views(applied@), permitted) == self.scan_policies(entries@.take(e as int), action@, has_approval, at_role),
                    decreases entries@.len() - e,
                {
                    let entry = &entries[e];
                    proof {
                        assert(entries@.take(e as int + 1).drop_last() =~= entries@.take(e as int));
                        assert(entries@.take(e as int + 1).last() == *entry);
                        let st = self.members.policies.map()[role@];
                        assert(st.wf());
                        lemma_entries_map_at(st.entries@, e as int);
                        assert(self.members.policy_of(role@, entry.0@) is Some);
                        assert(self.members.permission_exists(entry.0@));
                    }
                    if !set_contains(&applied, &entry.0) {
                        match self.members.permission_details.get(&entry.0) {
                            Some(details) => {
                                if does_permission_apply_to_action(details, action) {
                                    let ghost before = views(applied@);
                                    applied.push(copy_bytes(&entry.0));
                                    permitted = has_approval || entry.1.method == PolicyMethod::One;
                                    assert(views(applied@) =~= before.push(entry.0@));
                                }
                            },
                            None => {},
                        }
                    }
                    e = e + 1;
                }
                proof {
                    assert(entries@.take(entries@.len() as int) =~= entries@);
                    assert(rs.take(r as int + 1).drop_last() =~= rs.take(r as int));
                    assert(rs.take(r as int + 1).last() == role@);
                }
                if bytes_eq(role, &leader) && leader_count == 1 {
                    permitted = true;
                }
                r = r + 1;
            }
            proof {
                assert(rs.take(rs.len() as int) =~= rs);
                assert(acts.take(a as int + 1).drop_last() =~= acts.take(a as int));
                assert(acts.take(a as int + 1).last() == action@);
            }
            if (leader_count == 0 || leader_count > 1) && has_approval {
                permitted = true;
            }
            if !permitted {
                proof {
                    assert(acts.take(acts.len() as int) =~= acts);
                    lemma_stopped_stays(self, rs, acts, has_approval, a as int + 1);
                }
                return (false, applied);
            }
            a = a + 1;
        }
        proof {
            assert(acts.take(acts.len() as int) =~= acts);
        }
        (true, applied)
    }

    /// The permissions that actually apply when the proposer of `proposal`
    /// performs `actions` with approval.
    pub fn get_actual_permissions(&self, proposal: &Proposal, actions: &Vec<Action>) -> (permissions: Vec<Vec<u8>>)
        requires
            self.wf(),
        ensures
            views(permissions@) == self.permissions_for_actions(
                self.members.roles_of(proposal.proposer@),
                views(actions@),
                true,
            ).1,
    {
        let (_, permissions) = self.get_user_permissions_for_actions(&proposal.proposer, actions, true);
        permissions
    }
}

/// Once an action is refused the scan result stays as it was.
pub proof fn lemma_stopped_stays(
    entity: &EntityContract,
    roles: Seq<Seq<u8>>,
    actions: Seq<ActionView>,
    has_approval: bool,
    n: int,
)
    requires
        0 <= n <= actions.len(),
        !entity.permissions_for_actions(roles, actions.take(n), has_approval).0,
    ensures
        entity.permissions_for_actions(roles, actions, has_approval) == entity.permissions_for_actions(
            roles,
            actions.take(n),
            has_approval,
        ),
    decreases actions.len() - n,
{
    if n < actions.len() {
        assert(actions.take(n + 1).drop_last() =~= actions.take(n));
        lemma_stopped_stays(entity, roles, actions, has_approval, n + 1);
    } else {
        assert(actions.take(n) =~= actions);
    }
}

/// The status of a proposal depends only on the members, the signatures,
/// the governance token, the quorum and the plug.
pub proof fn lemma_status_same(a: &EntityContract, b: &EntityContract, p: ProposalView, now: u64)
    requires
        a.members == b.members,
        a.governance.proposal_signers == b.governance.proposal_signers,
        a.config.gov_token_id == b.config.gov_token_id,
        a.config.quorum == b.config.quorum,
        a.plug.plug_contract == b.plug.plug_contract,
    ensures
        a.proposal_status(p, now) == b.proposal_status(p, now),
{
    let roles = a.members.roles_of(p.proposer);
    assert(a.majority_of_each_role(p.id, roles) == b.majority_of_each_role(p.id, roles)) by {
        assert forall|i: int| 0 <= i < roles.len() implies a.signer_majority_reached(p.id, #[trigger] roles[i]) == b.signer_majority_reached(p.id, roles[i]) by {
            assert(a.governance.signers(p.id, roles[i]) == b.governance.signers(p.id, roles[i]));
        }
    }
    lemma_permissions_fulfilled_same(a, b, p, roles, p.permissions);
}

pub proof fn lemma_roles_fulfill_same(a: &EntityContract, b: &EntityContract, p: ProposalView, roles: Seq<Seq<u8>>, permission: Seq<u8>)
    requires
        a.members == b.members,
        a.governance.proposal_signers == b.governance.proposal_signers,
    ensures
        a.roles_fulfill(p, roles, permission) == b.roles_fulfill(p, roles, permission),
    decreases roles.len(),
{
    if roles.len() > 0 {
        lemma_roles_fulfill_same(a, b, p, roles.drop_last(), permission);
        assert(a.governance.signers(p.id, roles.last()) == b.governance.signers(p.id, roles.last()));
        assert(a.role_fulfills(p, roles.last(), permission) == b.role_fulfills(p, roles.last(), permission));
    }
}

pub proof fn lemma_permissions_fulfilled_same(a: &EntityContract, b: &EntityContract, p: ProposalView, roles: Seq<Seq<u8>>, perms: Seq<Seq<u8>>)
    requires
        a.members == b.members,
        a.governance.proposal_signers == b.governance.proposal_signers,
    ensures
        a.permissions_fulfilled(p, roles, perms) == b.permissions_fulfilled(p, roles, perms),
    decreases perms.len(),
{
    if perms.len() > 0 {
        lemma_permissions_fulfilled_same(a, b, p, roles, perms.drop_last());
        lemma_roles_fulfill_same(a, b, p, roles, perms.last());
    }
}

/// A role that fulfils its policy still does with more votes in favour, and
/// whether the policy weighs tokens does not depend on the votes.
pub proof fn lemma_role_fulfills_more_for(e: &EntityContract, p: ProposalView, q: ProposalView, role: Seq<u8>, permission: Seq<u8>)
    requires
        q == (ProposalView { votes_for: q.votes_for, ..p }),
        q.votes_for >= p.votes_for,
    ensures
        e.role_fulfills(p, role, permission).0 ==> e.role_fulfills(q, role, permission).0,
        e.role_fulfills(p, role, permission).1 == e.role_fulfills(q, role, permission).1,
{
    match e.members.policy_of(role, permission) {
        Some(policy) => {
            if policy.method == PolicyMethod::Weight && e.role_fulfills(p, role, permission).0 {
                lemma_half_in_percent(p.votes_for as nat, p.votes_against as nat);
                lemma_half_in_percent(q.votes_for as nat, q.votes_against as nat);
            }
        },
        None => {},
    }
}

pub proof fn lemma_roles_fulfill_more_for(e: &EntityContract, p: ProposalView, q: ProposalView, roles: Seq<Seq<u8>>, permission: Seq<u8>)
    requires
        q == (ProposalView { votes_for: q.votes_for, ..p }),
        q.votes_for >= p.votes_for,
    ensures
        e.roles_fulfill(p, roles, permission).0 ==> e.roles_fulfill(q, roles, permission) == e.roles_fulfill(p, roles, permission),
    decreases roles.len(),
{
    if roles.len() > 0 {
        lemma_roles_fulfill_more_for(e, p, q, roles.drop_last(), permission);
        lemma_role_fulfills_more_for(e, p, q, roles.last(), permission);
    }
}

pub proof fn lemma_permissions_fulfilled_more_for(e: &EntityContract, p: ProposalView, q: ProposalView, roles: Seq<Seq<u8>>, perms: Seq<Seq<u8>>)
    requires
        q == (ProposalView { votes_for: q.votes_for, ..p }),
        q.votes_for >= p.votes_for,
    ensures
        e.permissions_fulfilled(p, roles, perms).0 ==> e.permissions_fulfilled(q, roles, perms) == e.permissions_fulfilled(p, roles, perms),
    decreases perms.len(),
{
    if perms.len() > 0 {
        lemma_permissions_fulfilled_more_for(e, p, q, roles, perms.drop_last());
        lemma_roles_fulfill_more_for(e, p, q, roles, perms.last());
    }
}

} // verus!
