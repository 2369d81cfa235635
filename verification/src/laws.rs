use vstd::prelude::*;

use crate::governance::deposits::{amount_for, deposit_sum, lemma_amount_for_concat};
use crate::governance::execution::{action_call, balance_of, executed_calls, flat_payments, sat_sub, ActionCallView};
use crate::crypto::keccak256_of;
use crate::governance::proposal::{
    action_bytes, actions_bytes, arguments_prefix, decimal, signer_majority, lemma_half_in_percent, payment_within, permission_applies,
    sufficient_votes, ActionView, ProposalStatus, ProposalView,
};
use crate::governance::status::lemma_permissions_fulfilled_more_for;
use crate::permission::PermissionDetailsView;
use crate::permission::{holders, leader_role, Members, Policy, PolicyMethod};
use crate::errors::EntityError;
use crate::EntityContract;

verus! {

/// The member amount of a role is the number of users that hold it: each
/// user counts once, however often the role was assigned.
pub proof fn law_member_amount_counts_holders(members: Members, role: Seq<u8>)
    requires
        members.wf(),
    ensures
        members.member_amount(role) == holders(members.user_roles_view(), role),
{
}

/// The guarded amount of each token and nonce is exactly what voters have
/// deposited and can still withdraw.
pub proof fn law_guarded_matches_deposits(entity: EntityContract, token: Seq<u8>, nonce: u64)
    requires
        entity.wf(),
    ensures
        entity.config.guarded(token, nonce) == deposit_sum(
            entity.governance.withdrawable_votes.entries@,
            token,
            nonce,
        ),
{
}

/// Each NFT nonce counts at most once among the votes on a proposal.
pub proof fn law_nft_votes_count_once(entity: EntityContract, proposal_id: u64)
    requires
        entity.wf(),
    ensures
        entity.governance.nft_votes(proposal_id).no_duplicates(),
{
    if entity.governance.proposal_nft_votes.map().contains_key(proposal_id) {
        assert(entity.governance.proposal_nft_votes.map()[proposal_id]@.no_duplicates());
    }
}

/// Each member's signature on a proposal counts once per role.
pub proof fn law_signatures_count_once(entity: EntityContract, proposal_id: u64, role: Seq<u8>)
    requires
        entity.wf(),
    ensures
        entity.governance.signers(proposal_id, role).no_duplicates(),
{
    if entity.governance.proposal_signers.map().contains_key((proposal_id, role)) {
        assert(entity.governance.proposal_signers.map()[(proposal_id, role)]@.no_duplicates());
    }
}

/// Every stored proposal is stored under its own id, below the next id to
/// be given.
pub proof fn law_proposal_stored_under_its_id(entity: EntityContract, proposal_id: u64)
    requires
        entity.wf(),
        entity.governance.has_proposal(proposal_id),
    ensures
        entity.governance.proposal(proposal_id).id == proposal_id,
        proposal_id < entity.governance.next_proposal_id,
{
}

/// Votes pass exactly when some vote was cast, the votes for are at least
/// the votes against, and they reach the quorum.
pub proof fn law_votes_pass_by_majority(votes_for: nat, votes_against: nat, quorum: nat)
    ensures
        sufficient_votes(votes_for, votes_against, quorum) <==> (votes_for + votes_against > 0
            && votes_for >= votes_against && votes_for >= quorum),
{
    if votes_for + votes_against > 0 {
        lemma_half_in_percent(votes_for, votes_against);
    }
}

/// An executed proposal keeps the status Executed at any time.
pub proof fn law_executed_stays_executed(entity: EntityContract, proposal: ProposalView, now: u64)
    requires
        proposal.was_executed,
    ensures
        entity.proposal_status(proposal, now) == ProposalStatus::Executed,
{
}

/// An executed proposal is never executed again: with the actions it was
/// proposed with, it is refused as not executable.
pub proof fn law_no_second_execution(
    entity: EntityContract,
    now: u64,
    proposal_id: u64,
    actions: Seq<ActionView>,
    balances: Map<u64, u128>,
)
    requires
        entity.governance.has_proposal(proposal_id),
        entity.governance.proposal(proposal_id).was_executed,
    ensures
        entity.execute_refusal(now, proposal_id, actions, balances) is Some,
        actions.len() > 0 && entity.governance.proposal(proposal_id).actions_hash == keccak256_of(actions_bytes(actions))
            ==> entity.execute_refusal(now, proposal_id, actions, balances) == Some(EntityError::ProposalNotExecutable),
{
}

/// A trusted host id admits one proposal: once known, every proposal that
/// names it again is refused.
pub proof fn law_trusted_host_id_admits_one_proposal(
    entity: EntityContract,
    sc_address: Seq<u8>,
    now: u64,
    proposer: Seq<u8>,
    trusted_host_id: Seq<u8>,
    content_hash: Seq<u8>,
    content_sig: Seq<u8>,
    actions_hash: Seq<u8>,
    vote_weight: u128,
    permissions: Seq<Seq<u8>>,
)
    requires
        entity.governance.is_known_trusted_host_id(trusted_host_id),
    ensures
        entity.proposal_refusal(
            sc_address,
            now,
            proposer,
            trusted_host_id,
            content_hash,
            content_sig,
            actions_hash,
            vote_weight,
            permissions,
        ) is Some,
{
}

/// Without a sole leader, approved actions are always permitted, whatever
/// the roles of the proposer.
pub proof fn law_approved_actions_permitted_without_sole_leader(
    entity: EntityContract,
    roles: Seq<Seq<u8>>,
    actions: Seq<ActionView>,
)
    requires
        entity.members.member_amount(leader_role()) != 1,
    ensures
        entity.permissions_for_actions(roles, actions, true).0,
    decreases actions.len(),
{
    if actions.len() > 0 {
        law_approved_actions_permitted_without_sole_leader(entity, roles, actions.drop_last());
    }
}

/// Only an existing proposal that has succeeded executes, and only with
/// actions.
pub proof fn law_only_succeeded_proposals_execute(
    entity: EntityContract,
    now: u64,
    proposal_id: u64,
    actions: Seq<ActionView>,
    balances: Map<u64, u128>,
)
    requires
        entity.execute_refusal(now, proposal_id, actions, balances) is None,
    ensures
        entity.governance.has_proposal(proposal_id),
        entity.proposal_status(entity.governance.proposal(proposal_id), now)
            == ProposalStatus::Succeeded,
        actions.len() > 0,
{
}

/// More votes in favour never undo the success of a proposal.
pub proof fn law_more_votes_for_keep_success(entity: EntityContract, p: ProposalView, votes_for: u128, now: u64)
    requires
        votes_for >= p.votes_for,
        entity.proposal_status(p, now) == ProposalStatus::Succeeded,
    ensures
        entity.proposal_status(ProposalView { votes_for, ..p }, now) == ProposalStatus::Succeeded,
{
    let q = ProposalView { votes_for, ..p };
    lemma_permissions_fulfilled_more_for(&entity, p, q, entity.members.roles_of(p.proposer), p.permissions);
    if sufficient_votes(p.votes_for as nat, p.votes_against as nat, entity.config.quorum as nat) {
        lemma_half_in_percent(p.votes_for as nat, p.votes_against as nat);
        lemma_half_in_percent(q.votes_for as nat, q.votes_against as nat);
    }
}

/// A permission that covers an action still covers it with more arguments
/// appended and with lower amounts of the same payments.
pub proof fn law_permission_covers_longer_arguments_and_lower_payments(
    d: PermissionDetailsView,
    a: ActionView,
    b: ActionView,
    extra: Seq<Seq<u8>>,
)
    requires
        permission_applies(d, a),
        b.destination == a.destination,
        b.endpoint == a.endpoint,
        b.value == a.value,
        b.arguments == a.arguments + extra,
        b.payments.len() == a.payments.len(),
        forall|i: int| 0 <= i < a.payments.len() ==> (#[trigger] b.payments[i]).0 == a.payments[i].0
            && b.payments[i].1 == a.payments[i].1 && b.payments[i].2 <= a.payments[i].2,
    ensures
        permission_applies(d, b),
{
    if d.arguments.len() > 0 {
        assert(arguments_prefix(d.arguments, b.arguments)) by {
            assert forall|i: int| 0 <= i < d.arguments.len() implies b.arguments[i] == d.arguments[i] by {
                assert(b.arguments[i] == a.arguments[i]);
            }
        }
    }
    if d.payments.len() > 0 {
        assert forall|i: int| 0 <= i < b.payments.len() implies payment_within(d.payments, #[trigger] b.payments[i]) by {
            assert(payment_within(d.payments, a.payments[i]));
            let k = choose|k: int|
                0 <= k < d.payments.len() && d.payments[k].0 == a.payments[i].0 && (forall|j: int|
                    0 <= j < k ==> d.payments[j].0 != a.payments[i].0) && a.payments[i].2 <= d.payments[k].2;
            assert(d.payments[k].0 == b.payments[i].0);
        }
    }
}

/// A role's signer majority is more than half of its members and, for a
/// role with members, no more than all of them.
pub proof fn law_signer_majority_is_more_than_half(members: nat)
    ensures
        2 * signer_majority(members) > members,
        members >= 1 ==> signer_majority(members) <= members,
{
}

/// A proposal has the signer majority of a role exactly when more than half
/// of the role's members signed it.
pub proof fn law_signer_majority_means_more_than_half_signed(entity: EntityContract, id: u64, role: Seq<u8>)
    ensures
        entity.signer_majority_reached(id, role) <==> 2 * entity.governance.signers(id, role).len()
            > entity.members.member_amount(role),
{
}

/// A permission with a value cap never applies to an action that sends more
/// EGLD than the cap.
pub proof fn law_permission_value_caps_the_action(d: PermissionDetailsView, a: ActionView)
    requires
        d.value != 0,
        a.value > d.value,
    ensures
        !permission_applies(d, a),
{
}

/// A permission that names a destination, or an endpoint, never applies to
/// an action with another one.
pub proof fn law_permission_names_destination_and_endpoint(d: PermissionDetailsView, a: ActionView)
    ensures
        !crate::governance::proposal::is_zero_address(d.destination) && a.destination != d.destination
            ==> !permission_applies(d, a),
        d.endpoint.len() != 0 && a.endpoint != d.endpoint ==> !permission_applies(d, a),
{
}

/// The decimal digits of a number have one digit exactly when the number
/// is below ten.
proof fn lemma_decimal_len(n: nat)
    ensures
        decimal(n).len() >= 1,
        decimal(n).len() == 1 <==> n < 10,
    decreases n,
{
    if n >= 10 {
        lemma_decimal_len(n / 10);
    }
}

/// Different numbers have different decimal digits.
proof fn lemma_decimal_injective(m: nat, n: nat)
    requires
        decimal(m) == decimal(n),
    ensures
        m == n,
    decreases m,
{
    lemma_decimal_len(m);
    lemma_decimal_len(n);
    if m < 10 {
        assert(n < 10);
        assert(decimal(m)[0] == (48 + m) as u8);
        assert(decimal(n)[0] == (48 + n) as u8);
        assert(decimal(m)[0] == decimal(n)[0]);
        assert(48 + m == 48 + n);
    } else {
        assert(n >= 10);
        let dm = decimal(m);
        let dn = decimal(n);
        assert(dm =~= decimal(m / 10).push((48 + m % 10) as u8));
        assert(dn =~= decimal(n / 10).push((48 + n % 10) as u8));
        assert(dm.last() == dn.last());
        assert((48 + m % 10) as u8 == (48 + n % 10) as u8);
        assert(m % 10 == n % 10);
        assert(decimal(m / 10) =~= dm.drop_last());
        assert(decimal(n / 10) =~= dn.drop_last());
        lemma_decimal_injective(m / 10, n / 10);
        assert(m == 10 * (m / 10) + m % 10);
        assert(n == 10 * (n / 10) + n % 10);
    }
}

/// A single action serializes to its own bytes.
proof fn lemma_one_action_bytes(a: ActionView)
    ensures
        actions_bytes(seq![a]) == action_bytes(a),
{
    let parts = crate::governance::proposal::action_parts(seq![a]);
    assert(parts =~= seq![action_bytes(a)]);
    assert(parts.drop_last() =~= Seq::<Seq<u8>>::empty());
    assert(crate::governance::proposal::concat(parts.drop_last()) =~= Seq::<u8>::empty());
    assert(crate::governance::proposal::concat(parts) =~= crate::governance::proposal::concat(parts.drop_last()) + parts.last());
}

/// Actions that differ only in the EGLD value they send serialize to
/// different bytes: the actions hash commits to the value.
pub proof fn law_action_bytes_commit_to_value(a: ActionView, b: ActionView)
    requires
        a.destination == b.destination,
        a.endpoint == b.endpoint,
        a.payments == b.payments,
        a.arguments == b.arguments,
        a.gas_limit == b.gas_limit,
        a.value != b.value,
    ensures
        action_bytes(a) != action_bytes(b),
        actions_bytes(seq![a]) != actions_bytes(seq![b]),
{
    let head = a.destination + a.endpoint;
    let da = decimal(a.value as nat);
    let db = decimal(b.value as nat);
    let tail = crate::governance::proposal::concat(crate::governance::proposal::payment_parts(a.payments))
        + crate::governance::proposal::concat(a.arguments);
    assert(action_bytes(a) =~= head + da + tail);
    assert(action_bytes(b) =~= head + db + tail);
    if action_bytes(a) == action_bytes(b) {
        assert(da.len() == db.len());
        assert((head + da + tail).subrange(head.len() as int, (head.len() + da.len()) as int) =~= da);
        assert((head + db + tail).subrange(head.len() as int, (head.len() + db.len()) as int) =~= db);
        lemma_decimal_injective(a.value as nat, b.value as nat);
    }
    lemma_one_action_bytes(a);
    lemma_one_action_bytes(b);
}

/// The policy a role has for a permission is among the role's policies for
/// any list of permissions that names it.
proof fn lemma_role_policy_listed(members: Members, role: Seq<u8>, perms: Seq<Seq<u8>>, permission: Seq<u8>, policy: Policy)
    requires
        perms.contains(permission),
        members.policy_of(role, permission) == Some(policy),
    ensures
        members.role_policies(role, perms).contains(policy),
    decreases perms.len(),
{
    let rest = members.role_policies(role, perms.drop_last());
    if perms.last() == permission {
        let all = members.role_policies(role, perms);
        assert(all =~= rest + seq![policy]);
        assert(all[rest.len() as int] == policy);
    } else {
        let i = choose|i: int| 0 <= i < perms.len() && perms[i] == permission;
        assert(perms.drop_last()[i] == permission);
        lemma_role_policy_listed(members, role, perms.drop_last(), permission, policy);
        let j = choose|j: int| 0 <= j < rest.len() && rest[j] == policy;
        assert(members.role_policies(role, perms)[j] == policy);
    }
}

/// The policies of a role the proposer holds are among the proposer's
/// policies.
proof fn lemma_roles_policy_listed(members: Members, roles: Seq<Seq<u8>>, role: Seq<u8>, perms: Seq<Seq<u8>>, policy: Policy)
    requires
        roles.contains(role),
        members.role_policies(role, perms).contains(policy),
    ensures
        members.policies_for(roles, perms).contains(policy),
    decreases roles.len(),
{
    let before = members.policies_for(roles.drop_last(), perms);
    let all = members.policies_for(roles, perms);
    if roles.last() == role {
        let j = choose|j: int| 0 <= j < members.role_policies(role, perms).len() && members.role_policies(role, perms)[j] == policy;
        assert(all =~= before + members.role_policies(role, perms));
        assert(all[before.len() + j] == policy);
    } else {
        let i = choose|i: int| 0 <= i < roles.len() && roles[i] == role;
        assert(roles.drop_last()[i] == role);
        lemma_roles_policy_listed(members, roles.drop_last(), role, perms, policy);
        let j = choose|j: int| 0 <= j < before.len() && before[j] == policy;
        assert(all =~= before + members.role_policies(roles.last(), perms));
        assert(all[j] == policy);
    }
}

/// A proposer who holds a role with a token weighted policy for one of the
/// announced permissions must bring the minimum propose weight, role or not:
/// with less, proposing is refused, and once the trusted host's signature
/// and the proposal id are accepted, it is refused for insufficient vote
/// weight.
pub proof fn law_weighted_policy_requires_min_propose_weight(
    entity: EntityContract,
    sc_address: Seq<u8>,
    now: u64,
    proposer: Seq<u8>,
    trusted_host_id: Seq<u8>,
    content_hash: Seq<u8>,
    content_sig: Seq<u8>,
    actions_hash: Seq<u8>,
    vote_weight: u128,
    permissions: Seq<Seq<u8>>,
    role: Seq<u8>,
    permission: Seq<u8>,
    policy: Policy,
)
    requires
        entity.wf(),
        !entity.leaderless(),
        entity.members.roles_of(proposer).contains(role),
        permissions.contains(permission),
        entity.members.policy_of(role, permission) == Some(policy),
        policy.method == PolicyMethod::Weight,
        vote_weight < entity.config.min_propose_weight,
    ensures
        ({
            let refusal = entity.proposal_refusal(
                sc_address,
                now,
                proposer,
                trusted_host_id,
                content_hash,
                content_sig,
                actions_hash,
                vote_weight,
                permissions,
            );
            &&& refusal is Some
            &&& refusal == Some(EntityError::NotTrustedHost) || refusal == Some(EntityError::InvalidSignature)
                || refusal == Some(EntityError::ProposalAlreadyRegistered) || refusal == Some(
                EntityError::InsufficientVoteWeight)
        }),
{
    let roles = entity.members.roles_of(proposer);
    lemma_role_policy_listed(entity.members, role, permissions, permission, policy);
    lemma_roles_policy_listed(entity.members, roles, role, permissions, policy);
    let policies = entity.members.policies_for(roles, permissions);
    let j = choose|j: int| 0 <= j < policies.len() && policies[j] == policy;
    assert(policies[j].method == PolicyMethod::Weight);
    assert(permissions.len() > 0);
    assert(entity.may_propose(proposer, actions_hash, permissions) == (
        roles.contains(leader_role()) || policies.len() > 0,
        policies,
    ));
    assert(crate::permission::has_weighted(policies));
}

/// No two payments of `token` among `ps` have the same nonce.
pub open spec fn one_payment_per_nonce(ps: Seq<(Seq<u8>, u64, u128)>, token: Seq<u8>) -> bool {
    forall|i: int, j: int|
        0 <= i < j < ps.len() && ps[i].0 == token && ps[j].0 == token ==> #[trigger] ps[i].1 != #[trigger] ps[j].1
}

/// The amount of `token` with `nonce` that the calls send.
pub open spec fn calls_amount(calls: Seq<ActionCallView>, token: Seq<u8>, nonce: u64) -> nat
    decreases calls.len(),
{
    if calls.len() == 0 {
        0
    } else {
        calls_amount(calls.drop_last(), token, nonce) + amount_for(calls.last().payments, token, nonce)
    }
}

proof fn lemma_calls_amount(acts: Seq<ActionView>, token: Seq<u8>, nonce: u64)
    ensures
        calls_amount(executed_calls(acts), token, nonce) == amount_for(flat_payments(acts), token, nonce),
    decreases acts.len(),
{
    if acts.len() > 0 {
        lemma_calls_amount(acts.drop_last(), token, nonce);
        assert(executed_calls(acts).drop_last() =~= executed_calls(acts.drop_last()));
        lemma_amount_for_concat(flat_payments(acts.drop_last()), action_call(acts.last()).payments, token, nonce);
    }
}

proof fn lemma_amount_for_absent(ps: Seq<(Seq<u8>, u64, u128)>, token: Seq<u8>, nonce: u64)
    requires
        forall|i: int| 0 <= i < ps.len() ==> !((#[trigger] ps[i]).0 == token && ps[i].1 == nonce),
    ensures
        amount_for(ps, token, nonce) == 0,
    decreases ps.len(),
{
    if ps.len() > 0 {
        assert(ps.last() == ps[ps.len() - 1]);
        lemma_amount_for_absent(ps.drop_last(), token, nonce);
    }
}

/// What the payments of one action send of a governance token nonce stays
/// within what is left of the balance, beyond the guarded deposits, after
/// what earlier actions sent.
proof fn lemma_payments_within(
    entity: EntityContract,
    bal: Map<u64, u128>,
    sent: Seq<(Seq<u8>, u64, u128)>,
    ps: Seq<(Seq<u8>, u64, u128)>,
    nonce: u64,
)
    requires
        entity.payments_refusal(bal, sent, ps) is None,
        one_payment_per_nonce(ps, entity.config.gov_token_id@),
        amount_for(sent, entity.config.gov_token_id@, nonce) <= sat_sub(
            balance_of(bal, nonce),
            entity.config.guarded(entity.config.gov_token_id@, nonce),
        ),
    ensures
        amount_for(sent, entity.config.gov_token_id@, nonce) + amount_for(ps, entity.config.gov_token_id@, nonce)
            <= sat_sub(balance_of(bal, nonce), entity.config.guarded(entity.config.gov_token_id@, nonce)),
    decreases ps.len(),
{
    let gov = entity.config.gov_token_id@;
    if ps.len() > 0 {
        let rest = ps.drop_last();
        let p = ps.last();
        assert(entity.payments_refusal(bal, sent, rest) is None);
        assert(entity.payment_refusal(bal, sent, p) is None);
        assert(one_payment_per_nonce(rest, gov)) by {
            assert forall|i: int, j: int|
                0 <= i < j < rest.len() && rest[i].0 == gov && rest[j].0 == gov implies #[trigger] rest[i].1 != #[trigger] rest[j].1 by {
                assert(rest[i] == ps[i]);
                assert(rest[j] == ps[j]);
            }
        }
        lemma_payments_within(entity, bal, sent, rest, nonce);
        if p.0 == gov && p.1 == nonce {
            assert forall|i: int| 0 <= i < rest.len() implies !((#[trigger] rest[i]).0 == gov && rest[i].1 == nonce) by {
                assert(rest[i] == ps[i]);
                assert(p == ps[ps.len() - 1]);
            }
            lemma_amount_for_absent(rest, gov, nonce);
        }
    }
}

/// Executing actions never sends, over all the calls it makes, more of a
/// governance token nonce than the contract held before beyond the guarded
/// vote deposits, provided no single action pays that nonce twice.
pub proof fn law_execution_spends_no_guarded_tokens(
    entity: EntityContract,
    balances: Map<u64, u128>,
    actions: Seq<ActionView>,
    nonce: u64,
)
    requires
        entity.wf(),
        forall|k: int| 0 <= k < actions.len() ==> one_payment_per_nonce(#[trigger] actions[k].payments, entity.config.gov_token_id@),
        entity.execution_refusal(balances, actions) is None,
    ensures
        calls_amount(executed_calls(actions), entity.config.gov_token_id@, nonce) <= sat_sub(
            balance_of(balances, nonce),
            entity.config.guarded(entity.config.gov_token_id@, nonce),
        ),
{
    lemma_calls_amount(actions, entity.config.gov_token_id@, nonce);
    lemma_flat_within(entity, balances, actions, nonce);
}

proof fn lemma_flat_within(entity: EntityContract, bal: Map<u64, u128>, acts: Seq<ActionView>, nonce: u64)
    requires
        forall|k: int| 0 <= k < acts.len() ==> one_payment_per_nonce(#[trigger] acts[k].payments, entity.config.gov_token_id@),
        entity.execution_refusal(bal, acts) is None,
    ensures
        amount_for(flat_payments(acts), entity.config.gov_token_id@, nonce) <= sat_sub(
            balance_of(bal, nonce),
            entity.config.guarded(entity.config.gov_token_id@, nonce),
        ),
    decreases acts.len(),
{
    let gov = entity.config.gov_token_id@;
    if acts.len() > 0 {
        let rest = acts.drop_last();
        let last = acts.last();
        assert(entity.execution_refusal(bal, rest) is None);
        assert forall|k: int| 0 <= k < rest.len() implies one_payment_per_nonce(#[trigger] rest[k].payments, gov) by {
            assert(rest[k] == acts[k]);
        }
        lemma_flat_within(entity, bal, rest, nonce);
        lemma_amount_for_concat(flat_payments(rest), action_call(last).payments, gov, nonce);
        if last.value > 0 {
            assert(action_call(last).payments.len() == 0);
        } else {
            assert(last == acts[acts.len() - 1]);
            assert(action_call(last).payments == last.payments);
            lemma_payments_within(entity, bal, flat_payments(rest), last.payments, nonce);
        }
    }
}

} // verus!
