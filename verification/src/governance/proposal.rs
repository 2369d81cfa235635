use vstd::prelude::*;

use crate::config::{copy_payments, Payment};
use crate::crypto::{keccak256, keccak256_of};
use crate::permission::{PermissionDetails, PermissionDetailsView};
use crate::store::{append_bytes, bytes_eq, copy_bytes, copy_bytes_list, views};

verus! {

/// A proposal: who proposed it, the hashes of its content and of its
/// actions, its voting window, its votes and the permissions it announces.
pub struct Proposal {
    pub id: u64,
    pub proposer: Vec<u8>,
    pub content_hash: Vec<u8>,
    pub actions_hash: Vec<u8>,
    pub starts_at: u64,
    pub ends_at: u64,
    pub was_executed: bool,
    pub votes_for: u128,
    pub votes_against: u128,
    pub permissions: Vec<Vec<u8>>,
}

pub struct ProposalView {
    pub id: u64,
    pub proposer: Seq<u8>,
    pub content_hash: Seq<u8>,
    pub actions_hash: Seq<u8>,
    pub starts_at: u64,
    pub ends_at: u64,
    pub was_executed: bool,
    pub votes_for: u128,
    pub votes_against: u128,
    pub permissions: Seq<Seq<u8>>,
}

impl View for Proposal {
    type V = ProposalView;

    open spec fn view(&self) -> ProposalView {
        ProposalView {
            id: self.id,
            proposer: self.proposer@,
            content_hash: self.content_hash@,
            actions_hash: self.actions_hash@,
            starts_at: self.starts_at,
            ends_at: self.ends_at,
            was_executed: self.was_executed,
            votes_for: self.votes_for,
            votes_against: self.votes_against,
            permissions: views(self.permissions@),
        }
    }
}

impl Proposal {
    pub fn copy(&self) -> (copy: Proposal)
        ensures
            copy@ == self@,
    {
        Proposal {
            id: self.id,
            proposer: copy_bytes(&self.proposer),
            content_hash: copy_bytes(&self.content_hash),
            actions_hash: copy_bytes(&self.actions_hash),
            starts_at: self.starts_at,
            ends_at: self.ends_at,
            was_executed: self.was_executed,
            votes_for: self.votes_for,
            votes_against: self.votes_against,
            permissions: copy_bytes_list(&self.permissions),
        }
    }
}

/// A call that a proposal makes when it is executed.
pub struct Action {
    pub destination: Vec<u8>,
    pub endpoint: Vec<u8>,
    pub value: u128,
    pub payments: Vec<Payment>,
    pub arguments: Vec<Vec<u8>>,
    pub gas_limit: u64,
}

pub struct ActionView {
    pub destination: Seq<u8>,
    pub endpoint: Seq<u8>,
    pub value: u128,
    pub payments: Seq<(Seq<u8>, u64, u128)>,
    pub arguments: Seq<Seq<u8>>,
    pub gas_limit: u64,
}

impl View for Action {
    type V = ActionView;

    open spec fn view(&self) -> ActionView {
        ActionView {
            destination: self.destination@,
            endpoint: self.endpoint@,
            value: self.value,
            payments: views(self.payments@),
            arguments: views(self.arguments@),
            gas_limit: self.gas_limit,
        }
    }
}

impl Action {
    pub fn copy(&self) -> (copy: Action)
        ensures
            copy@ == self@,
    {
        Action {
            destination: copy_bytes(&self.destination),
            endpoint: copy_bytes(&self.endpoint),
            value: self.value,
            payments: copy_payments(&self.payments),
            arguments: copy_bytes_list(&self.arguments),
            gas_limit: self.gas_limit,
        }
    }
}

/// Where a proposal stands.
#[derive(Clone, Copy, PartialEq, Eq, Debug, Structural)]
pub enum ProposalStatus {
    Pending,
    Active,
    Defeated,
    Succeeded,
    Executed,
}

/// The side a vote takes.
#[derive(Clone, Copy, PartialEq, Eq, Debug, Structural)]
pub enum VoteType {
    For,
    Against,
}

/// The ASCII decimal digits of `n`.
pub open spec fn decimal(n: nat) -> Seq<u8>
    decreases n,
{
    if n < 10 {
        seq![(48 + n) as u8]
    } else {
        decimal(n / 10).push((48 + n % 10) as u8)
    }
}

/// Appends the ASCII decimal digits of `n` to `out`.
pub fn append_decimal(out: &mut Vec<u8>, n: u128)
    ensures
        final(out)@ == old(out)@ + decimal(n as nat),
    decreases n,
{
    if n >= 10 {
        append_decimal(out, n / 10);
    }
    let digit = (n % 10) as u8;
    out.push(48 + digit);
    proof {
        if n >= 10 {
            assert(decimal(n as nat) == decimal((n / 10) as nat).push((48 + n % 10) as u8));
        }
        assert(final(out)@ =~= old(out)@ + decimal(n as nat));
    }
}

/// The concatenation of byte strings.
pub open spec fn concat(parts: Seq<Seq<u8>>) -> Seq<u8>
    decreases parts.len(),
{
    if parts.len() == 0 {
        Seq::empty()
    } else {
        concat(parts.drop_last()) + parts.last()
    }
}

/// A payment as it enters the actions hash: token, nonce and amount, the
/// numbers in decimal.
pub open spec fn payment_bytes(p: (Seq<u8>, u64, u128)) -> Seq<u8> {
    p.0 + decimal(p.1 as nat) + decimal(p.2 as nat)
}

pub open spec fn payment_parts(payments: Seq<(Seq<u8>, u64, u128)>) -> Seq<Seq<u8>> {
    payments.map_values(|p: (Seq<u8>, u64, u128)| payment_bytes(p))
}

/// An action as it enters the actions hash: destination, endpoint, value in
/// decimal, its payments, then its arguments.
pub open spec fn action_bytes(a: ActionView) -> Seq<u8> {
    a.destination + a.endpoint + decimal(a.value as nat) + concat(payment_parts(a.payments))
        + concat(a.arguments)
}

pub open spec fn action_parts(actions: Seq<ActionView>) -> Seq<Seq<u8>> {
    actions.map_values(|a: ActionView| action_bytes(a))
}

/// The bytes whose Keccak-256 digest is the actions hash.
pub open spec fn actions_bytes(actions: Seq<ActionView>) -> Seq<u8> {
    concat(action_parts(actions))
}

pub proof fn lemma_payment_parts_step(s: Seq<(Seq<u8>, u64, u128)>, i: int)
    requires
        0 <= i < s.len(),
    ensures
        concat(payment_parts(s.take(i + 1))) == concat(payment_parts(s.take(i))) + payment_bytes(
            s[i],
        ),
{
    assert(payment_parts(s.take(i + 1)).drop_last() =~= payment_parts(s.take(i)));
}

pub proof fn lemma_action_parts_step(s: Seq<ActionView>, i: int)
    requires
        0 <= i < s.len(),
    ensures
        concat(action_parts(s.take(i + 1))) == concat(action_parts(s.take(i))) + action_bytes(
            s[i],
        ),
{
    assert(action_parts(s.take(i + 1)).drop_last() =~= action_parts(s.take(i)));
}

pub proof fn lemma_concat_take(s: Seq<Seq<u8>>, i: int)
    requires
        0 <= i < s.len(),
    ensures
        concat(s.take(i + 1)) == concat(s.take(i)) + s[i],
{
    assert(s.take(i + 1).drop_last() =~= s.take(i));
}

/// Serializes actions the way the actions hash covers them.
pub fn serialize_actions(actions: &Vec<Action>) -> (bytes: Vec<u8>)
    ensures
        bytes@ == actions_bytes(views(actions@)),
{
    let mut out: Vec<u8> = Vec::new();
    let ghost acts = views(actions@);
    let mut i: usize = 0;
    while i < actions.len()
        invariant
            i <= actions@.len(),
            acts == views(actions@),
            out@ == concat(action_parts(acts.take(i as int))),
        decreases actions@.len() - i,
    {
        let action = &actions[i];
        let ghost before = out@;
        append_bytes(&mut out, &action.destination);
        append_bytes(&mut out, &action.endpoint);
        append_decimal(&mut out, action.value);
        let ghost pays = views(action.payments@);
        let ghost head = out@;
        let mut j: usize = 0;
        while j < action.payments.len()
            invariant
                j <= action.payments@.len(),
                pays == views(action.payments@),
                out@ == head + concat(payment_parts(pays.take(j as int))),
            decreases action.payments@.len() - j,
        {
            let payment = &action.payments[j];
            let ghost before_payment = out@;
            append_bytes(&mut out, &payment.token_identifier);
            append_decimal(&mut out, payment.token_nonce as u128);
            append_decimal(&mut out, payment.amount);
            proof {
                lemma_payment_parts_step(pays, j as int);
                assert(pays[j as int] == payment@);
                assert(out@ =~= before_payment + payment_bytes(payment@));
                assert(out@ =~= head + concat(payment_parts(pays.take(j as int + 1))));
            }
            j = j + 1;
        }
        let ghost mid = out@;
        let ghost args = views(action.arguments@);
        let mut k: usize = 0;
        while k < action.arguments.len()
            invariant
                k <= action.arguments@.len(),
                args == views(action.arguments@),
                out@ == mid + concat(args.take(k as int)),
            decreases action.arguments@.len() - k,
        {
            append_bytes(&mut out, &action.arguments[k]);
            proof {
                lemma_concat_take(args, k as int);
                assert(args[k as int] == action.arguments@[k as int]@);
                assert(out@ =~= mid + concat(args.take(k as int + 1)));
            }
            k = k + 1;
        }
        proof {
            assert(pays.take(pays.len() as int) =~= pays);
            assert(args.take(args.len() as int) =~= args);
            assert(action@.payments == pays);
            assert(action@.arguments == args);
            assert(out@ =~= before + action_bytes(action@));
            lemma_action_parts_step(acts, i as int);
            assert(acts[i as int] == action@);
        }
        i = i + 1;
    }
    proof {
        assert(acts.take(acts.len() as int) =~= acts);
    }
    out
}

/// The hash that a proposal records of the actions it will execute.
pub fn calculate_actions_hash(actions: &Vec<Action>) -> (hash: Vec<u8>)
    ensures
        hash@ == keccak256_of(actions_bytes(views(actions@))),
        hash@.len() == 32,
{
    let serialized = serialize_actions(actions);
    keccak256(&serialized)
}

/// The zero address: every byte is zero. A permission with the zero
/// address as destination applies to any destination.
pub open spec fn is_zero_address(a: Seq<u8>) -> bool {
    forall|i: int| 0 <= i < a.len() ==> a[i] == 0
}

/// The action's arguments begin with the permission's arguments.
pub open spec fn arguments_prefix(scope: Seq<Seq<u8>>, args: Seq<Seq<u8>>) -> bool {
    scope.len() <= args.len() && forall|i: int| 0 <= i < scope.len() ==> args[i] == scope[i]
}

/// The first guard of the payment's token bounds its amount.
pub open spec fn payment_within(guards: Seq<(Seq<u8>, u64, u128)>, p: (Seq<u8>, u64, u128)) -> bool {
    exists|k: int|
        0 <= k < guards.len() && guards[k].0 == p.0 && (forall|j: int|
            0 <= j < k ==> guards[j].0 != p.0) && p.2 <= guards[k].2
}

/// Whether a permission covers an action: each part that the permission
/// names (value cap, destination, endpoint, leading arguments, payment
/// caps) matches the action.
pub open spec fn permission_applies(d: PermissionDetailsView, a: ActionView) -> bool {
    &&& d.value == 0 || a.value <= d.value
    &&& is_zero_address(d.destination) || a.destination == d.destination
    &&& d.endpoint.len() == 0 || a.endpoint == d.endpoint
    &&& d.arguments.len() == 0 || arguments_prefix(d.arguments, a.arguments)
    &&& d.payments.len() == 0 || forall|i: int|
        0 <= i < a.payments.len() ==> payment_within(d.payments, #[trigger] a.payments[i])
}

pub fn is_zero_address_bytes(a: &Vec<u8>) -> (zero: bool)
    ensures
        zero == is_zero_address(a@),
{
    let mut i: usize = 0;
    while i < a.len()
        invariant
            i <= a@.len(),
            forall|j: int| 0 <= j < i ==> a@[j] == 0,
        decreases a@.len() - i,
    {
        if a[i] != 0 {
            return false;
        }
        i = i + 1;
    }
    true
}

fn starts_with_arguments(scope: &Vec<Vec<u8>>, args: &Vec<Vec<u8>>) -> (prefix: bool)
    ensures
        prefix == arguments_prefix(views(scope@), views(args@)),
{
    assert(views(scope@).len() == scope@.len() && views(args@).len() == args@.len());
    let mut i: usize = 0;
    while i < scope.len()
        invariant
            i <= scope@.len(),
            i <= args@.len(),
            forall|j: int| 0 <= j < i ==> args@[j]@ == scope@[j]@,
        decreases scope@.len() - i,
    {
        if i >= args.len() {
            return false;
        }
        if !bytes_eq(&args[i], &scope[i]) {
            assert(views(args@)[i as int] == args@[i as int]@);
            assert(views(scope@)[i as int] == scope@[i as int]@);
            return false;
        }
        i = i + 1;
    }
    assert forall|j: int| 0 <= j < scope@.len() implies views(args@)[j] == views(scope@)[j] by {
        assert(views(args@)[j] == args@[j]@);
    }
    true
}

fn within_guards(guards: &Vec<Payment>, p: &Payment) -> (within: bool)
    ensures
        within == payment_within(views(guards@), p@),
{
    let ghost g = views(guards@);
    let mut i: usize = 0;
    while i < guards.len()
        invariant
            i <= guards@.len(),
            g == views(guards@),
            forall|j: int| 0 <= j < i ==> g[j].0 != p@.0,
        decreases guards@.len() - i,
    {
        if bytes_eq(&guards[i].token_identifier, &p.token_identifier) {
            let within = p.amount <= guards[i].amount;
            proof {
                assert(g[i as int] == guards@[i as int]@);
                if !within {
                    assert(!payment_within(g, p@)) by {
                        if payment_within(g, p@) {
                            let k = choose|k: int|
                                0 <= k < g.len() && g[k].0 == p@.0 && (forall|j: int|
                                    0 <= j < k ==> g[j].0 != p@.0) && p@.2 <= g[k].2;
                            if k < i {
                            } else if k > i {
                                assert(g[i as int].0 != p@.0);
                            }
                        }
                    }
                }
            }
            return within;
        }
        i = i + 1;
    }
    false
}

/// Whether a permission covers an action.
pub fn does_permission_apply_to_action(permission_details: &PermissionDetails, action: &Action) -> (applies: bool)
    ensures
        applies == permission_applies(permission_details@, action@),
{
    if permission_details.value != 0 && action.value > permission_details.value {
        return false;
    }
    if !is_zero_address_bytes(&permission_details.destination) && !bytes_eq(&action.destination, &permission_details.destination) {
        return false;
    }
    if permission_details.endpoint.len() != 0 {
        if !bytes_eq(&action.endpoint, &permission_details.endpoint) {
            return false;
        }
    }
    if permission_details.arguments.len() != 0 {
        if !starts_with_arguments(&permission_details.arguments, &action.arguments) {
            return false;
        }
    }
    if permission_details.payments.len() != 0 {
        let mut i: usize = 0;
        while i < action.payments.len()
            invariant
                i <= action.payments@.len(),
                permission_details.payments@.len() != 0,
                forall|j: int|
                    0 <= j < i ==> payment_within(views(permission_details.payments@), #[trigger] views(action.payments@)[j]),
            decreases action.payments@.len() - i,
        {
            if !within_guards(&permission_details.payments, &action.payments[i]) {
                proof {
                    let a = action@;
                    assert(a.payments.len() == action.payments@.len());
                    assert(permission_details@.payments.len() == permission_details.payments@.len());
                    assert(a.payments[i as int] == action.payments@[i as int]@);
                    assert(!payment_within(permission_details@.payments, a.payments[i as int]));
                }
                return false;
            }
            assert(views(action.payments@)[i as int] == action.payments@[i as int]@);
            i = i + 1;
        }
    }
    true
}

/// Whether votes pass: some vote was cast, at least half of the votes are
/// for the proposal (in whole percent), and the votes for reach the quorum.
pub open spec fn sufficient_votes(votes_for: nat, votes_against: nat, quorum: nat) -> bool {
    let total = votes_for + votes_against;
    &&& total >= 1
    &&& (votes_for * 100) / total >= 50
    &&& votes_for >= quorum
}

/// At least half of the votes in whole percent is a simple majority of
/// votes for over votes against.
pub proof fn lemma_half_in_percent(f: nat, a: nat)
    requires
        f + a > 0,
    ensures
        (f * 100) / (f + a) >= 50 <==> f >= a,
{
    let t = (f + a) as int;
    let x = (f * 100) as int;
    let q = x / t;
    let r = x % t;
    vstd::arithmetic::div_mod::lemma_fundamental_div_mod(x, t);
    vstd::arithmetic::div_mod::lemma_mod_bound(x, t);
    assert(q >= 50 <==> f >= a) by (nonlinear_arith)
        requires
            x == t * q + r,
            0 <= r < t,
            t == f + a,
            x == f * 100,
    ;
}

/// Whether the votes of a proposal pass with the given quorum.
pub fn has_sufficient_votes(proposal: &Proposal, quorum: u128) -> (sufficient: bool)
    ensures
        sufficient == sufficient_votes(
            proposal.votes_for as nat,
            proposal.votes_against as nat,
            quorum as nat,
        ),
{
    proof {
        if proposal.votes_for + proposal.votes_against > 0 {
            lemma_half_in_percent(proposal.votes_for as nat, proposal.votes_against as nat);
        }
    }
    if proposal.votes_for == 0 && proposal.votes_against == 0 {
        return false;
    }
    proposal.votes_for >= proposal.votes_against && proposal.votes_for >= quorum
}

/// Whether the voting window of a proposal is open at `now`.
pub fn is_proposal_active(proposal: &Proposal, now: u64) -> (active: bool)
    ensures
        active == (proposal.starts_at <= now < proposal.ends_at),
{
    now >= proposal.starts_at && now < proposal.ends_at
}

/// The number of signers a role needs for a majority: more than half of
/// its members.
pub open spec fn signer_majority(members: nat) -> nat {
    members / 2 + 1
}

pub fn get_signer_majority_for_role(member_amount: usize) -> (majority: usize)
    ensures
        majority == signer_majority(member_amount as nat),
{
    member_amount / 2 + 1
}

} // verus!
