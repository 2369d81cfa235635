#![allow(dead_code)]

use ed25519_dalek::{Keypair, PublicKey, SecretKey, Signer};
use entity::config::{CallContext, Payment};
use entity::contract::ContractDeployment;
use entity::errors::EntityError;
use entity::governance::proposal::{calculate_actions_hash, Action, ProposalStatus};
use entity::permission::{role_builtin_developer, role_builtin_leader, PolicyMethod};
use entity::governance::execution::ActionCall;
use entity::governance::proposal::serialize_actions;
use entity::governance::token::TokenModule;
use entity::permission::PermissionModule;
use entity::plug::PlugModule;
use entity::store::Store;
use entity::contract::ContractModule;
use entity::governance::GovernanceModule;
use entity::{Entity, EntityContract};
use multiversx_sc_scenario::multiversx_chain_vm::crypto_functions::keccak256;

const GOV_TOKEN_ID: &[u8] = b"SUPER-abcdef";
const GOV_TOKEN_SUPPLY: u128 = 1_000;
const FAKE_TOKEN_ID: &[u8] = b"FAKE-abcdef";
const MIN_WEIGHT_FOR_PROPOSAL: u128 = 2;
const POLL_DEFAULT_ID: u8 = 0;
const QURUM: u128 = 50;
const VOTING_PERIOD_MINUTES_DEFAULT: u64 = 4320;

fn address(name: &[u8]) -> Vec<u8> {
    let mut a = name.to_vec();
    a.resize(32, b'_');
    a
}

struct Setup {
    entity: EntityContract,
    trusted_host: Keypair,
    owner_address: Vec<u8>,
    user_address: Vec<u8>,
    contract_address: Vec<u8>,
    next_trusted_host_id: u32,
}

impl Setup {
    fn new() -> Setup {
        let secret = SecretKey::from_bytes(&[7u8; 32]).unwrap();
        let public = PublicKey::from(&secret);
        let trusted_host = Keypair { secret, public };
        let owner_address = address(b"owner");
        let entity = EntityContract::init(trusted_host.public.to_bytes().to_vec(), Some(owner_address.clone()));
        Setup {
            entity,
            trusted_host,
            owner_address,
            user_address: address(b"user"),
            contract_address: address(b"entity"),
            next_trusted_host_id: 0,
        }
    }

    fn configure_gov_token(&mut self, lock_vote_tokens: bool) {
        self.entity.config.gov_token_id = GOV_TOKEN_ID.to_vec();
        self.entity.config.quorum = QURUM;
        self.entity.config.min_propose_weight = MIN_WEIGHT_FOR_PROPOSAL;
        if lock_vote_tokens {
            self.entity.config.lock_vote_tokens.insert(GOV_TOKEN_ID.to_vec(), true);
        }
    }

    fn ctx(&self, caller: &Vec<u8>, now: u64, payments: Vec<Payment>) -> CallContext {
        CallContext {
            caller: caller.clone(),
            sc_address: self.contract_address.clone(),
            block_timestamp: now,
            egld_value: 0,
            esdt_transfers: payments,
        }
    }

    fn sign(&self, proposer: &Vec<u8>, trusted_host_id: &[u8], content_hash: &[u8], actions_hash: &[u8], permissions: &Vec<Vec<u8>>) -> Vec<u8> {
        let mut signable = proposer.clone();
        signable.extend_from_slice(&self.contract_address);
        signable.extend_from_slice(trusted_host_id);
        signable.extend_from_slice(content_hash);
        signable.extend_from_slice(actions_hash);
        for p in permissions {
            signable.extend_from_slice(p);
        }
        let digest = keccak256(&signable);
        self.trusted_host.sign(&digest).to_bytes().to_vec()
    }

    fn propose_with_id(
        &mut self,
        proposer: &Vec<u8>,
        trusted_host_id: &[u8],
        payments: Vec<Payment>,
        actions_hash: Vec<u8>,
        permissions: Vec<Vec<u8>>,
    ) -> Result<(u64, Vec<Payment>), EntityError> {
        let sig = self.sign(proposer, trusted_host_id, b"", &actions_hash, &permissions);
        let ctx = self.ctx(proposer, 0, payments);
        self.entity.propose_endpoint(&ctx, trusted_host_id.to_vec(), Vec::new(), sig, actions_hash, POLL_DEFAULT_ID, permissions)
    }

    fn self_ctx(&self) -> CallContext {
        self.ctx(&self.contract_address, 0, Vec::new())
    }

    fn propose(
        &mut self,
        proposer: &Vec<u8>,
        now: u64,
        payments: Vec<Payment>,
        content_hash: &[u8],
        actions_hash: Vec<u8>,
        option_id: u8,
        permissions: Vec<Vec<u8>>,
    ) -> Result<(u64, Vec<Payment>), EntityError> {
        self.next_trusted_host_id += 1;
        let trusted_host_id = format!("id{}", self.next_trusted_host_id).into_bytes();
        let sig = self.sign(proposer, &trusted_host_id, content_hash, &actions_hash, &permissions);
        let ctx = self.ctx(proposer, now, payments);
        self.entity.propose_endpoint(&ctx, trusted_host_id, content_hash.to_vec(), sig, actions_hash, option_id, permissions)
    }

    fn vote_for(&mut self, voter: &Vec<u8>, now: u64, payments: Vec<Payment>, proposal_id: u64) -> Result<Vec<Payment>, EntityError> {
        let ctx = self.ctx(voter, now, payments);
        self.entity.vote_for_endpoint(&ctx, proposal_id, None)
    }

    fn vote_against(&mut self, voter: &Vec<u8>, now: u64, payments: Vec<Payment>, proposal_id: u64) -> Result<Vec<Payment>, EntityError> {
        let ctx = self.ctx(voter, now, payments);
        self.entity.vote_against_endpoint(&ctx, proposal_id, None)
    }

    fn deposited(&self, proposal_id: u64, voter: &Vec<u8>, nonce: u64) -> u128 {
        match self.entity.governance.withdrawable_votes.get(&(proposal_id, voter.clone())) {
            Some(list) => list.iter().filter(|p| p.token_nonce == nonce).map(|p| p.amount).sum(),
            None => 0,
        }
    }

    fn withdrawable_ids(&self, voter: &Vec<u8>) -> Vec<u64> {
        match self.entity.governance.withdrawable_proposal_ids.get(voter) {
            Some(ids) => ids.clone(),
            None => Vec::new(),
        }
    }

    fn signers(&self, proposal_id: u64, role: &[u8]) -> Vec<usize> {
        self.entity.governance.get_signers(proposal_id, &role.to_vec())
    }
}

fn gov(amount: u128) -> Vec<Payment> {
    vec![Payment { token_identifier: GOV_TOKEN_ID.to_vec(), token_nonce: 0, amount }]
}

fn gov_nft(nonce: u64, amount: u128) -> Vec<Payment> {
    vec![Payment { token_identifier: GOV_TOKEN_ID.to_vec(), token_nonce: nonce, amount }]
}

fn call_action(destination: &Vec<u8>, endpoint: &[u8], value: u128, payments: Vec<Payment>, arguments: Vec<Vec<u8>>) -> Action {
    Action {
        destination: destination.clone(),
        endpoint: endpoint.to_vec(),
        value,
        payments,
        arguments,
        gas_limit: 5_000_000,
    }
}

fn copy_action(a: &Action) -> Action {
    let payments = a
        .payments
        .iter()
        .map(|p| Payment { token_identifier: p.token_identifier.clone(), token_nonce: p.token_nonce, amount: p.amount })
        .collect();
    call_action(&a.destination, &a.endpoint, a.value, payments, a.arguments.clone())
}

fn after_voting_period() -> u64 {
    VOTING_PERIOD_MINUTES_DEFAULT * 60 + 1
}


fn err<T>(r: Result<T, EntityError>) -> EntityError {
    match r {
        Err(e) => e,
        Ok(_) => panic!("expected a refusal"),
    }
}

#[test]
fn the_member_amount_counts_each_holder_once() {
    let mut setup = Setup::new();
    let a = address(b"a");
    let b = address(b"b");
    let role = b"builder".to_vec();
    setup.entity.members.create_role(role.clone()).unwrap();
    setup.entity.members.assign_role(&a, &role).unwrap();
    setup.entity.members.assign_role(&a, &role).unwrap();
    setup.entity.members.assign_role(&b, &role).unwrap();
    assert_eq!(2, setup.entity.members.member_amount_of(&role));
    setup.entity.members.unassign_role(&a, &role, false, false).unwrap();
    setup.entity.members.unassign_role(&a, &role, false, false).unwrap();
    assert_eq!(1, setup.entity.members.member_amount_of(&role));
    assert_eq!(1, setup.entity.members.member_amount_of(&role_builtin_leader()));
}

#[test]
fn the_guarded_amount_equals_the_withdrawable_deposits() {
    let mut setup = Setup::new();
    setup.configure_gov_token(true);
    let owner = setup.owner_address.clone();
    let user = setup.user_address.clone();
    let (id, _) = setup.propose(&owner, 0, gov(10), b"", Vec::new(), POLL_DEFAULT_ID, Vec::new()).unwrap();
    setup.vote_for(&user, 0, gov(7), id).unwrap();
    setup.vote_against(&user, 0, gov_nft(3, 4), id).unwrap();
    for nonce in [0u64, 3u64] {
        let deposited: u128 = setup
            .entity
            .governance
            .withdrawable_votes
            .entries
            .iter()
            .flat_map(|(_, list)| list.iter())
            .filter(|p| p.token_nonce == nonce)
            .map(|p| p.amount)
            .sum();
        assert_eq!(setup.entity.config.get_guarded(&GOV_TOKEN_ID.to_vec(), nonce), deposited);
    }
    assert_eq!(17, setup.entity.config.get_guarded(&GOV_TOKEN_ID.to_vec(), 0));
    assert_eq!(4, setup.entity.config.get_guarded(&GOV_TOKEN_ID.to_vec(), 3));
    let ctx = setup.ctx(&user, after_voting_period(), Vec::new());
    let batches = setup.entity.withdraw_endpoint(&ctx);
    assert_eq!(batches.len(), 1);
    assert_eq!(10, setup.entity.config.get_guarded(&GOV_TOKEN_ID.to_vec(), 0));
    assert_eq!(0, setup.entity.config.get_guarded(&GOV_TOKEN_ID.to_vec(), 3));
}

#[test]
fn a_member_signature_counts_once_per_role() {
    let mut setup = Setup::new();
    setup.configure_gov_token(false);
    let owner = setup.owner_address.clone();
    let (id, _) = setup.propose(&owner, 0, gov(QURUM), b"", Vec::new(), POLL_DEFAULT_ID, Vec::new()).unwrap();
    let ctx = setup.ctx(&owner, 0, Vec::new());
    setup.entity.sign_endpoint(&ctx, id, None).unwrap();
    setup.entity.sign_endpoint(&ctx, id, None).unwrap();
    assert_eq!(1, setup.signers(id, &role_builtin_leader()).len());
    assert_eq!(Ok(vec![owner.clone()]), setup.entity.get_proposal_signers_view(id));
    assert_eq!(Ok(vec![(role_builtin_leader(), 1usize)]), setup.entity.get_proposal_signature_role_counts_view(id));
}

#[test]
fn proposals_are_stored_under_their_ids() {
    let mut setup = Setup::new();
    setup.configure_gov_token(false);
    let owner = setup.owner_address.clone();
    let (first, _) = setup.propose(&owner, 0, gov(QURUM), b"one", Vec::new(), POLL_DEFAULT_ID, Vec::new()).unwrap();
    let (second, _) = setup.propose(&owner, 0, gov(QURUM), b"two", Vec::new(), POLL_DEFAULT_ID, Vec::new()).unwrap();
    assert_eq!((first, second), (1, 2));
    assert_eq!(2, setup.entity.governance.get_proposal(2).unwrap().id);
    assert_eq!(b"two".to_vec(), setup.entity.governance.get_proposal(2).unwrap().content_hash);
    assert_eq!(3, setup.entity.governance.next_proposal_id);
    let view = setup.entity.get_proposal_view(1).unwrap();
    assert_eq!(view.0, b"one".to_vec());
    assert!(setup.entity.get_proposal_view(3).is_none());
}

#[test]
fn votes_pass_by_majority_when_for_equals_against() {
    let mut setup = Setup::new();
    setup.configure_gov_token(false);
    let owner = setup.owner_address.clone();
    let (id, _) = setup.propose(&owner, 0, gov(QURUM), b"", Vec::new(), POLL_DEFAULT_ID, Vec::new()).unwrap();
    setup.vote_against(&owner, 0, gov(QURUM), id).unwrap();
    assert_eq!(Ok((QURUM, QURUM)), setup.entity.get_proposal_votes_view(id));
    assert_eq!(Ok(ProposalStatus::Succeeded), setup.entity.get_proposal_status_view(id, after_voting_period()));
    setup.vote_against(&owner, 0, gov(1), id).unwrap();
    assert_eq!(Ok(ProposalStatus::Defeated), setup.entity.get_proposal_status_view(id, after_voting_period()));
}

#[test]
fn an_executed_proposal_stays_executed_and_runs_once() {
    let mut setup = Setup::new();
    setup.configure_gov_token(false);
    let owner = setup.owner_address.clone();
    let receiver = address(b"receiver");
    let action = call_action(&receiver, b"myendpoint", 3, Vec::new(), Vec::new());
    let hash = calculate_actions_hash(&vec![copy_action(&action)]);
    let (id, _) = setup.propose(&owner, 0, gov(QURUM), b"", hash, POLL_DEFAULT_ID, Vec::new()).unwrap();
    // The sole leader signed on proposing: the proposal succeeds at once.
    assert_eq!(Ok(ProposalStatus::Succeeded), setup.entity.get_proposal_status_view(id, 0));
    let ctx = setup.ctx(&owner, 0, Vec::new());
    let calls: Vec<ActionCall> = setup.entity.execute_endpoint(&ctx, id, &vec![copy_action(&action)], &Store::new()).unwrap();
    assert_eq!(calls[0].egld_value, 3);
    for now in [0u64, after_voting_period(), u64::MAX] {
        assert_eq!(Ok(ProposalStatus::Executed), setup.entity.get_proposal_status_view(id, now));
    }
    assert_eq!(err(setup.entity.execute_endpoint(&ctx, id, &vec![copy_action(&action)], &Store::new())), EntityError::ProposalNotExecutable);
}

#[test]
fn a_trusted_host_id_admits_one_proposal() {
    let mut setup = Setup::new();
    setup.configure_gov_token(false);
    let owner = setup.owner_address.clone();
    assert!(setup.propose_with_id(&owner, b"th-1", gov(QURUM), Vec::new(), Vec::new()).is_ok());
    assert_eq!(err(setup.propose_with_id(&owner, b"th-1", gov(QURUM), Vec::new(), Vec::new())), EntityError::ProposalAlreadyRegistered);
    assert_eq!(2, setup.entity.governance.next_proposal_id);
}

#[test]
fn approved_actions_are_permitted_without_a_sole_leader() {
    let mut setup = Setup::new();
    let second_leader = address(b"leader2");
    let builder = address(b"builder");
    let receiver = address(b"receiver");
    setup.entity.members.assign_role(&second_leader, &role_builtin_leader()).unwrap();
    setup.entity.members.create_role(b"builder".to_vec()).unwrap();
    setup.entity.members.assign_role(&builder, &b"builder".to_vec()).unwrap();
    setup.entity.members.create_permission(b"perm".to_vec(), 0, receiver.clone(), b"myendpoint".to_vec(), Vec::new(), Vec::new());
    setup.entity.members.create_policy(&b"builder".to_vec(), b"perm".to_vec(), PolicyMethod::One, 0, 10).unwrap();
    let actions = vec![call_action(&receiver, b"myendpoint", 0, Vec::new(), Vec::new())];
    let (allowed, permissions) = setup.entity.get_user_permissions_for_actions(&builder, &actions, true);
    assert!(allowed);
    assert_eq!(permissions, vec![b"perm".to_vec()]);
    let (allowed_without_approval, _) = setup.entity.get_user_permissions_for_actions(&address(b"nobody"), &actions, false);
    assert!(!allowed_without_approval);
}

#[test]
fn only_existing_proposals_with_actions_execute() {
    let mut setup = Setup::new();
    setup.configure_gov_token(false);
    let owner = setup.owner_address.clone();
    let ctx = setup.ctx(&owner, 0, Vec::new());
    let action = call_action(&address(b"receiver"), b"myendpoint", 0, Vec::new(), Vec::new());
    assert_eq!(err(setup.entity.execute_endpoint(&ctx, 1, &Vec::new(), &Store::new())), EntityError::NoActionsToExecute);
    assert_eq!(err(setup.entity.execute_endpoint(&ctx, 99, &vec![action], &Store::new())), EntityError::ProposalNotFound);
}

#[test]
fn withdrawing_clears_only_the_closed_proposals() {
    let mut setup = Setup::new();
    setup.configure_gov_token(false);
    let owner = setup.owner_address.clone();
    let user = setup.user_address.clone();
    let (early, _) = setup.propose(&owner, 0, gov(QURUM), b"", Vec::new(), POLL_DEFAULT_ID, Vec::new()).unwrap();
    setup.vote_for(&user, 0, gov(5), early).unwrap();
    let later_start = after_voting_period();
    let (late, _) = setup.propose(&owner, later_start, gov(QURUM), b"", Vec::new(), POLL_DEFAULT_ID, Vec::new()).unwrap();
    setup.vote_for(&user, later_start, gov(6), late).unwrap();
    let ctx = setup.ctx(&user, later_start, Vec::new());
    let batches = setup.entity.withdraw_endpoint(&ctx);
    assert_eq!(batches.len(), 1);
    assert_eq!(batches[0][0].amount, 5);
    assert_eq!(setup.withdrawable_ids(&user), vec![late]);
    assert_eq!(6, setup.deposited(late, &user, 0));
    assert_eq!(QURUM * 2 + 6, setup.entity.config.get_guarded(&GOV_TOKEN_ID.to_vec(), 0));
    assert_eq!(setup.withdrawable_ids(&owner), vec![early, late]);
}

#[test]
fn the_supply_sets_quorum_and_propose_weight() {
    let mut setup = Setup::new();
    let ctx = setup.self_ctx();
    setup.entity.change_gov_token_endpoint(&ctx, &b"GOV-123456".to_vec(), 1_000, true).unwrap();
    assert_eq!(setup.entity.config.quorum, 50);
    assert_eq!(setup.entity.config.min_propose_weight, 10);
    assert!(setup.entity.config.is_locking_vote_tokens(&b"GOV-123456".to_vec()));
    setup.entity.change_gov_token_endpoint(&ctx, &b"GOV-654321".to_vec(), 100, false).unwrap();
    assert_eq!(setup.entity.config.quorum, 1);
    assert_eq!(setup.entity.config.min_propose_weight, 1);
    setup.entity.change_gov_token_endpoint(&ctx, &b"GOV-abcdef".to_vec(), 0, false).unwrap();
    assert_eq!(setup.entity.config.quorum, 1);
    assert_eq!(setup.entity.config.gov_token_id, b"GOV-abcdef".to_vec());
}

#[test]
fn the_actions_hash_is_the_keccak_digest_of_the_serialized_actions() {
    let receiver = address(b"receiver");
    let actions = vec![call_action(&receiver, b"myendpoint", 5, Vec::new(), vec![b"arg1".to_vec()])];
    let hash = calculate_actions_hash(&actions);
    assert_eq!(hash, keccak256(&serialize_actions(&actions)).to_vec());
    let other = vec![call_action(&receiver, b"yourendpoint", 5, Vec::new(), vec![b"arg1".to_vec()])];
    assert_ne!(hash, calculate_actions_hash(&other));
}

#[test]
fn the_trusted_host_signature_is_checked() {
    let mut setup = Setup::new();
    setup.configure_gov_token(false);
    let owner = setup.owner_address.clone();
    let good = setup.sign(&owner, b"th", b"", b"", &Vec::new());
    let mut bad = good.clone();
    bad[0] ^= 1;
    let ctx = setup.ctx(&owner, 0, gov(QURUM));
    assert_eq!(err(setup.entity.propose_endpoint(&ctx, b"th".to_vec(), Vec::new(), bad, Vec::new(), 0, Vec::new())), EntityError::InvalidSignature);
    assert!(setup.entity.propose_endpoint(&ctx, b"th".to_vec(), Vec::new(), good, Vec::new(), 0, Vec::new()).is_ok());
    let mut open = EntityContract::init(Vec::new(), Some(owner.clone()));
    open.config.gov_token_id = GOV_TOKEN_ID.to_vec();
    assert!(open.propose_endpoint(&ctx, b"th".to_vec(), Vec::new(), Vec::new(), Vec::new(), 0, Vec::new()).is_ok());
}

#[test]
fn token_identifiers_are_validated() {
    let mut setup = Setup::new();
    let ctx = setup.self_ctx();
    for bad in [&b"bad"[..], b"gov-123456", b"GOV-12345", b"GOV123456", b"GOV-12345G", b"TOOLONGTICKER-123456"] {
        assert_eq!(setup.entity.change_gov_token_endpoint(&ctx, &bad.to_vec(), 0, false), Err(EntityError::InvalidTokenId));
    }
    assert_eq!(setup.entity.change_gov_token_endpoint(&ctx, &b"ABC-a1b2c3".to_vec(), 0, false), Ok(()));
}

#[test]
fn configuration_refusals() {
    let mut setup = Setup::new();
    let ctx = setup.self_ctx();
    assert_eq!(setup.entity.change_quorum_endpoint(&ctx, 5), Err(EntityError::GovTokenMustBeSet));
    setup.configure_gov_token(false);
    assert_eq!(setup.entity.change_quorum_endpoint(&ctx, 0), Err(EntityError::InvalidQuorum));
    assert_eq!(setup.entity.change_min_vote_weight_endpoint(&ctx, 0), Err(EntityError::MinVoteWeightZero));
    assert_eq!(setup.entity.change_min_propose_weight_endpoint(&ctx, 0), Err(EntityError::MinProposeWeightZero));
    assert_eq!(setup.entity.change_voting_period_in_minutes_endpoint(&ctx, 0), Err(EntityError::VotingPeriodZero));
    assert_eq!(setup.entity.change_voting_period_in_minutes_endpoint(&ctx, 20_161), Err(EntityError::VotingPeriodTooLong));
    assert_eq!(setup.entity.change_voting_period_in_minutes_endpoint(&ctx, 20_160), Ok(()));
    assert_eq!(setup.entity.change_quorum_endpoint(&ctx, 7), Ok(()));
    assert_eq!(setup.entity.config.quorum, 7);
}

#[test]
fn role_and_policy_refusals() {
    let mut setup = Setup::new();
    let members = &mut setup.entity.members;
    members.create_role(b"builder".to_vec()).unwrap();
    assert_eq!(members.create_role(b"builder".to_vec()), Err(EntityError::RoleAlreadyExists));
    assert_eq!(members.assign_role(&address(b"a"), &b"missing".to_vec()), Err(EntityError::RoleDoesNotExist));
    assert_eq!(members.create_policy(&b"builder".to_vec(), b"perm".to_vec(), PolicyMethod::One, 0, 10), Err(EntityError::PermissionDoesNotExist));
    members.create_permission(b"perm".to_vec(), 0, address(b"r"), Vec::new(), Vec::new(), Vec::new());
    assert_eq!(members.create_policy(&b"builder".to_vec(), b"perm".to_vec(), PolicyMethod::One, 0, 10), Ok(()));
    assert_eq!(members.create_policy(&b"builder".to_vec(), b"perm".to_vec(), PolicyMethod::All, 0, 10), Err(EntityError::PolicyAlreadyExists));
    let owner = setup.owner_address.clone();
    let ctx = setup.self_ctx();
    assert_eq!(setup.entity.unassign_role_endpoint(&ctx, &role_builtin_leader(), &owner), Err(EntityError::LastLeader));
    assert!(setup.entity.members.has_leader_role(&owner));
    let policies = setup.entity.get_policies_view(&b"builder".to_vec());
    assert_eq!(policies, vec![(b"perm".to_vec(), b"one".to_vec(), 0u128, 10usize)]);
}

#[test]
fn governance_token_setup_refusals() {
    let mut setup = Setup::new();
    let user = setup.user_address.clone();
    let owner = setup.owner_address.clone();
    let user_ctx = setup.ctx(&user, 0, Vec::new());
    let owner_ctx = setup.ctx(&owner, 0, Vec::new());
    assert_eq!(setup.entity.init_gov_token_endpoint(&user_ctx, &b"GOV-123456".to_vec(), 1000, false), Err(EntityError::CallerMustBeLeader));
    assert!(matches!(setup.entity.issue_gov_token_endpoint(&user_ctx, &b"Gov".to_vec(), &b"GOV".to_vec(), 1000), Err(EntityError::OnlyAllowedForLeader)));
    assert!(matches!(setup.entity.issue_gov_token_endpoint(&owner_ctx, &b"Gov".to_vec(), &b"GOV".to_vec(), 0), Err(EntityError::AmountMustBePositive)));
    let request = setup.entity.issue_gov_token_endpoint(&owner_ctx, &b"Gov".to_vec(), &b"GOV".to_vec(), 1000).unwrap();
    assert_eq!(request.initial_supply, 1000);
    assert_eq!(setup.entity.init_gov_token_endpoint(&owner_ctx, &b"GOV-123456".to_vec(), 1000, false), Ok(()));
    assert_eq!(setup.entity.init_gov_token_endpoint(&owner_ctx, &b"GOV-123456".to_vec(), 1000, false), Err(EntityError::GovTokenAlreadySet));
    assert!(matches!(setup.entity.issue_gov_token_endpoint(&owner_ctx, &b"Gov".to_vec(), &b"GOV".to_vec(), 1000), Err(EntityError::GovernanceTokenAlreadySet)));
    assert!(setup.entity.send_received_egld(&owner_ctx, &owner).is_none());
}

#[test]
fn proposing_refusals() {
    let mut setup = Setup::new();
    setup.configure_gov_token(false);
    let user = setup.user_address.clone();
    let owner = setup.owner_address.clone();
    let action = call_action(&address(b"receiver"), b"myendpoint", 0, Vec::new(), Vec::new());
    let hash = calculate_actions_hash(&vec![action]);
    assert_eq!(err(setup.propose(&user, 0, gov(QURUM), b"", hash, POLL_DEFAULT_ID, Vec::new())), EntityError::ActionNotAllowedForUser);
    assert_eq!(err(setup.propose(&owner, 0, gov(QURUM), b"", b"short".to_vec(), POLL_DEFAULT_ID, Vec::new())), EntityError::InvalidActionsHash);
    assert_eq!(err(setup.propose(&owner, u64::MAX - 10, gov(QURUM), b"", Vec::new(), POLL_DEFAULT_ID, Vec::new())), EntityError::TimestampOverflow);
    let huge = vec![
        Payment { token_identifier: GOV_TOKEN_ID.to_vec(), token_nonce: 0, amount: u128::MAX },
        Payment { token_identifier: GOV_TOKEN_ID.to_vec(), token_nonce: 0, amount: 1 },
    ];
    assert_eq!(err(setup.propose(&owner, 0, huge, b"", Vec::new(), POLL_DEFAULT_ID, Vec::new())), EntityError::AmountOverflow);
    assert_eq!(1, setup.entity.governance.next_proposal_id);
}

#[test]
fn voting_refusals() {
    let mut setup = Setup::new();
    setup.configure_gov_token(false);
    let owner = setup.owner_address.clone();
    let (id, _) = setup.propose(&owner, 0, gov(QURUM), b"", Vec::new(), POLL_DEFAULT_ID, Vec::new()).unwrap();
    assert_eq!(err(setup.vote_for(&owner, 0, gov(0), id)), EntityError::VoteWeightZero);
    assert_eq!(err(setup.vote_for(&owner, 0, gov(5), 99)), EntityError::ProposalDoesNotExist);
    setup.entity.config.min_vote_weight = 10;
    assert_eq!(err(setup.vote_for(&owner, 0, gov(5), id)), EntityError::NotEnoughVoteWeight);
    let ctx = setup.ctx(&owner, 0, Vec::new());
    assert_eq!(setup.entity.sign_endpoint(&ctx, 99, None), Err(EntityError::StorageDecode));
    assert_eq!(Ok((QURUM, 0)), setup.entity.get_proposal_votes_view(id));
}

#[test]
fn poll_votes_add_up() {
    let mut setup = Setup::new();
    setup.configure_gov_token(false);
    let owner = setup.owner_address.clone();
    let (id, _) = setup.propose(&owner, 0, gov(QURUM), b"", Vec::new(), 3, Vec::new()).unwrap();
    let ctx = setup.ctx(&owner, 0, gov(4));
    setup.entity.vote_for_endpoint(&ctx, id, Some(3)).unwrap();
    let sign_ctx = setup.ctx(&owner, 0, Vec::new());
    setup.entity.sign_endpoint(&sign_ctx, id, Some(2)).unwrap();
    let results = setup.entity.get_proposal_poll_results_view(id);
    // The results list the options from 1 on.
    assert_eq!(results.len(), 20);
    assert_eq!(results[1], 1);
    assert_eq!(results[2], QURUM + 4);
    assert_eq!(results[0], 0);
}

#[test]
fn execution_guards_the_deposited_tokens() {
    let mut setup = Setup::new();
    setup.configure_gov_token(false);
    let owner = setup.owner_address.clone();
    let receiver = address(b"receiver");
    setup.propose(&owner, 0, gov(10), b"", Vec::new(), POLL_DEFAULT_ID, Vec::new()).unwrap();
    let spend = |amount: u128| vec![call_action(&receiver, b"", 0, gov(amount), Vec::new())];
    let mut balances: Store<u64, u128> = Store::new();
    balances.insert(0, 30);
    assert_eq!(setup.entity.execute_actions(&spend(20), &balances).unwrap().len(), 1);
    assert_eq!(err(setup.entity.execute_actions(&spend(21), &balances)), EntityError::NotEnoughGovTokensAvailable);
    let mut poor: Store<u64, u128> = Store::new();
    poor.insert(0, 5);
    assert_eq!(err(setup.entity.execute_actions(&spend(1), &poor)), EntityError::NegativeAmount);
}

#[test]
fn untruthful_permissions_are_refused() {
    let mut setup = Setup::new();
    setup.configure_gov_token(false);
    let owner = setup.owner_address.clone();
    let receiver = address(b"receiver");
    setup.entity.members.create_permission(b"perm".to_vec(), 0, address(b"elsewhere"), Vec::new(), Vec::new(), Vec::new());
    let action = call_action(&receiver, b"myendpoint", 0, Vec::new(), Vec::new());
    let hash = calculate_actions_hash(&vec![copy_action(&action)]);
    let (id, _) = setup.propose(&owner, 0, gov(QURUM), b"", hash, POLL_DEFAULT_ID, vec![b"perm".to_vec()]).unwrap();
    let ctx = setup.ctx(&owner, after_voting_period(), Vec::new());
    assert_eq!(err(setup.entity.execute_endpoint(&ctx, id, &vec![action], &Store::new())), EntityError::UntruthfulPermissions);
}

#[test]
fn contract_stage_refusals() {
    let mut setup = Setup::new();
    let developer = address(b"developer");
    let target = address(b"target");
    setup.entity.members.create_role(role_builtin_developer()).unwrap();
    setup.entity.members.assign_role(&developer, &role_builtin_developer()).unwrap();
    let self_ctx = setup.self_ctx();
    let dev_ctx = setup.ctx(&developer, 0, Vec::new());
    let sc = setup.contract_address.clone();
    assert_eq!(setup.entity.unlock_contract_stage_endpoint(&self_ctx, &target), Err(EntityError::ContractStageUnlockedAlready));
    assert_eq!(setup.entity.stage_contract_endpoint(&dev_ctx, &sc, b"code".to_vec()), Err(EntityError::AddressMustNotBeSelf));
    assert_eq!(setup.entity.stage_contract_endpoint(&dev_ctx, &target, Vec::new()), Err(EntityError::CodeMustNotBeEmpty));
    assert_eq!(setup.entity.stage_contract_endpoint(&dev_ctx, &target, b"code".to_vec()), Ok(()));
    assert_eq!(setup.entity.lock_contract_stage_endpoint(&self_ctx, &target), Err(EntityError::ContractStageLockedAlready));
    assert_eq!(setup.entity.get_contract_stage_view(&target), (true, b"code".to_vec()));
    assert_eq!(setup.entity.unlock_contract_stage_endpoint(&self_ctx, &target), Ok(()));
    assert_eq!(setup.entity.get_contract_stage_view(&target), (false, Vec::new()));
    assert_eq!(setup.entity.lock_contract_stage_endpoint(&dev_ctx, &target), Err(EntityError::ActionNotAllowedByUser));
    // An empty stage can be locked, and unlocked again.
    assert_eq!(setup.entity.lock_contract_stage_endpoint(&self_ctx, &target), Ok(()));
    assert_eq!(setup.entity.get_contract_stage_view(&target), (true, Vec::new()));
    assert_eq!(setup.entity.unlock_contract_stage_endpoint(&self_ctx, &target), Ok(()));
}

#[test]
fn the_plug_is_asked_only_when_plugged() {
    let mut setup = Setup::new();
    let user = setup.user_address.clone();
    let ctx = setup.ctx(&user, 0, Vec::new());
    assert!(matches!(setup.entity.call_plug_vote_weight_async(&ctx), Err(EntityError::NotPlugged)));
    setup.entity.plug.plug_contract = address(b"plug");
    setup.configure_gov_token(false);
    let query = setup.entity.call_plug_vote_weight_async(&ctx).unwrap();
    assert_eq!(query.plug_contract, address(b"plug"));
    assert_eq!(query.address, user);
    assert_eq!(query.token, Some(GOV_TOKEN_ID.to_vec()));
    assert_eq!(setup.entity.get_plug_view(), (address(b"plug"), 0));
    assert!(!setup.entity.has_user_plug_voted_view(1, &user));
}

#[test]
fn error_messages_match_the_contract() {
    assert_eq!(EntityError::ActionNotAllowedForUser.message(), "action not allowed for user");
    assert_eq!(EntityError::NotEnoughGovTokensAvailable.message(), "not enough governance tokens available");
    assert_eq!(EntityError::InvalidSignature.message(), "invalid signature");
    assert_eq!(EntityError::InvalidPaymentToken.message(), "invalid token");
    assert_eq!(EntityError::NotTrustedHost.message(), "not a trusted host");
}

#[test]
fn the_trusted_host_changes_the_vote_token_lock() {
    let mut setup = Setup::new();
    let host = setup.trusted_host.public.to_bytes().to_vec();
    let owner = setup.owner_address.clone();
    let token = GOV_TOKEN_ID.to_vec();
    let owner_ctx = setup.ctx(&owner, 0, Vec::new());
    assert_eq!(setup.entity.change_vote_token_lock_endpoint(&owner_ctx, &token, true), Err(EntityError::ActionNotAllowedByUser));
    let host_ctx = setup.ctx(&host, 0, Vec::new());
    assert_eq!(setup.entity.change_vote_token_lock_endpoint(&host_ctx, &token, true), Ok(()));
    assert!(setup.entity.config.is_locking_vote_tokens(&token));
    let dns = address(b"dns");
    assert!(matches!(setup.entity.register_dns(&owner_ctx, dns.clone(), b"mydao".to_vec()), Err(EntityError::ActionNotAllowedByUser)));
    let mut paid = setup.self_ctx();
    paid.egld_value = 7;
    let registration = setup.entity.register_dns(&paid, dns.clone(), b"mydao".to_vec()).unwrap();
    assert_eq!((registration.dns_address, registration.name, registration.egld_value), (dns, b"mydao".to_vec(), 7));
    let burn = setup.entity.burn_endpoint(&setup.self_ctx(), GOV_TOKEN_ID.to_vec(), 2, 9).unwrap();
    assert_eq!((burn.token_nonce, burn.amount), (2, 9));
    assert!(matches!(setup.entity.burn_endpoint(&owner_ctx, GOV_TOKEN_ID.to_vec(), 2, 9), Err(EntityError::ActionNotAllowedByUser)));
}

#[test]
fn every_action_of_a_succeeded_proposal_is_executed_in_order() {
    let mut setup = Setup::new();
    setup.configure_gov_token(false);
    let owner = setup.owner_address.clone();
    let first = address(b"first");
    let second = address(b"second");
    let actions = vec![
        call_action(&first, b"pay", 3, Vec::new(), Vec::new()),
        call_action(&second, b"call", 0, Vec::new(), vec![b"arg".to_vec()]),
        call_action(&first, b"again", 5, Vec::new(), Vec::new()),
    ];
    let hash = calculate_actions_hash(&actions);
    let (id, _) = setup.propose(&owner, 0, gov(QURUM), b"", hash, POLL_DEFAULT_ID, Vec::new()).unwrap();
    let ctx = setup.ctx(&owner, 0, Vec::new());
    let calls: Vec<ActionCall> = setup.entity.execute_endpoint(&ctx, id, &actions, &Store::new()).unwrap();
    assert_eq!(calls.len(), 3);
    assert_eq!((calls[0].destination.clone(), calls[0].endpoint.clone(), calls[0].egld_value), (first.clone(), b"pay".to_vec(), 3));
    assert_eq!((calls[1].destination.clone(), calls[1].endpoint.clone(), calls[1].egld_value), (second.clone(), b"call".to_vec(), 0));
    assert_eq!(calls[1].arguments, vec![b"arg".to_vec()]);
    assert_eq!((calls[2].destination.clone(), calls[2].endpoint.clone(), calls[2].egld_value), (first.clone(), b"again".to_vec(), 5));
}

#[test]
fn unassigning_the_leader_role_from_a_non_holder_changes_nothing() {
    let mut setup = Setup::new();
    setup.configure_gov_token(false);
    let owner = setup.owner_address.clone();
    let stranger = address(b"stranger");
    let ctx = setup.self_ctx();
    assert_eq!(setup.entity.unassign_role_endpoint(&ctx, &role_builtin_leader(), &stranger), Ok(()));
    assert!(setup.entity.members.has_leader_role(&owner));
    assert_eq!(1, setup.entity.members.member_amount_of(&role_builtin_leader()));
}

#[test]
fn voting_records_each_deposited_nonce_once() {
    let mut setup = Setup::new();
    setup.configure_gov_token(true);
    let owner = setup.owner_address.clone();
    let voter = setup.user_address.clone();
    let (id, _) = setup.propose(&owner, 0, gov(QURUM), b"", Vec::new(), POLL_DEFAULT_ID, Vec::new()).unwrap();
    let payments = vec![
        Payment { token_identifier: GOV_TOKEN_ID.to_vec(), token_nonce: 3, amount: 1 },
        Payment { token_identifier: GOV_TOKEN_ID.to_vec(), token_nonce: 0, amount: 4 },
        Payment { token_identifier: GOV_TOKEN_ID.to_vec(), token_nonce: 3, amount: 2 },
    ];
    setup.vote_for(&voter, 0, payments, id).unwrap();
    assert_eq!(setup.entity.governance.withdrawable_proposal_token_nonces(id, &voter), vec![3, 0]);
    assert_eq!(setup.entity.governance.withdrawable_proposal_token_nonces(id, &owner), vec![0]);
}
