use ed25519_dalek::{Keypair, PublicKey, SecretKey, Signer};
use entity::config::{CallContext, Payment};
use entity::contract::ContractDeployment;
use entity::errors::EntityError;
use entity::governance::proposal::{calculate_actions_hash, Action, Proposal, ProposalStatus};
use entity::permission::{role_builtin_developer, role_builtin_leader, PolicyMethod};
use entity::store::Store;
use entity::contract::ContractModule;
use entity::governance::GovernanceModule;
use entity::{Entity, EntityContract};
use multiversx_sc_scenario::multiversx_chain_vm::crypto_functions::keccak256;

const GOV_TOKEN_ID: &[u8] = b"SUPER-abcdef";
const GOV_TOKEN_SUPPLY: u128 = 1_000;
const FAKE_TOKEN_ID: &[u8] = b"FAKE-abcdef";
const MIN_WEIGHT_FOR_PROPOSAL: u128 = 2;
const POLL_DEFAULT_ID: u8 = 0;
const QURUM: u128 = 50;
const VOTING_PERIOD_MINUTES_DEFAULT: u64 = 4320;

fn address(name: &[u8]) -> Vec<u8> {
    let mut a = name.to_vec();
    a.resize(32, b'_');
    a
}

struct Setup {
    entity: EntityContract,
    trusted_host: Keypair,
    owner_address: Vec<u8>,
    user_address: Vec<u8>,
    contract_address: Vec<u8>,
    next_trusted_host_id: u32,
}

impl Setup {
    fn new() -> Setup {
        let secret = SecretKey::from_bytes(&[7u8; 32]).unwrap();
        let public = PublicKey::from(&secret);
        let trusted_host = Keypair { secret, public };
        let owner_address = address(b"owner");
        let entity = EntityContract::init(trusted_host.public.to_bytes().to_vec(), Some(owner_address.clone()));
        Setup {
            entity,
            trusted_host,
            owner_address,
            user_address: address(b"user"),
            contract_address: address(b"entity"),
            next_trusted_host_id: 0,
        }
    }

    fn configure_gov_token(&mut self, lock_vote_tokens: bool) {
        self.entity.config.gov_token_id = GOV_TOKEN_ID.to_vec();
        self.entity.config.quorum = QURUM;
        self.entity.config.min_propose_weight = MIN_WEIGHT_FOR_PROPOSAL;
        if lock_vote_tokens {
            self.entity.config.lock_vote_tokens.insert(GOV_TOKEN_ID.to_vec(), true);
        }
    }

    fn ctx(&self, caller: &Vec<u8>, now: u64, payments: Vec<Payment>) -> CallContext {
        CallContext {
            caller: caller.clone(),
            sc_address: self.contract_address.clone(),
            block_timestamp: now,
            egld_value: 0,
            esdt_transfers: payments,
        }
    }

    fn sign(&self, proposer: &Vec<u8>, trusted_host_id: &[u8], content_hash: &[u8], actions_hash: &[u8], permissions: &Vec<Vec<u8>>) -> Vec<u8> {
        let mut signable = proposer.clone();
        signable.extend_from_slice(&self.contract_address);
        signable.extend_from_slice(trusted_host_id);
        signable.extend_from_slice(content_hash);
        signable.extend_from_slice(actions_hash);
        for p in permissions {
            signable.extend_from_slice(p);
        }
        let digest = keccak256(&signable);
        self.trusted_host.sign(&digest).to_bytes().to_vec()
    }

    fn propose(
        &mut self,
        proposer: &Vec<u8>,
        now: u64,
        payments: Vec<Payment>,
        content_hash: &[u8],
        actions_hash: Vec<u8>,
        option_id: u8,
        permissions: Vec<Vec<u8>>,
    ) -> Result<(u64, Vec<Payment>), EntityError> {
        self.next_trusted_host_id += 1;
        let trusted_host_id = format!("id{}", self.next_trusted_host_id).into_bytes();
        let sig = self.sign(proposer, &trusted_host_id, content_hash, &actions_hash, &permissions);
        let ctx = self.ctx(proposer, now, payments);
        self.entity.propose_endpoint(&ctx, trusted_host_id, content_hash.to_vec(), sig, actions_hash, option_id, permissions)
    }

    fn vote_for(&mut self, voter: &Vec<u8>, now: u64, payments: Vec<Payment>, proposal_id: u64) -> Result<Vec<Payment>, EntityError> {
        let ctx = self.ctx(voter, now, payments);
        self.entity.vote_for_endpoint(&ctx, proposal_id, None)
    }

    fn vote_against(&mut self, voter: &Vec<u8>, now: u64, payments: Vec<Payment>, proposal_id: u64) -> Result<Vec<Payment>, EntityError> {
        let ctx = self.ctx(voter, now, payments);
        self.entity.vote_against_endpoint(&ctx, proposal_id, None)
    }

    fn deposited(&self, proposal_id: u64, voter: &Vec<u8>, nonce: u64) -> u128 {
        match self.entity.governance.withdrawable_votes.get(&(proposal_id, voter.clone())) {
            Some(list) => list.iter().filter(|p| p.token_nonce == nonce).map(|p| p.amount).sum(),
            None => 0,
        }
    }

    fn withdrawable_ids(&self, voter: &Vec<u8>) -> Vec<u64> {
        match self.entity.governance.withdrawable_proposal_ids.get(voter) {
            Some(ids) => ids.clone(),
            None => Vec::new(),
        }
    }

    fn signers(&self, proposal_id: u64, role: &[u8]) -> Vec<usize> {
        self.entity.governance.get_signers(proposal_id, &role.to_vec())
    }
}

fn gov(amount: u128) -> Vec<Payment> {
    vec![Payment { token_identifier: GOV_TOKEN_ID.to_vec(), token_nonce: 0, amount }]
}

fn gov_nft(nonce: u64, amount: u128) -> Vec<Payment> {
    vec![Payment { token_identifier: GOV_TOKEN_ID.to_vec(), token_nonce: nonce, amount }]
}

fn call_action(destination: &Vec<u8>, endpoint: &[u8], value: u128, payments: Vec<Payment>, arguments: Vec<Vec<u8>>) -> Action {
    Action {
        destination: destination.clone(),
        endpoint: endpoint.to_vec(),
        value,
        payments,
        arguments,
        gas_limit: 5_000_000,
    }
}

fn copy_action(a: &Action) -> Action {
    let payments = a
        .payments
        .iter()
        .map(|p| Payment { token_identifier: p.token_identifier.clone(), token_nonce: p.token_nonce, amount: p.amount })
        .collect();
    call_action(&a.destination, &a.endpoint, a.value, payments, a.arguments.clone())
}

fn refusal_message<T>(result: Result<T, EntityError>) -> &'static str {
    match result {
        Err(e) => e.message(),
        Ok(_) => panic!("expected a refusal"),
    }
}

fn store_dummy_proposal(setup: &mut Setup, actions: &Vec<Action>) {
    let ends_at = setup.entity.config.voting_period_in_minutes as u64 * 60;
    let proposal = Proposal {
        id: 0,
        proposer: vec![0u8; 32],
        content_hash: Vec::new(),
        actions_hash: calculate_actions_hash(actions),
        starts_at: 0,
        ends_at,
        was_executed: false,
        votes_for: setup.entity.config.quorum,
        votes_against: 0,
        permissions: Vec::new(),
    };
    setup.entity.governance.proposals.insert(0, proposal);
}

fn after_voting_period() -> u64 {
    VOTING_PERIOD_MINUTES_DEFAULT * 60 + 1
}

#[test]
fn setup_it_initializes_the_contract() {
    let setup = Setup::new();
    assert_eq!(setup.trusted_host.public.to_bytes().to_vec(), setup.entity.config.trusted_host_address);
}

#[test]
fn it_changes_the_governance_token_if_contract_calls_itself() {
    let mut setup = Setup::new();
    let ctx = setup.ctx(&setup.contract_address.clone(), 0, Vec::new());
    let result = setup.entity.change_gov_token_endpoint(&ctx, &b"GOV-123456".to_vec(), 1_000, false);
    assert!(result.is_ok());
    assert_eq!(setup.entity.config.gov_token_id, b"GOV-123456".to_vec());
}

#[test]
fn config_gov_token_tests_it_fails_if_caller_not_self() {
    let mut setup = Setup::new();
    let ctx = setup.ctx(&setup.owner_address.clone(), 0, Vec::new());
    let result = setup.entity.change_gov_token_endpoint(&ctx, &b"GOV-123456".to_vec(), 1_000, false);
    assert!(matches!(result, Err(EntityError::ActionNotAllowedByUser)));
    assert_eq!(EntityError::ActionNotAllowedByUser.message(), "action not allowed by user");
}

#[test]
fn it_changes_the_min_proposal_vote_weight_if_entity_is_sealed_but_contract_calls_itself() {
    let mut setup = Setup::new();
    setup.configure_gov_token(false);
    let ctx = setup.ctx(&setup.contract_address.clone(), 0, Vec::new());
    assert!(setup.entity.change_min_propose_weight_endpoint(&ctx, 1000).is_ok());
    assert_eq!(setup.entity.config.min_propose_weight, 1000);
}

#[test]
fn it_fails_if_the_entity_is_sealed() {
    let mut setup = Setup::new();
    setup.configure_gov_token(false);
    let ctx = setup.ctx(&setup.owner_address.clone(), 0, Vec::new());
    let result = setup.entity.change_min_propose_weight_endpoint(&ctx, 1000);
    assert!(matches!(result, Err(EntityError::ActionNotAllowedByUser)));
    assert_eq!(setup.entity.config.min_propose_weight, MIN_WEIGHT_FOR_PROPOSAL);
}

#[test]
fn it_locks_and_unlocks_contract_stage() {
    let mut setup = Setup::new();
    let contract_address = setup.contract_address.clone();
    let ctx = setup.ctx(&contract_address, 0, Vec::new());

    assert_eq!(setup.entity.lock_contract_stage_endpoint(&ctx, &contract_address), Ok(()));
    assert!(setup.entity.contracts.is_stage_locked(&contract_address), "contract stage should be locked");

    assert_eq!(setup.entity.unlock_contract_stage_endpoint(&ctx, &contract_address), Ok(()));
    assert!(!setup.entity.contracts.is_stage_locked(&contract_address), "contract stage should be unlocked");
}

#[test]
fn it_stages_contract_and_creates_proposal_when_caller_has_permission() {
    let mut setup = Setup::new();
    let contract_address = setup.contract_address.clone();
    let dev_address = address(b"developer");

    setup.entity.members.create_role(role_builtin_developer()).unwrap();
    setup.entity.members.assign_role(&dev_address, &role_builtin_developer()).unwrap();
    setup.entity.members.create_permission(
        b"activateSc".to_vec(),
        0,
        contract_address.clone(),
        b"stageContractAndPropose".to_vec(),
        Vec::new(),
        Vec::new(),
    );
    setup
        .entity
        .members
        .create_policy(&role_builtin_developer(), b"activateSc".to_vec(), PolicyMethod::Quorum, 1, 1)
        .unwrap();

    let actions = vec![call_action(&contract_address, b"stageContractAndPropose", 0, Vec::new(), Vec::new())];
    let actions_hash = calculate_actions_hash(&actions);
    let permissions = vec![b"activateSc".to_vec()];
    // The trusted host of this setup signs for real, so the signature is a valid one.
    let content_sig = setup.sign(&dev_address, b"trusted_host_id", b"content_hash", &actions_hash, &permissions);
    let ctx = setup.ctx(&dev_address, 0, Vec::new());

    let proposal_id = setup
        .entity
        .stage_contract_and_propose_endpoint(
            &ctx,
            &dev_address,
            b"new_code".to_vec(),
            b"trusted_host_id".to_vec(),
            b"content_hash".to_vec(),
            content_sig,
            actions_hash,
            permissions,
        )
        .unwrap();

    assert!(setup.entity.contracts.is_stage_locked(&dev_address), "contract stage should be locked");
    assert_eq!(setup.entity.get_contract_stage_view(&dev_address), (true, b"new_code".to_vec()), "contract should be staged");
    let proposal = setup.entity.governance.get_proposal(proposal_id).unwrap();
    assert_eq!(proposal.proposer, dev_address);
}

#[test]
fn it_fails_stage_contract_by_non_developer() {
    let mut setup = Setup::new();
    let non_dev_address = address(b"nondev");
    let ctx = setup.ctx(&non_dev_address, 0, Vec::new());
    let result = setup.entity.stage_contract_endpoint(&ctx, &non_dev_address, b"dummy_code".to_vec());
    assert!(matches!(result, Err(EntityError::CallerMustBeDeveloper)));
    assert_eq!(EntityError::CallerMustBeDeveloper.message(), "caller must be developer");
}

#[test]
fn it_fails_activate_contract_when_no_code_staged() {
    let mut setup = Setup::new();
    let contract_address = setup.contract_address.clone();
    let ctx = setup.ctx(&contract_address, 0, Vec::new());
    let result: Result<ContractDeployment, EntityError> = setup.entity.activate_contract_endpoint(&ctx, &contract_address, 0, Vec::new());
    assert!(matches!(result, Err(EntityError::ContractNotStaged)));
    assert_eq!(EntityError::ContractNotStaged.message(), "contract not staged");
}

#[test]
fn it_mints_if_contract_calls_itself() {
    let setup = Setup::new();
    let ctx = setup.ctx(&setup.contract_address, 0, Vec::new());
    let mint = setup.entity.mint_endpoint(&ctx, b"TOKEN-123456".to_vec(), 0, 1_000).unwrap();
    assert_eq!(mint.token_identifier, b"TOKEN-123456".to_vec());
    assert_eq!(mint.token_nonce, 0);
    assert_eq!(mint.amount, 1_000);
}

#[test]
fn token_mint_tests_it_fails_if_caller_not_self() {
    let setup = Setup::new();
    let ctx = setup.ctx(&setup.owner_address, 0, Vec::new());
    let result = setup.entity.mint_endpoint(&ctx, b"TOKEN-123456".to_vec(), 0, 1_000);
    assert!(matches!(result, Err(EntityError::ActionNotAllowedByUser)));
}

#[test]
fn it_creates_a_role() {
    let mut setup = Setup::new();
    assert!(setup.entity.members.create_role(b"testrole".to_vec()).is_ok());
    assert!(setup.entity.members.roles.contains(&b"testrole".to_vec()));
}

#[test]
fn it_creates_a_permission() {
    let mut setup = Setup::new();
    let sc_address = setup.contract_address.clone();
    setup.entity.members.create_permission(b"testperm".to_vec(), 0, sc_address.clone(), b"endpoint".to_vec(), Vec::new(), Vec::new());
    assert!(setup.entity.members.permissions.contains(&b"testperm".to_vec()));
    let details = setup.entity.members.permission_details.get(&b"testperm".to_vec()).unwrap();
    assert_eq!(sc_address, details.destination);
    assert_eq!(b"endpoint".to_vec(), details.endpoint);
}

#[test]
fn it_assigns_a_role() {
    let mut setup = Setup::new();
    let user_address = setup.user_address.clone();
    setup.entity.members.create_role(b"testrole".to_vec()).unwrap();
    setup.entity.members.assign_role(&user_address, &b"testrole".to_vec()).unwrap();
    assert!(setup.entity.members.get_user_roles(&user_address).contains(&b"testrole".to_vec()));
    assert_eq!(1, setup.entity.members.member_amount_of(&b"testrole".to_vec()));
}

#[test]
fn it_only_increases_role_member_count_once_per_assigned_user() {
    let mut setup = Setup::new();
    let user_address = setup.user_address.clone();
    setup.entity.members.create_role(b"testrole".to_vec()).unwrap();
    setup.entity.members.assign_role(&user_address, &b"testrole".to_vec()).unwrap();
    setup.entity.members.assign_role(&user_address, &b"testrole".to_vec()).unwrap();
    assert_eq!(1, setup.entity.members.member_amount_of(&b"testrole".to_vec()));
}

fn builder_with_permission(setup: &mut Setup, proposer: &Vec<u8>, receiver: &Vec<u8>, permission_arguments: Vec<Vec<u8>>) {
    setup.entity.members.create_role(b"builder".to_vec()).unwrap();
    setup.entity.members.assign_role(proposer, &b"builder".to_vec()).unwrap();
    setup.entity.members.create_permission(b"addressAndEndpoint".to_vec(), 0, receiver.clone(), b"myendpoint".to_vec(), permission_arguments, Vec::new());
    setup
        .entity
        .members
        .create_policy(&b"builder".to_vec(), b"addressAndEndpoint".to_vec(), PolicyMethod::All, 0, 10)
        .unwrap();
}

#[test]
fn it_matches_a_permission_based_on_destination_only() {
    let mut setup = Setup::new();
    let proposer = setup.user_address.clone();
    let receiver = address(b"receiver");
    setup.configure_gov_token(true);
    setup.entity.members.create_role(b"builder".to_vec()).unwrap();
    setup.entity.members.assign_role(&proposer, &b"builder".to_vec()).unwrap();
    setup.entity.members.create_permission(b"addressOnlyPerm".to_vec(), 0, receiver.clone(), Vec::new(), Vec::new(), Vec::new());
    setup
        .entity
        .members
        .create_policy(&b"builder".to_vec(), b"addressOnlyPerm".to_vec(), PolicyMethod::All, 0, 10)
        .unwrap();

    let actions = vec![call_action(&receiver, b"myendpoint", 0, Vec::new(), Vec::new())];
    let actions_hash = calculate_actions_hash(&actions);
    let (proposal_id, _) = setup
        .propose(&proposer, 0, gov(QURUM), b"", actions_hash, POLL_DEFAULT_ID, vec![b"addressOnlyPerm".to_vec()])
        .unwrap();

    let proposal = setup.entity.governance.get_proposal(proposal_id).unwrap();
    let actual = setup.entity.get_actual_permissions(&proposal, &actions);
    assert_eq!(1, actual.len());
}

#[test]
fn it_matches_a_permission_based_on_destination_and_endpoint() {
    let mut setup = Setup::new();
    let proposer = setup.user_address.clone();
    let receiver = address(b"receiver");
    setup.configure_gov_token(true);
    builder_with_permission(&mut setup, &proposer, &receiver, Vec::new());

    let actions = vec![call_action(&receiver, b"myendpoint", 0, Vec::new(), Vec::new())];
    let actions_hash = calculate_actions_hash(&actions);
    let (proposal_id, _) = setup
        .propose(&proposer, 0, gov(QURUM), b"", actions_hash, POLL_DEFAULT_ID, vec![b"addressAndEndpoint".to_vec()])
        .unwrap();

    let proposal = setup.entity.governance.get_proposal(proposal_id).unwrap();
    let actual = setup.entity.get_actual_permissions(&proposal, &actions);
    assert_eq!(1, actual.len());
}

#[test]
fn it_matches_a_permission_based_on_destination_and_endpoint_and_one_argument() {
    let mut setup = Setup::new();
    let proposer = setup.user_address.clone();
    let receiver = address(b"receiver");
    setup.configure_gov_token(true);
    builder_with_permission(&mut setup, &proposer, &receiver, vec![b"testarg".to_vec()]);

    let proposed = vec![call_action(&receiver, b"myendpoint", 0, Vec::new(), Vec::new())];
    let actions_hash = calculate_actions_hash(&proposed);
    let (proposal_id, _) = setup
        .propose(&proposer, 0, gov(QURUM), b"", actions_hash, POLL_DEFAULT_ID, vec![b"addressAndEndpoint".to_vec()])
        .unwrap();

    let actions = vec![call_action(&receiver, b"myendpoint", 0, Vec::new(), vec![b"testarg".to_vec()])];
    let proposal = setup.entity.governance.get_proposal(proposal_id).unwrap();
    let actual = setup.entity.get_actual_permissions(&proposal, &actions);
    assert_eq!(1, actual.len());
}

fn propose_action_as_owner(setup: &mut Setup, action: &Action, weight: u128) -> u64 {
    let owner = setup.owner_address.clone();
    let actions_hash = calculate_actions_hash(&vec![copy_action(action)]);
    setup.propose(&owner, 0, gov(weight), b"", actions_hash, POLL_DEFAULT_ID, Vec::new()).unwrap().0
}

#[test]
fn proposal_execute_tests_it_marks_a_proposal_as_executed() {
    let mut setup = Setup::new();
    setup.configure_gov_token(false);
    let action = call_action(&address(b"receiver"), b"myendpoint", 0, Vec::new(), Vec::new());
    let proposal_id = propose_action_as_owner(&mut setup, &action, QURUM);

    let owner = setup.owner_address.clone();
    let ctx = setup.ctx(&owner, after_voting_period(), Vec::new());
    let result = setup.entity.execute_endpoint(&ctx, proposal_id, &vec![copy_action(&action)], &Store::new());
    assert!(result.is_ok());
    assert_eq!(true, setup.entity.governance.get_proposal(proposal_id).unwrap().was_executed);
}

#[test]
fn proposal_execute_tests_it_fails_if_attempted_to_execute_again() {
    let mut setup = Setup::new();
    setup.configure_gov_token(false);
    let action = call_action(&address(b"receiver"), b"myendpoint", 0, Vec::new(), Vec::new());
    let proposal_id = propose_action_as_owner(&mut setup, &action, QURUM);

    let owner = setup.owner_address.clone();
    let ctx = setup.ctx(&owner, after_voting_period(), Vec::new());
    assert!(setup.entity.execute_endpoint(&ctx, proposal_id, &vec![copy_action(&action)], &Store::new()).is_ok());
    let again = setup.entity.execute_endpoint(&ctx, proposal_id, &vec![copy_action(&action)], &Store::new());
    assert!(matches!(again, Err(EntityError::ProposalNotExecutable)));
    assert_eq!(EntityError::ProposalNotExecutable.message(), "proposal is not executable");
}

#[test]
fn proposal_execute_tests_it_fails_if_the_proposal_is_still_active() {
    let mut setup = Setup::new();
    setup.configure_gov_token(false);
    let action = call_action(&address(b"receiver"), b"myendpoint", 0, Vec::new(), Vec::new());
    let proposal_id = propose_action_as_owner(&mut setup, &action, QURUM);

    let owner = setup.owner_address.clone();
    let ctx = setup.ctx(&owner, 0, Vec::new());
    // Both calls run in one transaction: it fails with the first refusal.
    let first = setup.entity.execute_endpoint(&ctx, proposal_id, &vec![copy_action(&action)], &Store::new());
    let transaction = match first {
        Err(e) => Err(e),
        Ok(_) => setup.entity.execute_endpoint(&ctx, proposal_id, &vec![copy_action(&action)], &Store::new()),
    };
    assert!(matches!(transaction, Err(EntityError::ProposalNotExecutable)));
}

#[test]
fn proposal_execute_tests_it_executes_actions_of_a_proposal() {
    let mut setup = Setup::new();
    setup.configure_gov_token(false);
    let receiver = address(b"receiver");
    let action = call_action(&receiver, b"myendpoint", 5, Vec::new(), Vec::new());
    let proposal_id = propose_action_as_owner(&mut setup, &action, GOV_TOKEN_SUPPLY);
    assert_eq!(proposal_id, 1);

    let owner = setup.owner_address.clone();
    let ctx = setup.ctx(&owner, after_voting_period(), Vec::new());
    let calls = setup.entity.execute_endpoint(&ctx, 1, &vec![copy_action(&action)], &Store::new()).unwrap();
    assert_eq!(calls.len(), 1);
    assert_eq!(calls[0].destination, receiver);
    assert_eq!(calls[0].egld_value, 5);
}

#[test]
fn it_fails_if_actions_to_execute_are_incongruent_to_actions_proposed() {
    let mut setup = Setup::new();
    setup.configure_gov_token(false);
    let receiver = address(b"receiver");
    let action = call_action(&receiver, b"myendpoint", 5, Vec::new(), Vec::new());
    propose_action_as_owner(&mut setup, &action, GOV_TOKEN_SUPPLY);

    let owner = setup.owner_address.clone();
    let ctx = setup.ctx(&owner, after_voting_period(), Vec::new());
    let changed = call_action(&receiver, b"yourendpoint", 5, Vec::new(), Vec::new());
    let result = setup.entity.execute_endpoint(&ctx, 1, &vec![changed], &Store::new());
    assert!(matches!(result, Err(EntityError::ActionsCorrupted)));
    assert_eq!(EntityError::ActionsCorrupted.message(), "actions have been corrupted");
    assert_eq!(false, setup.entity.governance.get_proposal(1).unwrap().was_executed);
}

#[test]
fn proposal_execute_tests_it_executes_a_contract_call_action() {
    let mut setup = Setup::new();
    setup.configure_gov_token(false);
    let receiver = address(b"receiver");
    let payment = Payment { token_identifier: b"ACTION-123456".to_vec(), token_nonce: 0, amount: 5 };
    let action = call_action(&receiver, b"myendpoint", 0, vec![payment], vec![b"arg1".to_vec(), b"arg2".to_vec()]);
    propose_action_as_owner(&mut setup, &action, GOV_TOKEN_SUPPLY);

    let owner = setup.owner_address.clone();
    let ctx = setup.ctx(&owner, after_voting_period(), Vec::new());
    let calls = setup.entity.execute_endpoint(&ctx, 1, &vec![copy_action(&action)], &Store::new()).unwrap();
    assert_eq!(calls.len(), 1);
    assert_eq!(calls[0].destination, receiver);
    assert_eq!(calls[0].endpoint, b"myendpoint".to_vec());
    assert_eq!(calls[0].arguments, vec![b"arg1".to_vec(), b"arg2".to_vec()]);
    assert_eq!(calls[0].payments.len(), 1);
    assert_eq!(calls[0].payments[0].token_identifier, b"ACTION-123456".to_vec());
    assert_eq!(calls[0].payments[0].amount, 5);
}

#[test]
fn proposal_propose_tests_it_creates_a_proposal() {
    let mut setup = Setup::new();
    setup.configure_gov_token(false);
    let owner = setup.owner_address.clone();
    let (proposal_id, returned) = setup
        .propose(&owner, 0, gov(MIN_WEIGHT_FOR_PROPOSAL), b"content hash", Vec::new(), POLL_DEFAULT_ID, Vec::new())
        .unwrap();
    assert!(returned.is_empty());

    let proposal = setup.entity.governance.get_proposal(proposal_id).unwrap();
    assert_eq!(1, proposal.id);
    assert_eq!(owner, proposal.proposer);
    assert_eq!(b"content hash".to_vec(), proposal.content_hash);
    assert_eq!(Vec::<u8>::new(), proposal.actions_hash);
    assert_eq!(false, proposal.was_executed);
    assert_eq!(MIN_WEIGHT_FOR_PROPOSAL, proposal.votes_for);
    assert_eq!(0, proposal.votes_against);
    assert_eq!(2, setup.entity.governance.next_proposal_id);
}

#[test]
fn it_fails_if_bad_vote_weight_amount() {
    let mut setup = Setup::new();
    setup.configure_gov_token(false);
    let user = setup.user_address.clone();
    let result = setup.propose(&user, 0, gov(MIN_WEIGHT_FOR_PROPOSAL - 1), b"", Vec::new(), POLL_DEFAULT_ID, Vec::new());
    assert!(matches!(result, Err(EntityError::InsufficientVoteWeight)));
    assert_eq!(EntityError::InsufficientVoteWeight.message(), "insufficient vote weight");
    assert_eq!(1, setup.entity.governance.next_proposal_id);
}

#[test]
fn proposal_propose_tests_it_fails_if_bad_token() {
    let mut setup = Setup::new();
    setup.configure_gov_token(false);
    let user = setup.user_address.clone();
    let fake = vec![Payment { token_identifier: FAKE_TOKEN_ID.to_vec(), token_nonce: 0, amount: MIN_WEIGHT_FOR_PROPOSAL }];
    let result = setup.propose(&user, 0, fake, b"", Vec::new(), POLL_DEFAULT_ID, Vec::new());
    assert_eq!(refusal_message(result), "invalid token");
}

#[test]
fn propose_tests_it_fails_if_bad_token() {
    let mut setup = Setup::new();
    setup.configure_gov_token(false);
    let user = setup.user_address.clone();
    let fake = vec![Payment { token_identifier: FAKE_TOKEN_ID.to_vec(), token_nonce: 0, amount: MIN_WEIGHT_FOR_PROPOSAL }];
    let result = setup.propose(&user, 0, fake, b"", Vec::new(), POLL_DEFAULT_ID, Vec::new());
    assert_eq!(refusal_message(result), "invalid token");
    assert_eq!(1, setup.entity.governance.next_proposal_id);
}

#[test]
fn it_fails_if_bad_amount() {
    let mut setup = Setup::new();
    setup.configure_gov_token(false);
    let user = setup.user_address.clone();
    let result = setup.propose(&user, 0, gov(MIN_WEIGHT_FOR_PROPOSAL - 1), b"", Vec::new(), POLL_DEFAULT_ID, Vec::new());
    assert!(matches!(result, Err(EntityError::InsufficientVoteWeight)));
}

#[test]
fn it_fails_to_verify_trusted_host_when_no_signature_given() {
    let mut setup = Setup::new();
    setup.configure_gov_token(false);
    let owner = setup.owner_address.clone();
    let ctx = setup.ctx(&owner, 0, Vec::new());
    let result = setup.entity.propose_endpoint(&ctx, b"id".to_vec(), Vec::new(), Vec::new(), Vec::new(), POLL_DEFAULT_ID, Vec::new());
    assert_eq!(refusal_message(result), "not a trusted host");
    assert_eq!(1, setup.entity.governance.next_proposal_id);
}

#[test]
fn it_returns_active_for_a_newly_created_proposal() {
    let mut setup = Setup::new();
    setup.configure_gov_token(false);
    let user = setup.user_address.clone();
    let (proposal_id, _) = setup.propose(&user, 0, gov(QURUM), b"", Vec::new(), POLL_DEFAULT_ID, Vec::new()).unwrap();
    assert_eq!(Ok(ProposalStatus::Active), setup.entity.get_proposal_status_view(proposal_id, 0));
}

#[test]
fn it_returns_defeated_if_for_votes_quorum_not_met() {
    let mut setup = Setup::new();
    setup.configure_gov_token(false);
    let owner = setup.owner_address.clone();
    let (proposal_id, _) = setup.propose(&owner, 0, gov(QURUM - 10), b"", Vec::new(), POLL_DEFAULT_ID, Vec::new()).unwrap();
    setup.vote_for(&owner, 0, gov(9), proposal_id).unwrap();
    assert_eq!(Ok(ProposalStatus::Defeated), setup.entity.get_proposal_status_view(proposal_id, after_voting_period()));
}

#[test]
fn it_returns_defeated_if_quorum_met_but_votes_against_is_more_than_for() {
    let mut setup = Setup::new();
    setup.configure_gov_token(false);
    let owner = setup.owner_address.clone();
    let (proposal_id, _) = setup.propose(&owner, 0, gov(10), b"", Vec::new(), POLL_DEFAULT_ID, Vec::new()).unwrap();
    setup.vote_for(&owner, 0, gov(QURUM), proposal_id).unwrap();
    setup.vote_against(&owner, 0, gov(QURUM * 2), proposal_id).unwrap();
    assert_eq!(Ok(ProposalStatus::Defeated), setup.entity.get_proposal_status_view(proposal_id, after_voting_period()));
}

#[test]
fn it_returns_succeeded_if_for_votes_quorum_met_and_more_for_than_against_votes() {
    let mut setup = Setup::new();
    setup.configure_gov_token(false);
    let owner = setup.owner_address.clone();
    let (proposal_id, _) = setup.propose(&owner, 0, gov(QURUM), b"", Vec::new(), POLL_DEFAULT_ID, Vec::new()).unwrap();
    setup.vote_for(&owner, 0, gov(20), proposal_id).unwrap();
    setup.vote_against(&owner, 0, gov(10), proposal_id).unwrap();
    assert_eq!(Ok(ProposalStatus::Succeeded), setup.entity.get_proposal_status_view(proposal_id, after_voting_period()));
}

#[test]
fn it_returns_executed_for_an_executed_proposal() {
    let mut setup = Setup::new();
    setup.configure_gov_token(false);
    let owner = setup.owner_address.clone();
    let proposer = address(b"proposer");
    let receiver = address(b"receiver");
    setup.entity.members.assign_role(&proposer, &role_builtin_leader()).unwrap();
    setup.entity.members.create_permission(b"perm".to_vec(), 0, receiver.clone(), b"myendpoint".to_vec(), Vec::new(), Vec::new());
    setup.entity.members.create_policy(&role_builtin_leader(), b"perm".to_vec(), PolicyMethod::Quorum, 1, 10).unwrap();

    let action = call_action(&receiver, b"myendpoint", 0, Vec::new(), Vec::new());
    let actions_hash = calculate_actions_hash(&vec![copy_action(&action)]);
    let (proposal_id, _) = setup.propose(&owner, 0, gov(QURUM), b"", actions_hash, POLL_DEFAULT_ID, vec![b"perm".to_vec()]).unwrap();

    let ctx = setup.ctx(&owner, after_voting_period(), Vec::new());
    assert!(setup.entity.execute_endpoint(&ctx, proposal_id, &vec![copy_action(&action)], &Store::new()).is_ok());
    assert_eq!(Ok(ProposalStatus::Executed), setup.entity.get_proposal_status_view(proposal_id, after_voting_period()));
}

#[test]
fn propose_nft_tests_it_creates_a_proposal() {
    let mut setup = Setup::new();
    setup.configure_gov_token(false);
    let owner = setup.owner_address.clone();
    let (proposal_id, returned) = setup
        .propose(&owner, 0, gov_nft(1, 1), b"content hash", Vec::new(), POLL_DEFAULT_ID, Vec::new())
        .unwrap();

    let proposal = setup.entity.governance.get_proposal(proposal_id).unwrap();
    assert_eq!(1, proposal.id);
    assert_eq!(owner, proposal.proposer);
    assert_eq!(b"content hash".to_vec(), proposal.content_hash);
    assert_eq!(Vec::<u8>::new(), proposal.actions_hash);
    assert_eq!(false, proposal.was_executed);
    assert_eq!(1, proposal.votes_for);
    assert_eq!(0, proposal.votes_against);

    assert_eq!(2, setup.entity.governance.next_proposal_id);
    assert_eq!(0, setup.deposited(proposal_id, &owner, 1));
    assert!(setup.entity.governance.proposal_nft_votes.get(&proposal_id).unwrap().contains(&1));
    assert_eq!(returned.len(), 1);
}

#[test]
fn it_creates_a_proposal_with_poll() {
    let mut setup = Setup::new();
    setup.configure_gov_token(false);
    let owner = setup.owner_address.clone();
    let poll_option_id = 2u8;
    let (proposal_id, _) = setup
        .propose(&owner, 0, gov_nft(1, 2), b"content hash", Vec::new(), poll_option_id, Vec::new())
        .unwrap();
    assert_eq!(2, setup.entity.governance.get_poll(proposal_id, poll_option_id));
}

#[test]
fn propose_nft_tests_it_sends_the_nfts_back() {
    let mut setup = Setup::new();
    setup.configure_gov_token(false);
    let owner = setup.owner_address.clone();
    let (_, returned) = setup
        .propose(&owner, 0, gov_nft(1, 1), b"content hash", Vec::new(), POLL_DEFAULT_ID, Vec::new())
        .unwrap();
    assert_eq!(returned.len(), 1);
    assert_eq!(returned[0].token_identifier, GOV_TOKEN_ID.to_vec());
    assert_eq!(returned[0].token_nonce, 1);
    assert_eq!(returned[0].amount, 1);
}

#[test]
fn it_sets_the_longest_policy_voting_period_for_the_proposal() {
    let mut setup = Setup::new();
    setup.configure_gov_token(false);
    let sc_address = setup.contract_address.clone();
    let proposer = setup.user_address.clone();
    let longest_voting_period_minutes: usize = 180;
    let members = &mut setup.entity.members;
    members.create_role(b"testrole".to_vec()).unwrap();
    for perm in [b"testperm1", b"testperm2", b"testperm3"] {
        members.create_permission(perm.to_vec(), 0, sc_address.clone(), b"testendpoint".to_vec(), Vec::new(), Vec::new());
    }
    members.create_policy(&b"testrole".to_vec(), b"testperm1".to_vec(), PolicyMethod::Weight, 2, 60).unwrap();
    members.create_policy(&b"testrole".to_vec(), b"testperm2".to_vec(), PolicyMethod::Weight, 5, longest_voting_period_minutes).unwrap();
    members.create_policy(&b"testrole".to_vec(), b"testperm3".to_vec(), PolicyMethod::Weight, 8, 120).unwrap();
    members.assign_role(&proposer, &b"testrole".to_vec()).unwrap();

    let action = call_action(&sc_address, b"testendpoint", 0, Vec::new(), Vec::new());
    let actions_hash = calculate_actions_hash(&vec![action]);
    let permissions = vec![b"testperm1".to_vec(), b"testperm2".to_vec(), b"testperm3".to_vec()];
    setup
        .propose(&proposer, 0, gov(MIN_WEIGHT_FOR_PROPOSAL), b"content hash", actions_hash, POLL_DEFAULT_ID, permissions)
        .unwrap();

    let proposal = setup.entity.governance.get_proposal(1).unwrap();
    assert_eq!(0, proposal.starts_at);
    assert_eq!(10_800, longest_voting_period_minutes as u64 * 60);
    assert_eq!(10_800, proposal.ends_at);
}

#[test]
fn it_signs_a_proposal_on_proposing_if_proposal_requires_signing() {
    let mut setup = Setup::new();
    setup.configure_gov_token(false);
    let sc_address = setup.contract_address.clone();
    let proposer = setup.user_address.clone();
    setup.entity.members.create_role(b"builder".to_vec()).unwrap();
    setup.entity.members.assign_role(&proposer, &b"builder".to_vec()).unwrap();
    setup.entity.members.create_permission(b"testperm".to_vec(), 0, sc_address.clone(), b"testendpoint".to_vec(), Vec::new(), Vec::new());
    setup
        .entity
        .members
        .create_policy(&b"builder".to_vec(), b"testperm".to_vec(), PolicyMethod::Quorum, QURUM, VOTING_PERIOD_MINUTES_DEFAULT as usize)
        .unwrap();

    let action = call_action(&sc_address, b"testendpoint", 0, Vec::new(), Vec::new());
    let actions_hash = calculate_actions_hash(&vec![action]);
    let (proposal_id, _) = setup
        .propose(&proposer, 0, gov(MIN_WEIGHT_FOR_PROPOSAL), b"", actions_hash, POLL_DEFAULT_ID, vec![b"testperm".to_vec()])
        .unwrap();

    let expected_signer_id = setup.entity.members.get_user_id(&proposer);
    assert!(setup.signers(proposal_id, b"builder").contains(&expected_signer_id));
}

#[test]
fn it_signs_a_proposal() {
    let mut setup = Setup::new();
    setup.configure_gov_token(false);
    let signer = setup.user_address.clone();
    setup.entity.members.create_role(b"builder".to_vec()).unwrap();
    setup.entity.members.assign_role(&signer, &b"builder".to_vec()).unwrap();
    let (proposal_id, _) = setup
        .propose(&signer, 0, gov(MIN_WEIGHT_FOR_PROPOSAL), b"", Vec::new(), POLL_DEFAULT_ID, Vec::new())
        .unwrap();

    let ctx = setup.ctx(&signer, 0, Vec::new());
    assert_eq!(setup.entity.sign_endpoint(&ctx, proposal_id, None), Ok(()));
    assert_eq!(1, setup.signers(proposal_id, b"builder").len());
}

fn assert_tally(setup: &Setup, proposal_id: u64, votes_for: u128, votes_against: u128) {
    let proposal = setup.entity.governance.get_proposal(proposal_id).unwrap();
    assert_eq!(votes_for, proposal.votes_for);
    assert_eq!(votes_against, proposal.votes_against);
}

#[test]
fn vote_esdt_tests_it_votes_for_a_proposal() {
    let mut setup = Setup::new();
    setup.configure_gov_token(false);
    let owner = setup.owner_address.clone();
    let voter = setup.user_address.clone();
    let (proposal_id, _) = setup.propose(&owner, 0, gov(MIN_WEIGHT_FOR_PROPOSAL), b"", Vec::new(), POLL_DEFAULT_ID, Vec::new()).unwrap();

    setup.vote_for(&voter, 0, gov(25), proposal_id).unwrap();
    assert_tally(&setup, proposal_id, MIN_WEIGHT_FOR_PROPOSAL + 25, 0);
    assert_eq!(MIN_WEIGHT_FOR_PROPOSAL + 25, setup.entity.config.get_guarded(&GOV_TOKEN_ID.to_vec(), 0));
    assert_eq!(25, setup.deposited(proposal_id, &voter, 0));
    assert!(setup.withdrawable_ids(&voter).contains(&proposal_id));

    setup.vote_for(&voter, 0, gov(25), proposal_id).unwrap();
    assert_tally(&setup, proposal_id, MIN_WEIGHT_FOR_PROPOSAL + 50, 0);
    assert_eq!(MIN_WEIGHT_FOR_PROPOSAL + 50, setup.entity.config.get_guarded(&GOV_TOKEN_ID.to_vec(), 0));
    assert_eq!(50, setup.deposited(proposal_id, &voter, 0));
}

#[test]
fn vote_esdt_tests_it_votes_against_a_proposal() {
    let mut setup = Setup::new();
    setup.configure_gov_token(false);
    let owner = setup.owner_address.clone();
    let voter = setup.user_address.clone();
    let (proposal_id, _) = setup.propose(&owner, 0, gov(MIN_WEIGHT_FOR_PROPOSAL), b"", Vec::new(), POLL_DEFAULT_ID, Vec::new()).unwrap();

    setup.vote_against(&voter, 0, gov(25), proposal_id).unwrap();
    assert_tally(&setup, proposal_id, MIN_WEIGHT_FOR_PROPOSAL, 25);
    assert_eq!(MIN_WEIGHT_FOR_PROPOSAL + 25, setup.entity.config.get_guarded(&GOV_TOKEN_ID.to_vec(), 0));
    assert_eq!(25, setup.deposited(proposal_id, &voter, 0));
    assert!(setup.withdrawable_ids(&voter).contains(&proposal_id));

    setup.vote_against(&voter, 0, gov(25), proposal_id).unwrap();
    assert_tally(&setup, proposal_id, MIN_WEIGHT_FOR_PROPOSAL, 50);
    assert_eq!(MIN_WEIGHT_FOR_PROPOSAL + 50, setup.entity.config.get_guarded(&GOV_TOKEN_ID.to_vec(), 0));
    assert_eq!(50, setup.deposited(proposal_id, &voter, 0));
}

#[test]
fn vote_esdt_tests_it_fails_if_proposal_voting_period_has_ended() {
    let mut setup = Setup::new();
    setup.configure_gov_token(false);
    let owner = setup.owner_address.clone();
    let (proposal_id, _) = setup.propose(&owner, 0, gov(MIN_WEIGHT_FOR_PROPOSAL), b"", Vec::new(), POLL_DEFAULT_ID, Vec::new()).unwrap();
    let result = setup.vote_against(&owner, after_voting_period(), gov(25), proposal_id);
    assert!(matches!(result, Err(EntityError::ProposalNotActive)));
    assert_eq!(EntityError::ProposalNotActive.message(), "proposal is not active");
}

#[test]
fn vote_tests_it_votes_for_a_proposal() {
    let mut setup = Setup::new();
    setup.configure_gov_token(false);
    let owner = setup.owner_address.clone();
    setup.propose(&owner, 0, gov(MIN_WEIGHT_FOR_PROPOSAL), b"", Vec::new(), POLL_DEFAULT_ID, Vec::new()).unwrap();

    setup.vote_for(&owner, 0, gov(25), 1).unwrap();
    assert_tally(&setup, 1, MIN_WEIGHT_FOR_PROPOSAL + 25, 0);
    assert_eq!(MIN_WEIGHT_FOR_PROPOSAL + 25, setup.entity.config.get_guarded(&GOV_TOKEN_ID.to_vec(), 0));

    setup.vote_for(&owner, 0, gov(25), 1).unwrap();
    assert_tally(&setup, 1, MIN_WEIGHT_FOR_PROPOSAL + 50, 0);
    assert_eq!(MIN_WEIGHT_FOR_PROPOSAL + 50, setup.entity.config.get_guarded(&GOV_TOKEN_ID.to_vec(), 0));
}

#[test]
fn vote_tests_it_votes_against_a_proposal() {
    let mut setup = Setup::new();
    setup.configure_gov_token(false);
    let owner = setup.owner_address.clone();
    setup.propose(&owner, 0, gov(MIN_WEIGHT_FOR_PROPOSAL), b"", Vec::new(), POLL_DEFAULT_ID, Vec::new()).unwrap();

    setup.vote_against(&owner, 0, gov(25), 1).unwrap();
    assert_tally(&setup, 1, MIN_WEIGHT_FOR_PROPOSAL, 25);
    assert_eq!(MIN_WEIGHT_FOR_PROPOSAL + 25, setup.entity.config.get_guarded(&GOV_TOKEN_ID.to_vec(), 0));

    setup.vote_against(&owner, 0, gov(25), 1).unwrap();
    assert_tally(&setup, 1, MIN_WEIGHT_FOR_PROPOSAL, 50);
    assert_eq!(MIN_WEIGHT_FOR_PROPOSAL + 50, setup.entity.config.get_guarded(&GOV_TOKEN_ID.to_vec(), 0));
}

#[test]
fn vote_tests_it_fails_if_proposal_voting_period_has_ended() {
    let mut setup = Setup::new();
    setup.configure_gov_token(false);
    let owner = setup.owner_address.clone();
    setup.propose(&owner, 0, gov(MIN_WEIGHT_FOR_PROPOSAL), b"", Vec::new(), POLL_DEFAULT_ID, Vec::new()).unwrap();
    let result = setup.vote_against(&owner, after_voting_period(), gov(25), 1);
    assert!(matches!(result, Err(EntityError::ProposalNotActive)));
}

fn nft_proposal(setup: &mut Setup) -> u64 {
    setup.configure_gov_token(false);
    let owner = setup.owner_address.clone();
    setup.propose(&owner, 0, gov_nft(1, 1), b"content hash", Vec::new(), POLL_DEFAULT_ID, Vec::new()).unwrap().0
}

fn assert_nothing_deposited(setup: &Setup, proposal_id: u64, voter: &Vec<u8>) {
    assert_eq!(0, setup.entity.config.get_guarded(&GOV_TOKEN_ID.to_vec(), 0));
    assert_eq!(0, setup.entity.config.get_guarded(&GOV_TOKEN_ID.to_vec(), 2));
    assert_eq!(0, setup.deposited(proposal_id, voter, 2));
    assert_eq!(0, setup.withdrawable_ids(voter).len());
}

#[test]
fn vote_nft_tests_it_votes_for_a_proposal() {
    let mut setup = Setup::new();
    let voter = setup.user_address.clone();
    let proposal_id = nft_proposal(&mut setup);
    setup.vote_for(&voter, 0, gov_nft(2, 1), proposal_id).unwrap();
    assert_tally(&setup, proposal_id, 2, 0);
    assert_nothing_deposited(&setup, proposal_id, &voter);
}

#[test]
fn vote_nft_tests_it_votes_against_a_proposal() {
    let mut setup = Setup::new();
    let voter = setup.user_address.clone();
    let proposal_id = nft_proposal(&mut setup);
    setup.vote_against(&voter, 0, gov_nft(2, 1), proposal_id).unwrap();
    assert_tally(&setup, proposal_id, 1, 1);
    assert_nothing_deposited(&setup, proposal_id, &voter);
}

#[test]
fn vote_nft_tests_it_sends_the_nfts_back() {
    let mut setup = Setup::new();
    let voter = setup.user_address.clone();
    let proposal_id = nft_proposal(&mut setup);
    let returned = setup.vote_for(&voter, 0, gov_nft(2, 1), proposal_id).unwrap();
    assert_tally(&setup, proposal_id, 2, 0);
    assert_nothing_deposited(&setup, proposal_id, &voter);
    assert_eq!(returned.len(), 1);
    assert_eq!(returned[0].token_nonce, 2);
    assert_eq!(returned[0].amount, 1);
}

#[test]
fn it_fails_to_vote_twice_with_the_same_nft() {
    let mut setup = Setup::new();
    let voter = setup.user_address.clone();
    let proposal_id = nft_proposal(&mut setup);
    setup.vote_for(&voter, 0, gov_nft(2, 1), proposal_id).unwrap();
    let again = setup.vote_for(&voter, 0, gov_nft(2, 1), proposal_id);
    assert!(matches!(again, Err(EntityError::AlreadyVotedWithNft)));
    assert_eq!(EntityError::AlreadyVotedWithNft.message(), "already voted with nft");
    assert_tally(&setup, proposal_id, 2, 0);
}

fn withdrawn_amount(batches: &Vec<Vec<Payment>>, nonce: u64) -> u128 {
    batches.iter().flatten().filter(|p| p.token_nonce == nonce).map(|p| p.amount).sum()
}

#[test]
fn it_withdraws_tokens_used_for_voting() {
    let mut setup = Setup::new();
    setup.configure_gov_token(true);
    let user = setup.user_address.clone();
    let (proposal_id, returned) = setup
        .propose(&user, 0, gov_nft(1, 5), b"content hash", Vec::new(), POLL_DEFAULT_ID, Vec::new())
        .unwrap();
    assert!(returned.is_empty());
    setup.vote_for(&user, 0, gov_nft(2, 5), proposal_id).unwrap();
    setup.vote_against(&user, 0, gov_nft(1, 5), proposal_id).unwrap();

    let ctx = setup.ctx(&user, after_voting_period(), Vec::new());
    let batches = setup.entity.withdraw_endpoint(&ctx);
    assert_eq!(10, withdrawn_amount(&batches, 1));
    assert_eq!(5, withdrawn_amount(&batches, 2));
}

fn sft_proposal_by_voter(setup: &mut Setup, voter: &Vec<u8>) -> u64 {
    setup.configure_gov_token(true);
    setup
        .propose(voter, 0, gov_nft(1, MIN_WEIGHT_FOR_PROPOSAL), b"content hash", Vec::new(), POLL_DEFAULT_ID, Vec::new())
        .unwrap()
        .0
}

#[test]
fn it_clears_the_voters_withdrawable_storage_for_the_proposal() {
    let mut setup = Setup::new();
    let voter = setup.user_address.clone();
    let proposal_id = sft_proposal_by_voter(&mut setup, &voter);
    assert!(setup.entity.governance.withdrawable_proposal_token_nonces(proposal_id, &voter).contains(&1));

    let ctx = setup.ctx(&voter, after_voting_period(), Vec::new());
    setup.entity.withdraw_endpoint(&ctx);

    assert_eq!(0, setup.deposited(proposal_id, &voter, 1));
    assert!(!setup.withdrawable_ids(&voter).contains(&proposal_id));
    assert!(!setup.entity.governance.withdrawable_proposal_token_nonces(proposal_id, &voter).contains(&1));
    assert!(setup.entity.governance.withdrawable_votes.get(&(proposal_id, voter.clone())).is_none());
}

#[test]
fn it_reduces_the_guarded_vote_token_amount() {
    let mut setup = Setup::new();
    let voter = setup.user_address.clone();
    sft_proposal_by_voter(&mut setup, &voter);
    assert_eq!(MIN_WEIGHT_FOR_PROPOSAL, setup.entity.config.get_guarded(&GOV_TOKEN_ID.to_vec(), 1));

    let ctx = setup.ctx(&voter, after_voting_period(), Vec::new());
    setup.entity.withdraw_endpoint(&ctx);
    assert_eq!(0, setup.entity.config.get_guarded(&GOV_TOKEN_ID.to_vec(), 1));
}

#[test]
fn it_does_not_withdraw_tokens_from_proposals_that_are_still_active() {
    let mut setup = Setup::new();
    let voter = setup.user_address.clone();
    let proposal_id = sft_proposal_by_voter(&mut setup, &voter);

    let ctx = setup.ctx(&voter, 0, Vec::new());
    let batches = setup.entity.withdraw_endpoint(&ctx);
    assert_eq!(0, withdrawn_amount(&batches, 1));
    assert_eq!(MIN_WEIGHT_FOR_PROPOSAL, setup.deposited(proposal_id, &voter, 1));
    assert!(setup.withdrawable_ids(&voter).contains(&proposal_id));
}

#[test]
fn developers_stage_contracts_that_only_the_entity_activates() {
    let mut setup = Setup::new();
    let developer = address(b"developer");
    let target = address(b"target");
    setup.entity.members.create_role(role_builtin_developer()).unwrap();
    setup.entity.members.assign_role(&developer, &role_builtin_developer()).unwrap();

    let ctx = setup.ctx(&developer, 0, Vec::new());
    assert_eq!(setup.entity.stage_contract_endpoint(&ctx, &target, b"new_code".to_vec()), Ok(()));
    assert!(setup.entity.contracts.is_stage_locked(&target));
    assert_eq!(
        setup.entity.stage_contract_endpoint(&ctx, &target, b"other_code".to_vec()),
        Err(EntityError::ContractStageLocked)
    );

    let self_ctx = setup.ctx(&setup.contract_address.clone(), 0, Vec::new());
    let deployment = setup.entity.activate_contract_endpoint(&self_ctx, &target, 0x0502, Vec::new()).unwrap();
    assert_eq!(deployment.code, b"new_code".to_vec());
    assert_eq!(deployment.address, Some(target.clone()));
    assert!(!setup.entity.contracts.is_stage_locked(&target));
}

#[test]
fn it_does_not_sign_a_proposal_if_not_guarded_by_policies() {
    let mut setup = Setup::new();
    let proposer = setup.owner_address.clone();
    setup.configure_gov_token(false);
    setup.entity.members.create_role(b"builder".to_vec()).unwrap();
    setup.entity.members.assign_role(&proposer, &b"builder".to_vec()).unwrap();
    let (proposal_id, _) = setup
        .propose(&proposer, 0, gov(MIN_WEIGHT_FOR_PROPOSAL), b"", Vec::new(), POLL_DEFAULT_ID, Vec::new())
        .unwrap();
    assert!(setup.signers(proposal_id, b"builder").is_empty());
}

#[test]
fn execute_action_tests_it_executes_actions_of_a_proposal() {
    let mut setup = Setup::new();
    let receiver = address(b"receiver");
    let action = call_action(&receiver, b"", 5, Vec::new(), Vec::new());
    store_dummy_proposal(&mut setup, &vec![copy_action(&action)]);

    let owner = setup.owner_address.clone();
    let ctx = setup.ctx(&owner, after_voting_period(), Vec::new());
    let calls = setup.entity.execute_endpoint(&ctx, 0, &vec![action], &Store::new()).unwrap();
    assert_eq!(calls.len(), 1);
    assert_eq!(calls[0].destination, receiver);
    assert_eq!(calls[0].egld_value, 5);
}

#[test]
fn execute_action_tests_it_executes_a_contract_call_action() {
    let mut setup = Setup::new();
    let receiver = address(b"receiver");
    let payment = Payment { token_identifier: b"ACTION-123456".to_vec(), token_nonce: 0, amount: 5 };
    let action = call_action(&receiver, b"myendpoint", 0, vec![payment], vec![b"arg1".to_vec(), b"arg2".to_vec()]);
    store_dummy_proposal(&mut setup, &vec![copy_action(&action)]);

    let owner = setup.owner_address.clone();
    let ctx = setup.ctx(&owner, after_voting_period(), Vec::new());
    let calls = setup.entity.execute_endpoint(&ctx, 0, &vec![action], &Store::new()).unwrap();
    assert_eq!(calls.len(), 1);
    assert_eq!(calls[0].endpoint, b"myendpoint".to_vec());
    assert_eq!(calls[0].payments[0].token_identifier, b"ACTION-123456".to_vec());
    assert_eq!(calls[0].payments[0].amount, 5);
}

#[test]
fn proposal_execute_tests_it_fails_to_spend_vote_tokens() {
    let mut setup = Setup::new();
    // An entity without a leader: proposals with actions are decided by the vote.
    setup.entity = EntityContract::init(setup.trusted_host.public.to_bytes().to_vec(), None);
    setup.configure_gov_token(false);
    let owner = setup.owner_address.clone();
    let action_receiver = address(b"receiver");
    let spend_six = || vec![call_action(&action_receiver, b"myendpoint", 0, gov(6), vec![b"arg1".to_vec()])];

    // try to spend 6 with a proposal action
    let actions_hash = calculate_actions_hash(&spend_six());
    let (proposal_id, _) = setup.propose(&owner, 0, gov(QURUM), b"a", actions_hash, POLL_DEFAULT_ID, Vec::new()).unwrap();

    // add to the contract's token balance: vote for with 100 tokens, against with 20
    setup.vote_for(&owner, 0, gov(100), proposal_id).unwrap();
    setup.vote_against(&owner, 0, gov(20), proposal_id).unwrap();

    // the available balance is 5 on top of the deposits
    let mut balances: Store<u64, u128> = Store::new();
    balances.insert(0, 5 + QURUM + 100 + 20);

    // but it should fail because vote tokens are not spendable
    let ctx = setup.ctx(&owner, after_voting_period(), Vec::new());
    let result = setup.entity.execute_endpoint(&ctx, proposal_id, &spend_six(), &balances);
    assert!(matches!(result, Err(EntityError::NotEnoughGovTokensAvailable)));
    assert_eq!(EntityError::NotEnoughGovTokensAvailable.message(), "not enough governance tokens available");
}

#[test]
fn execute_action_tests_it_fails_to_spend_vote_tokens() {
    let mut setup = Setup::new();
    // An entity without a leader: proposals with actions are decided by the vote.
    setup.entity = EntityContract::init(setup.trusted_host.public.to_bytes().to_vec(), None);
    setup.configure_gov_token(false);
    let owner = setup.owner_address.clone();
    let action_receiver = address(b"receiver");
    let spend_six = || vec![call_action(&action_receiver, b"myendpoint", 0, gov(6), vec![b"arg1".to_vec()])];

    // a proposal that tries to spend 6, with the quorum reached
    store_dummy_proposal(&mut setup, &spend_six());

    // add to the contract's token balance: vote for with 100 tokens, against with 20
    setup.vote_for(&owner, 0, gov(100), 0).unwrap();
    setup.vote_against(&owner, 0, gov(20), 0).unwrap();

    // the available balance is 5 on top of the deposits
    let mut balances: Store<u64, u128> = Store::new();
    balances.insert(0, 5 + 100 + 20);

    // but it should fail because vote tokens are not spendable
    let ctx = setup.ctx(&owner, after_voting_period(), Vec::new());
    let result = setup.entity.execute_endpoint(&ctx, 0, &spend_six(), &balances);
    assert!(matches!(result, Err(EntityError::NotEnoughGovTokensAvailable)));
}

#[test]
fn it_creates_a_proposal_with_actions() {
    let mut setup = Setup::new();
    setup.configure_gov_token(false);
    let owner = setup.owner_address.clone();
    // An actions hash must have the length of a Keccak-256 digest.
    let actions_hash = keccak256(b"actions hash").to_vec();
    let (proposal_id, _) = setup
        .propose(&owner, 0, gov(MIN_WEIGHT_FOR_PROPOSAL), b"content hash", actions_hash.clone(), POLL_DEFAULT_ID, Vec::new())
        .unwrap();
    let proposal = setup.entity.governance.get_proposal(proposal_id).unwrap();
    assert_eq!(proposal_id, 1);
    assert_eq!(actions_hash, proposal.actions_hash);
}
