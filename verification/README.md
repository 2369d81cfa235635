# entity

A verified model of the Entity DAO contract for MultiversX: roles,
permissions and policies, proposals and their votes and signatures, vote
token deposits and their withdrawal, execution of approved actions, and the
staging of contract code. Every executable function in `src/` is proved
against its contract with Verus, except the small wrappers in
`src/crypto.rs`: their contracts state what the outside functions they call
(Keccak-256, Ed25519 verification, token identifier validation) compute, and
Verus takes those contracts on trust.

Layout:

- `src/lib.rs`: `EntityContract`, the state of an entity, and the `Entity`
  trait (construction and the endpoints that belong to no module).
- `src/config.rs`: settings, call context, payments.
- `src/permission.rs`: users, roles, permissions, policies (`PermissionModule`).
- `src/governance/`: proposals (`storage`, `proposal`, `status`), proposing and
  voting (`voting`, `VoteModule`), deposits and withdrawal (`deposits`),
  execution (`execution`), events (`GovEventsModule`), the governance token
  (`token`, `TokenModule`) and the endpoints (`GovernanceModule`).
- `src/contract.rs`: staging and activating contract code (`ContractModule`).
- `src/plug.rs`: the plug that reports vote weights (`PlugModule`).
- `src/crypto.rs`: Keccak-256, Ed25519 verification and token identifier
  validation, taken from `multiversx-sc` and its VM.
- `src/laws.rs`: properties of the library as a whole.
- `src/store.rs`: the keyed stores that hold the contract's storage.
- `app/lib.rs`: conversions between chain types and the library's values.
- `tests/`: scenarios of the contract and checks of the contracts above.
