use vstd::prelude::*;

use multiversx_sc::contract_base::CryptoWrapper;
use multiversx_sc::types::{ManagedBuffer, TokenIdentifier};
use multiversx_sc_scenario::api::StaticApi;
use multiversx_sc_scenario::multiversx_chain_vm::crypto_functions;

verus! {

/// The Keccak-256 digest of `data`, as the MultiversX crypto API computes it.
pub uninterp spec fn keccak256_of(data: Seq<u8>) -> Seq<u8>;

/// Whether `signature` is a valid Ed25519 signature of `message` under the
/// public key `key`, as the MultiversX VM checks it.
pub uninterp spec fn ed25519_valid(key: Seq<u8>, message: Seq<u8>, signature: Seq<u8>) -> bool;

/// Calls `CryptoWrapper::keccak256` of `multiversx-sc` (on the host API of
/// `multiversx-sc-scenario`). Claimed: the result is the 32-byte digest named
/// `keccak256_of`, a function of the input alone.
#[verifier::external_body]
pub(crate) fn keccak256(data: &Vec<u8>) -> (hash: Vec<u8>)
    ensures
        hash@ == keccak256_of(data@),
        hash@.len() == 32,
{
    let buffer = ManagedBuffer::<StaticApi>::new_from_bytes(data.as_slice());
    CryptoWrapper::<StaticApi>::new().keccak256(buffer).to_byte_array().to_vec()
}

/// Calls `crypto_functions::verify_ed25519` of `multiversx-chain-vm`, the
/// check behind the crypto API's `verify_ed25519` (which aborts the call
/// with "invalid signature" where this returns false). Claimed: the result
/// is `ed25519_valid` of the three arguments.
#[verifier::external_body]
pub(crate) fn verify_ed25519(key: &Vec<u8>, message: &Vec<u8>, signature: &Vec<u8>) -> (valid:
    bool)
    ensures
        valid == ed25519_valid(key@, message@, signature@),
{
    crypto_functions::verify_ed25519(key.as_slice(), message.as_slice(), signature.as_slice())
}

pub open spec fn is_upper_alnum(c: u8) -> bool {
    (65 <= c <= 90) || (48 <= c <= 57)
}

pub open spec fn is_lower_alnum(c: u8) -> bool {
    (97 <= c <= 122) || (48 <= c <= 57)
}

/// A valid ESDT token identifier: a ticker of 3 to 10 upper-case letters or
/// digits, a dash, and 6 lower-case letters or digits.
pub open spec fn valid_esdt_identifier(id: Seq<u8>) -> bool {
    &&& 10 <= id.len() <= 17
    &&& forall|i: int| 0 <= i < id.len() - 7 ==> is_upper_alnum(#[trigger] id[i])
    &&& id[id.len() - 7] == 45
    &&& forall|i: int| id.len() - 6 <= i < id.len() ==> is_lower_alnum(#[trigger] id[i])
}

/// Calls `TokenIdentifier::is_valid_esdt_identifier` of `multiversx-sc`.
/// Claimed: it holds exactly of the identifiers described by
/// `valid_esdt_identifier` (the rule of `validate_token_identifier` in the
/// crate's source).
#[verifier::external_body]
pub(crate) fn is_valid_esdt_identifier(id: &Vec<u8>) -> (valid: bool)
    ensures
        valid == valid_esdt_identifier(id@),
{
    TokenIdentifier::<StaticApi>::from(id.as_slice()).is_valid_esdt_identifier()
}

} // verus!
