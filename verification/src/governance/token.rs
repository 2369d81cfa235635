use vstd::prelude::*;

use crate::config::{CallContext, Payment};
use crate::errors::EntityError;
use crate::store::copy_bytes;

verus! {

pub const DEFAULT_DECIMALS: usize = 18;

/// The request to issue a fungible token: the EGLD paid for it, its name,
/// ticker, initial supply, decimals and properties.
pub struct TokenIssueRequest {
    pub egld_value: u128,
    pub token_name: Vec<u8>,
    pub token_ticker: Vec<u8>,
    pub initial_supply: u128,
    pub num_decimals: usize,
    pub can_freeze: bool,
    pub can_wipe: bool,
    pub can_pause: bool,
    pub can_mint: bool,
    pub can_burn: bool,
    pub can_change_owner: bool,
    pub can_upgrade: bool,
    pub can_add_special_roles: bool,
}

/// A transfer to an account: EGLD or one token payment.
pub enum Transfer {
    Egld { to: Vec<u8>, amount: u128 },
    Esdt { to: Vec<u8>, payment: Payment },
}

/// A local role of a token that the contract can be given.
#[derive(Clone, Copy, PartialEq, Eq, Debug, Structural)]
pub enum EsdtLocalRole {
    Mint,
    Burn,
}

/// The request that gives `address` local roles of `token_id`.
pub struct SpecialRolesRequest {
    pub address: Vec<u8>,
    pub token_id: Vec<u8>,
    pub roles: Vec<EsdtLocalRole>,
    pub gas_limit: u64,
}

/// Issuing the governance token and handing back what was paid for it.
pub trait TokenModule {
    /// The request that issues the governance token with `supply`, paid
    /// with the EGLD of the call; a supply of zero is refused.
    fn issue_gov_token(&self, ctx: &CallContext, token_name: &Vec<u8>, token_ticker: &Vec<u8>, supply: u128) -> (result: Result<TokenIssueRequest, EntityError>)
        ensures
            supply == 0 ==> result == Err::<TokenIssueRequest, EntityError>(EntityError::AmountMustBePositive),
            supply > 0 ==> (result matches Ok(request) && request.egld_value == ctx.egld_value
                && request.token_name@ == token_name@ && request.token_ticker@ == token_ticker@
                && request.initial_supply == supply && request.num_decimals == DEFAULT_DECIMALS
                && request.can_freeze && request.can_wipe && request.can_pause && !request.can_mint
                && !request.can_burn && !request.can_change_owner && request.can_upgrade
                && request.can_add_special_roles),
    ;

    /// Sends the EGLD received by the call back to `to`, if there is any.
    fn send_received_egld(&self, ctx: &CallContext, to: &Vec<u8>) -> (transfer: Option<Transfer>)
        ensures
            ctx.egld_value == 0 ==> transfer is None,
            ctx.egld_value > 0 ==> (transfer matches Some(Transfer::Egld { to: t, amount }) && t@ == to@
                && amount == ctx.egld_value),
    ;
}

impl TokenModule for crate::EntityContract {
    fn issue_gov_token(&self, ctx: &CallContext, token_name: &Vec<u8>, token_ticker: &Vec<u8>, supply: u128) -> (result: Result<TokenIssueRequest, EntityError>)
    {
        if supply == 0 {
            return Err(EntityError::AmountMustBePositive);
        }
        Ok(
            TokenIssueRequest {
                egld_value: ctx.egld_value,
                token_name: copy_bytes(token_name),
                token_ticker: copy_bytes(token_ticker),
                initial_supply: supply,
                num_decimals: DEFAULT_DECIMALS,
                can_freeze: true,
                can_wipe: true,
                can_pause: true,
                can_mint: false,
                can_burn: false,
                can_change_owner: false,
                can_upgrade: true,
                can_add_special_roles: true,
            },
        )
    }

    fn send_received_egld(&self, ctx: &CallContext, to: &Vec<u8>) -> (transfer: Option<Transfer>)
    {
        if ctx.egld_value > 0 {
            Some(Transfer::Egld { to: copy_bytes(to), amount: ctx.egld_value })
        } else {
            None
        }
    }
}

} // verus!
