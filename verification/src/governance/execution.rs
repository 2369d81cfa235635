use vstd::prelude::*;

use crate::config::Payment;
use crate::crypto::keccak256_of;
use crate::errors::EntityError;
use crate::governance::deposits::amount_for;
use crate::governance::proposal::{actions_bytes, Action, ActionView, ProposalStatus};
use crate::store::{bytes_eq, copy_bytes, copy_bytes_list, views, Store};
use crate::config::copy_payments;
use crate::EntityContract;

verus! {

/// A call that executing a proposal makes: to `destination` at `endpoint`
/// with `arguments`, carrying an EGLD value or token payments.
pub struct ActionCall {
    pub destination: Vec<u8>,
    pub endpoint: Vec<u8>,
    pub arguments: Vec<Vec<u8>>,
    pub gas_limit: u64,
    pub egld_value: u128,
    pub payments: Vec<Payment>,
}

pub struct ActionCallView {
    pub destination: Seq<u8>,
    pub endpoint: Seq<u8>,
    pub arguments: Seq<Seq<u8>>,
    pub gas_limit: u64,
    pub egld_value: u128,
    pub payments: Seq<(Seq<u8>, u64, u128)>,
}

impl View for ActionCall {
    type V = ActionCallView;

    open spec fn view(&self) -> ActionCallView {
        ActionCallView {
            destination: self.destination@,
            endpoint: self.endpoint@,
            arguments: views(self.arguments@),
            gas_limit: self.gas_limit,
            egld_value: self.egld_value,
            payments: views(self.payments@),
        }
    }
}

/// The call an action makes: an action with a value transfers only that
/// value; any other carries its token payments.
pub open spec fn action_call(a: ActionView) -> ActionCallView {
    if a.value > 0 {
        ActionCallView {
            destination: a.destination,
            endpoint: a.endpoint,
            arguments: a.arguments,
            gas_limit: a.gas_limit,
            egld_value: a.value,
            payments: Seq::empty(),
        }
    } else {
        ActionCallView {
            destination: a.destination,
            endpoint: a.endpoint,
            arguments: a.arguments,
            gas_limit: a.gas_limit,
            egld_value: 0,
            payments: a.payments,
        }
    }
}

/// The calls that executing the actions makes: one for each action, in
/// order.
pub open spec fn executed_calls(actions: Seq<ActionView>) -> Seq<ActionCallView>
    decreases actions.len(),
{
    if actions.len() == 0 {
        Seq::empty()
    } else {
        executed_calls(actions.drop_last()).push(action_call(actions.last()))
    }
}

/// The token payments that the calls of the actions carry, in order: an
/// action with a value carries none.
pub open spec fn flat_payments(actions: Seq<ActionView>) -> Seq<(Seq<u8>, u64, u128)>
    decreases actions.len(),
{
    if actions.len() == 0 {
        Seq::empty()
    } else {
        flat_payments(actions.drop_last()) + action_call(actions.last()).payments
    }
}

/// `a - b`, or zero when `b` is larger.
pub open spec fn sat_sub(a: nat, b: nat) -> nat {
    if a >= b {
        (a - b) as nat
    } else {
        0
    }
}

pub open spec fn balance_of(balances: Map<u64, u128>, nonce: u64) -> nat {
    if balances.contains_key(nonce) {
        balances[nonce] as nat
    } else {
        0
    }
}

impl EntityContract {
    /// The check of one payment: a governance token payment may only use
    /// what is left of the contract's balance (its balance before the
    /// actions, less what earlier actions sent) beyond the guarded deposits.
    pub open spec fn payment_refusal(&self, balances: Map<u64, u128>, sent: Seq<(Seq<u8>, u64, u128)>, p: (Seq<u8>, u64, u128)) -> Option<EntityError> {
        let gov = self.config.gov_token_id@;
        let current = sat_sub(balance_of(balances, p.1), amount_for(sent, gov, p.1));
        let protected = self.config.guarded(gov, p.1);
        if p.0 != gov {
            None
        } else if protected > current {
            Some(EntityError::NegativeAmount)
        } else if p.2 > current - protected {
            Some(EntityError::NotEnoughGovTokensAvailable)
        } else {
            None
        }
    }

    /// The first refused payment of an action.
    pub open spec fn payments_refusal(&self, balances: Map<u64, u128>, sent: Seq<(Seq<u8>, u64, u128)>, ps: Seq<(Seq<u8>, u64, u128)>) -> Option<EntityError>
        decreases ps.len(),
    {
        if ps.len() == 0 {
            None
        } else {
            let before = self.payments_refusal(balances, sent, ps.drop_last());
            if before is Some {
                before
            } else {
                self.payment_refusal(balances, sent, ps.last())
            }
        }
    }

    /// Why executing the actions would be refused, if it would.
    pub open spec fn execution_refusal(&self, balances: Map<u64, u128>, actions: Seq<ActionView>) -> Option<EntityError>
        decreases actions.len(),
    {
        if actions.len() == 0 {
            None
        } else {
            let before = self.execution_refusal(balances, actions.drop_last());
            if before is Some {
                before
            } else if actions.last().value > 0 {
                None
            } else {
                self.payments_refusal(balances, flat_payments(actions.drop_last()), actions.last().payments)
            }
        }
    }

    /// The calls that executing `actions` makes, checking each governance
    /// token payment against the contract's balances (`gov_balances`, per
    /// nonce, before the actions) less the guarded deposits.
    pub fn execute_actions(&self, actions: &Vec<Action>, gov_balances: &Store<u64, u128>) -> (result: Result<Vec<ActionCall>, EntityError>)
        requires
            self.wf(),
            gov_balances.wf(),
        ensures
            match result {
                Err(e) => self.execution_refusal(gov_balances.map(), views(actions@)) == Some(e),
                Ok(calls) => self.execution_refusal(gov_balances.map(), views(actions@)) is None
                    && views(calls@) == executed_calls(views(actions@)),
            },
    {
        let ghost acts = views(actions@);
        let ghost bal = gov_balances.map();
        let gov = &self.config.gov_token_id;
        let mut remaining = gov_balances.copy();
        let mut calls: Vec<ActionCall> = Vec::new();
        let mut i: usize = 0;
        while i < actions.len()
            invariant
                self.wf(),
                i <= acts.len(),
                acts == views(actions@),
                bal == gov_balances.map(),
                gov@ == self.config.gov_token_id@,
                remaining.wf(),
                forall|n: u64| #[trigger] balance_of(remaining.map(), n) == sat_sub(balance_of(bal, n), amount_for(flat_payments(acts.take(i as int)), gov@, n)),
                self.execution_refusal(bal, acts.take(i as int)) is None,
                views(calls@) == executed_calls(acts.take(i as int)),
            decreases acts.len() - i,
        {
            let action = &actions[i];
            let ghost prefix = acts.take(i as int);
            proof {
                assert(acts.take(i as int + 1).drop_last() =~= prefix);
                assert(acts.take(i as int + 1).last() == action@);
            }
            if action.value > 0 {
                let ghost before = views(calls@);
                let call = ActionCall {
                    destination: copy_bytes(&action.destination),
                    endpoint: copy_bytes(&action.endpoint),
                    arguments: copy_bytes_list(&action.arguments),
                    gas_limit: action.gas_limit,
                    egld_value: action.value,
                    payments: Vec::new(),
                };
                proof {
                    assert(call@.payments =~= Seq::<(Seq<u8>, u64, u128)>::empty());
                    assert(call@ == action_call(action@));
                }
                calls.push(call);
                proof {
                    assert(views(calls@) =~= before.push(action_call(action@)));
                    assert(flat_payments(acts.take(i as int + 1)) =~= flat_payments(prefix));
                }
                i = i + 1;
                continue;
            }
            let pays = &action.payments;
            let ghost ps = views(pays@);
            let ghost sent = flat_payments(prefix);
            let mut j: usize = 0;
            while j < pays.len()
                invariant
                    self.wf(),
                    i < acts.len(),
                    acts == views(actions@),
                    bal == gov_balances.map(),
                    prefix == acts.take(i as int),
                    sent == flat_payments(prefix),
                    action@ == acts[i as int],
                    action.value == 0,
                    ps == action@.payments,
                    acts.take(i as int + 1).drop_last() == prefix,
                    acts.take(i as int + 1).last() == action@,
                    self.execution_refusal(bal, prefix) is None,
                    j <= ps.len(),
                    ps == views(pays@),
                    gov@ == self.config.gov_token_id@,
                    remaining.wf(),
                    forall|n: u64| #[trigger] balance_of(remaining.map(), n) == sat_sub(balance_of(bal, n), amount_for(sent, gov@, n)),
                    self.payments_refusal(bal, sent, ps.take(j as int)) is None,
                decreases ps.len() - j,
            {
                let payment = &pays[j];
                proof {
                    assert(ps.take(j as int + 1).drop_last() =~= ps.take(j as int));
                    assert(ps.take(j as int + 1).last() == payment@);
                }
                if bytes_eq(&payment.token_identifier, gov) {
                    let current = match remaining.get(&payment.token_nonce) {
                        Some(b) => *b,
                        None => 0,
                    };
                    let protected = self.config.get_guarded(gov, payment.token_nonce);
                    proof {
                        assert(balance_of(remaining.map(), payment.token_nonce) == current);
                        assert(current == sat_sub(balance_of(bal, payment.token_nonce), amount_for(sent, gov@, payment.token_nonce)));
                    }
                    if protected > current {
                        proof {
                            lemma_payments_stop(self, bal, sent, ps, j as int + 1);
                            assert(ps == action@.payments);
                            assert(self.execution_refusal(bal, acts.take(i as int + 1)) == Some(EntityError::NegativeAmount));
                            lemma_refusal_stays(self, bal, acts, i as int + 1);
                        }
                        return Err(EntityError::NegativeAmount);
                    }
                    if payment.amount > current - protected {
                        proof {
                            lemma_payments_stop(self, bal, sent, ps, j as int + 1);
                            assert(ps == action@.payments);
                            assert(self.execution_refusal(bal, acts.take(i as int + 1)) == Some(EntityError::NotEnoughGovTokensAvailable));
                            lemma_refusal_stays(self, bal, acts, i as int + 1);
                        }
                        return Err(EntityError::NotEnoughGovTokensAvailable);
                    }
                }
                j = j + 1;
            }
            proof {
                assert(ps.take(ps.len() as int) =~= ps);
                assert(action@.payments == ps);
            }
            let ghost before = views(calls@);
            let call = ActionCall {
                destination: copy_bytes(&action.destination),
                endpoint: copy_bytes(&action.endpoint),
                arguments: copy_bytes_list(&action.arguments),
                gas_limit: action.gas_limit,
                egld_value: 0,
                payments: copy_payments(&action.payments),
            };
            proof {
                assert(call@ == action_call(action@));
            }
            calls.push(call);
            proof {
                assert(views(calls@) =~= before.push(action_call(action@)));
            }
            let mut k: usize = 0;
            while k < pays.len()
                invariant
                    k <= ps.len(),
                    ps == views(pays@),
                    gov@ == self.config.gov_token_id@,
                    remaining.wf(),
                    forall|n: u64| #[trigger] balance_of(remaining.map(), n) == sat_sub(balance_of(bal, n), amount_for(sent + ps.take(k as int), gov@, n)),
                decreases ps.len() - k,
            {
                let payment = &pays[k];
                proof {
                    assert(ps.take(k as int + 1) =~= ps.take(k as int).push(payment@));
                    assert(sent + ps.take(k as int + 1) =~= (sent + ps.take(k as int)).push(payment@));
                    assert((sent + ps.take(k as int + 1)).drop_last() =~= sent + ps.take(k as int));
                }
                if bytes_eq(&payment.token_identifier, gov) {
                    let current = match remaining.get(&payment.token_nonce) {
                        Some(b) => *b,
                        None => 0,
                    };
                    let left = if current >= payment.amount {
                        current - payment.amount
                    } else {
                        0
                    };
                    let ghost prev = remaining.map();
                    remaining.insert(payment.token_nonce, left);
                    proof {
                        assert forall|n: u64| #[trigger] balance_of(remaining.map(), n) == sat_sub(balance_of(bal, n), amount_for(sent + ps.take(k as int + 1), gov@, n)) by {
                            assert(balance_of(prev, n) == sat_sub(balance_of(bal, n), amount_for(sent + ps.take(k as int), gov@, n)));
                        }
                    }
                } else {
                    proof {
                        assert forall|n: u64| #[trigger] balance_of(remaining.map(), n) == sat_sub(balance_of(bal, n), amount_for(sent + ps.take(k as int + 1), gov@, n)) by {
                            assert(amount_for(sent + ps.take(k as int + 1), gov@, n) == amount_for(sent + ps.take(k as int), gov@, n));
                        }
                    }
                }
                k = k + 1;
            }
            proof {
                assert(ps.take(ps.len() as int) =~= ps);
                assert(flat_payments(acts.take(i as int + 1)) =~= sent + ps);
            }
            i = i + 1;
        }
        proof {
            assert(acts.take(acts.len() as int) =~= acts);
        }
        Ok(calls)
    }
}

/// Once a payment is refused, later payments do not change the refusal.
pub proof fn lemma_payments_stop(entity: &EntityContract, bal: Map<u64, u128>, sent: Seq<(Seq<u8>, u64, u128)>, ps: Seq<(Seq<u8>, u64, u128)>, n: int)
    requires
        0 < n <= ps.len(),
    ensures
        entity.payments_refusal(bal, sent, ps.take(n)) is Some ==> entity.payments_refusal(bal, sent, ps) == entity.payments_refusal(bal, sent, ps.take(n)),
    decreases ps.len() - n,
{
    if n < ps.len() {
        assert(ps.take(n + 1).drop_last() =~= ps.take(n));
        lemma_payments_stop(entity, bal, sent, ps, n + 1);
    } else {
        assert(ps.take(n) =~= ps);
    }
}

/// Once the checks of a prefix of the actions refuse, the whole is
/// refused for the same reason.
pub proof fn lemma_refusal_stays(entity: &EntityContract, bal: Map<u64, u128>, acts: Seq<ActionView>, n: int)
    requires
        0 <= n <= acts.len(),
        entity.execution_refusal(bal, acts.take(n)) is Some,
    ensures
        entity.execution_refusal(bal, acts) == entity.execution_refusal(bal, acts.take(n)),
    decreases acts.len() - n,
{
    if n < acts.len() {
        assert(acts.take(n + 1).drop_last() =~= acts.take(n));
        lemma_refusal_stays(entity, bal, acts, n + 1);
    } else {
        assert(acts.take(n) =~= acts);
    }
}

impl EntityContract {
    /// Why executing proposal `proposal_id` with `actions` would be refused,
    /// if it would.
    pub open spec fn execute_refusal(&self, now: u64, proposal_id: u64, actions: Seq<ActionView>, balances: Map<u64, u128>) -> Option<EntityError> {
        let p = self.governance.proposal(proposal_id);
        if actions.len() == 0 {
            Some(EntityError::NoActionsToExecute)
        } else if !self.governance.has_proposal(proposal_id) {
            Some(EntityError::ProposalNotFound)
        } else if p.actions_hash != keccak256_of(actions_bytes(actions)) {
            Some(EntityError::ActionsCorrupted)
        } else if self.proposal_status(p, now) != ProposalStatus::Succeeded {
            Some(EntityError::ProposalNotExecutable)
        } else if p.permissions != self.permissions_for_actions(self.members.roles_of(p.proposer), actions, true).1 {
            Some(EntityError::UntruthfulPermissions)
        } else {
            self.execution_refusal(balances, actions)
        }
    }
}

} // verus!
