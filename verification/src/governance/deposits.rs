use vstd::prelude::*;

use crate::config::{CallContext, Payment};
use crate::governance::events::EventView;
use crate::governance::proposal::ProposalStatus;
use crate::errors::EntityError;
use crate::governance::storage::{copy_ids, set_with, ProposalModule};
use crate::store::{copy_bytes, set_insert, views, Store};
use crate::EntityContract;

verus! {

/// The amount of `token` with `nonce` among the payments.
pub open spec fn amount_for(ps: Seq<(Seq<u8>, u64, u128)>, token: Seq<u8>, nonce: u64) -> nat
    decreases ps.len(),
{
    if ps.len() == 0 {
        0
    } else {
        amount_for(ps.drop_last(), token, nonce) + if ps.last().0 == token && ps.last().1 == nonce {
            ps.last().2 as nat
        } else {
            0
        }
    }
}

/// The amount of `token` with `nonce` deposited over all entries of the
/// withdrawable votes.
pub open spec fn deposit_sum(entries: Seq<((u64, Vec<u8>), Vec<Payment>)>, token: Seq<u8>, nonce: u64) -> nat
    decreases entries.len(),
{
    if entries.len() == 0 {
        0
    } else {
        deposit_sum(entries.drop_last(), token, nonce) + amount_for(
            views(entries.last().1@),
            token,
            nonce,
        )
    }
}

/// The amount stored under `key` (zero when none).
pub open spec fn stored_amount(m: Map<(Seq<u8>, u64), u128>, key: (Seq<u8>, u64)) -> nat {
    if m.contains_key(key) {
        m[key] as nat
    } else {
        0
    }
}

/// The guarded amounts after adding the deposits one by one; none when an
/// amount leaves the supported range.
pub open spec fn add_deposits(m: Map<(Seq<u8>, u64), u128>, ds: Seq<(Seq<u8>, u64, u128)>) -> Option<
    Map<(Seq<u8>, u64), u128>,
>
    decreases ds.len(),
{
    if ds.len() == 0 {
        Some(m)
    } else {
        match add_deposits(m, ds.drop_last()) {
            None => None,
            Some(m2) => {
                let d = ds.last();
                let key = (d.0, d.1);
                let sum = stored_amount(m2, key) + d.2;
                if sum > u128::MAX {
                    None
                } else {
                    Some(m2.insert(key, sum as u128))
                }
            },
        }
    }
}

/// The sum of the payments' amounts.
pub open spec fn payments_total(ps: Seq<(Seq<u8>, u64, u128)>) -> nat
    decreases ps.len(),
{
    if ps.len() == 0 {
        0
    } else {
        payments_total(ps.drop_last()) + ps.last().2 as nat
    }
}

/// The NFTs voted with are new: none voted on the proposal before, and no
/// nonce comes twice.
pub open spec fn nfts_fresh(existing: Seq<u64>, rs: Seq<(Seq<u8>, u64, u128)>) -> bool {
    forall|j: int|
        0 <= j < rs.len() ==> !existing.contains(#[trigger] rs[j].1) && forall|i: int|
            0 <= i < j ==> rs[i].1 != rs[j].1
}

pub open spec fn nonces(ps: Seq<(Seq<u8>, u64, u128)>) -> Seq<u64> {
    ps.map_values(|p: (Seq<u8>, u64, u128)| p.1)
}

/// The nonces of deposits added after others are those of both.
pub proof fn lemma_nonces_of_added(before: Seq<(Seq<u8>, u64, u128)>, added: Seq<(Seq<u8>, u64, u128)>)
    ensures
        nonces(before + added).to_set() == nonces(before).to_set() + nonces(added).to_set(),
        nonces(Seq::<(Seq<u8>, u64, u128)>::empty()).to_set() == Set::<u64>::empty(),
{
    assert(nonces(before + added) =~= nonces(before) + nonces(added));
    vstd::seq_lib::seq_to_set_distributes_over_add(nonces(before), nonces(added));
    assert(nonces(Seq::<(Seq<u8>, u64, u128)>::empty()).to_set() =~= Set::<u64>::empty());
}

/// Fresh NFT nonces added to a set without duplicates keep it so.
pub proof fn lemma_fresh_nonces(existing: Seq<u64>, rs: Seq<(Seq<u8>, u64, u128)>)
    requires
        existing.no_duplicates(),
        nfts_fresh(existing, rs),
    ensures
        (existing + nonces(rs)).no_duplicates(),
{
    let all = existing + nonces(rs);
    let n = existing.len();
    assert forall|a: int, b: int| 0 <= a < all.len() && 0 <= b < all.len() && a != b implies all[a] != all[b] by {
        if a < n && b < n {
        } else if a < n {
            assert(all[b] == rs[b - n].1);
            assert(!existing.contains(rs[b - n].1));
            assert(existing[a] == all[a]);
        } else if b < n {
            assert(all[a] == rs[a - n].1);
            assert(!existing.contains(rs[a - n].1));
            assert(existing[b] == all[b]);
        } else {
            assert(all[a] == rs[a - n].1);
            assert(all[b] == rs[b - n].1);
            if a < b {
                assert(rs[a - n].1 != rs[b - n].1);
            } else {
                assert(rs[b - n].1 != rs[a - n].1);
            }
        }
    }
}

pub proof fn lemma_amount_for_concat(a: Seq<(Seq<u8>, u64, u128)>, b: Seq<(Seq<u8>, u64, u128)>, token: Seq<u8>, nonce: u64)
    ensures
        amount_for(a + b, token, nonce) == amount_for(a, token, nonce) + amount_for(b, token, nonce),
    decreases b.len(),
{
    if b.len() == 0 {
        assert(a + b =~= a);
    } else {
        assert((a + b).drop_last() =~= a + b.drop_last());
        lemma_amount_for_concat(a, b.drop_last(), token, nonce);
    }
}

pub proof fn lemma_amount_for_prefix(ps: Seq<(Seq<u8>, u64, u128)>, j: int, token: Seq<u8>, nonce: u64)
    requires
        0 <= j <= ps.len(),
    ensures
        amount_for(ps.take(j), token, nonce) <= amount_for(ps, token, nonce),
    decreases ps.len() - j,
{
    if j < ps.len() {
        assert(ps.take(j + 1).drop_last() =~= ps.take(j));
        lemma_amount_for_prefix(ps, j + 1, token, nonce);
    } else {
        assert(ps.take(j) =~= ps);
    }
}

pub proof fn lemma_deposit_sum_remove(entries: Seq<((u64, Vec<u8>), Vec<Payment>)>, i: int, token: Seq<u8>, nonce: u64)
    requires
        0 <= i < entries.len(),
    ensures
        deposit_sum(entries.remove(i), token, nonce) + amount_for(views(entries[i].1@), token, nonce)
            == deposit_sum(entries, token, nonce),
    decreases entries.len(),
{
    if i == entries.len() - 1 {
        assert(entries.remove(i) =~= entries.drop_last());
    } else {
        lemma_deposit_sum_remove(entries.drop_last(), i, token, nonce);
        assert(entries.remove(i).drop_last() =~= entries.drop_last().remove(i));
        assert(entries.remove(i).last() == entries.last());
    }
}

pub proof fn lemma_add_deposits(m: Map<(Seq<u8>, u64), u128>, ds: Seq<(Seq<u8>, u64, u128)>)
    requires
        add_deposits(m, ds) is Some,
    ensures
        forall|key: (Seq<u8>, u64)| #[trigger] stored_amount(add_deposits(m, ds)->0, key) == stored_amount(m, key)
            + amount_for(ds, key.0, key.1),
    decreases ds.len(),
{
    if ds.len() > 0 {
        lemma_add_deposits(m, ds.drop_last());
        let m2 = add_deposits(m, ds.drop_last())->0;
        let d = ds.last();
        assert forall|key: (Seq<u8>, u64)| #[trigger] stored_amount(add_deposits(m, ds)->0, key)
            == stored_amount(m, key) + amount_for(ds, key.0, key.1) by {
            assert(stored_amount(m2, key) == stored_amount(m, key) + amount_for(ds.drop_last(), key.0, key.1));
            if key == (d.0, d.1) {
            } else {
                assert(key.0 != d.0 || key.1 != d.1);
            }
        }
    } else {
        assert forall|key: (Seq<u8>, u64)| #[trigger] stored_amount(add_deposits(m, ds)->0, key)
            == stored_amount(m, key) + amount_for(ds, key.0, key.1) by {}
    }
}

pub proof fn lemma_add_deposits_stops(m: Map<(Seq<u8>, u64), u128>, ds: Seq<(Seq<u8>, u64, u128)>, k: int)
    requires
        0 <= k <= ds.len(),
        add_deposits(m, ds.take(k)) is None,
    ensures
        add_deposits(m, ds) is None,
    decreases ds.len() - k,
{
    if k < ds.len() {
        assert(ds.take(k + 1).drop_last() =~= ds.take(k));
        lemma_add_deposits_stops(m, ds, k + 1);
    } else {
        assert(ds.take(k) =~= ds);
    }
}

/// The vote weight that payments carry: the sum of their amounts.
pub fn get_weight_from_vote_payments(payments: &Vec<Payment>) -> (result: Result<u128, EntityError>)
    ensures
        payments_total(views(payments@)) <= u128::MAX ==> result == Ok::<u128, EntityError>(
            payments_total(views(payments@)) as u128,
        ),
        payments_total(views(payments@)) > u128::MAX ==> result == Err::<u128, EntityError>(
            EntityError::AmountOverflow,
        ),
{
    let ghost ps = views(payments@);
    let mut total: u128 = 0;
    let mut i: usize = 0;
    while i < payments.len()
        invariant
            i <= payments@.len(),
            ps == views(payments@),
            total == payments_total(ps.take(i as int)),
        decreases payments@.len() - i,
    {
        proof {
            assert(ps.take(i as int + 1).drop_last() =~= ps.take(i as int));
            assert(ps.take(i as int + 1).last() == payments@[i as int]@);
        }
        let amount = payments[i].amount;
        if total > u128::MAX - amount {
            proof {
                lemma_total_prefix(ps, i as int + 1);
            }
            return Err(EntityError::AmountOverflow);
        }
        total = total + amount;
        i = i + 1;
    }
    proof {
        assert(ps.take(ps.len() as int) =~= ps);
    }
    Ok(total)
}

pub proof fn lemma_total_prefix(ps: Seq<(Seq<u8>, u64, u128)>, j: int)
    requires
        0 <= j <= ps.len(),
    ensures
        payments_total(ps.take(j)) <= payments_total(ps),
    decreases ps.len() - j,
{
    if j < ps.len() {
        assert(ps.take(j + 1).drop_last() =~= ps.take(j));
        lemma_total_prefix(ps, j + 1);
    } else {
        assert(ps.take(j) =~= ps);
    }
}

/// The outcome of checking vote payments: the deposits, the NFTs to send
/// back, the NFT nonces the proposal will have seen and the guarded amounts
/// after the deposits.
pub struct VotePaymentsPlan {
    pub deposits: Vec<Payment>,
    pub returnables: Vec<Payment>,
    pub nft_votes: Vec<u64>,
    pub guarded: Store<(Vec<u8>, u64), u128>,
}

impl EntityContract {
    /// The guarded amount of every token and nonce is exactly what voters
    /// deposited and can still withdraw; the older per-voter record holds
    /// nothing.
    pub open spec fn deposits_balanced(&self) -> bool {
        &&& forall|token: Seq<u8>, nonce: u64| #[trigger]
            self.config.guarded(token, nonce) == deposit_sum(
                self.governance.withdrawable_votes.entries@,
                token,
                nonce,
            )
        &&& forall|id: u64, voter: Seq<u8>| #[trigger] self.governance.legacy_votes(id, voter) == 0
    }

    /// The balance of deposits holds on when neither the guarded amounts
    /// nor the recorded votes change.
    pub proof fn lemma_deposits_kept(old_e: &EntityContract, new_e: &EntityContract)
        requires
            old_e.deposits_balanced(),
            new_e.config.guarded_vote_tokens == old_e.config.guarded_vote_tokens,
            new_e.governance.withdrawable_votes == old_e.governance.withdrawable_votes,
            new_e.governance.votes == old_e.governance.votes,
        ensures
            new_e.deposits_balanced(),
    {
        assert forall|token: Seq<u8>, nonce: u64| #[trigger]
            new_e.config.guarded(token, nonce) == deposit_sum(
                new_e.governance.withdrawable_votes.entries@,
                token,
                nonce,
            ) by {
            assert(old_e.config.guarded(token, nonce) == deposit_sum(
                old_e.governance.withdrawable_votes.entries@,
                token,
                nonce,
            ));
        }
        assert forall|id: u64, voter: Seq<u8>| #[trigger] new_e.governance.legacy_votes(id, voter) == 0 by {
            assert(old_e.governance.legacy_votes(id, voter) == 0);
        }
    }

    /// A vote payment is deposited when it is fungible (nonce 0) or when
    /// the entity locks vote tokens of its kind; other NFTs go back.
    pub open spec fn is_deposit(&self, p: (Seq<u8>, u64, u128)) -> bool {
        p.1 == 0 || self.config.locks(p.0)
    }

    pub open spec fn deposits_of(&self, ps: Seq<(Seq<u8>, u64, u128)>) -> Seq<(Seq<u8>, u64, u128)>
        decreases ps.len(),
    {
        if ps.len() == 0 {
            Seq::empty()
        } else if self.is_deposit(ps.last()) {
            self.deposits_of(ps.drop_last()).push(ps.last())
        } else {
            self.deposits_of(ps.drop_last())
        }
    }

    pub open spec fn returns_of(&self, ps: Seq<(Seq<u8>, u64, u128)>) -> Seq<(Seq<u8>, u64, u128)>
        decreases ps.len(),
    {
        if ps.len() == 0 {
            Seq::empty()
        } else if !self.is_deposit(ps.last()) {
            self.returns_of(ps.drop_last()).push(ps.last())
        } else {
            self.returns_of(ps.drop_last())
        }
    }

    /// Why committing the payments as votes on `proposal_id` would be
    /// refused, if it would.
    pub open spec fn commit_refusal(&self, proposal_id: u64, ps: Seq<(Seq<u8>, u64, u128)>) -> Option<EntityError> {
        if !nfts_fresh(self.governance.nft_votes(proposal_id), self.returns_of(ps)) {
            Some(EntityError::AlreadyVotedWithNft)
        } else if add_deposits(self.config.guarded_vote_tokens.map(), self.deposits_of(ps)) is None {
            Some(EntityError::AmountOverflow)
        } else {
            None
        }
    }

    /// Splits the payments into deposits and NFTs to send back.
    fn split_vote_payments(&self, payments: &Vec<Payment>) -> (split: (Vec<Payment>, Vec<Payment>))
        requires
            self.wf(),
        ensures
            views(split.0@) == self.deposits_of(views(payments@)),
            views(split.1@) == self.returns_of(views(payments@)),
    {
        let ghost ps = views(payments@);
        let mut deposits: Vec<Payment> = Vec::new();
        let mut returnables: Vec<Payment> = Vec::new();
        let mut i: usize = 0;
        while i < payments.len()
            invariant
                self.wf(),
                i <= payments@.len(),
                ps == views(payments@),
                views(deposits@) == self.deposits_of(ps.take(i as int)),
                views(returnables@) == self.returns_of(ps.take(i as int)),
            decreases payments@.len() - i,
        {
            let payment = &payments[i];
            proof {
                assert(ps.take(i as int + 1).drop_last() =~= ps.take(i as int));
                assert(ps.take(i as int + 1).last() == payment@);
            }
            if payment.token_nonce == 0 || self.config.is_locking_vote_tokens(&payment.token_identifier) {
                let ghost before = views(deposits@);
                deposits.push(payment.copy());
                assert(views(deposits@) =~= before.push(payment@));
            } else {
                let ghost before = views(returnables@);
                returnables.push(payment.copy());
                assert(views(returnables@) =~= before.push(payment@));
            }
            i = i + 1;
        }
        proof {
            assert(ps.take(ps.len() as int) =~= ps);
        }
        (deposits, returnables)
    }

    /// A plan matches the entity when it holds what committing the caller's
    /// payments on `proposal_id` would record.
    pub open spec fn plan_fits(&self, plan: &VotePaymentsPlan, payments: Seq<(Seq<u8>, u64, u128)>, proposal_id: u64) -> bool {
        &&& views(plan.deposits@) == self.deposits_of(payments)
        &&& views(plan.returnables@) == self.returns_of(payments)
        &&& plan.nft_votes@ == self.governance.nft_votes(proposal_id) + nonces(self.returns_of(payments))
        &&& nfts_fresh(self.governance.nft_votes(proposal_id), self.returns_of(payments))
        &&& plan.guarded.wf()
        &&& add_deposits(self.config.guarded_vote_tokens.map(), self.deposits_of(payments)) == Some(plan.guarded.map())
    }

    /// Checks the caller's vote payments on `proposal_id` without recording
    /// them.
    pub fn plan_vote_payments(&self, ctx: &CallContext, proposal_id: u64) -> (result: Result<VotePaymentsPlan, EntityError>)
        requires
            self.wf(),
        ensures
            match result {
                Err(e) => self.commit_refusal(proposal_id, views(ctx.esdt_transfers@)) == Some(e),
                Ok(plan) => self.commit_refusal(proposal_id, views(ctx.esdt_transfers@)) is None
                    && self.plan_fits(&plan, views(ctx.esdt_transfers@), proposal_id),
            },
    {
        let ghost ps = views(ctx.esdt_transfers@);
        let (deposits, returnables) = self.split_vote_payments(&ctx.esdt_transfers);
        let ghost ds = views(deposits@);
        let ghost rs = views(returnables@);
        let ghost existing = self.governance.nft_votes(proposal_id);
        let mut nft_votes: Vec<u64> = match self.governance.proposal_nft_votes.get(&proposal_id) {
            Some(v) => copy_ids(v),
            None => Vec::new(),
        };
        let mut j: usize = 0;
        while j < returnables.len()
            invariant
                self.wf(),
                ps == views(ctx.esdt_transfers@),
                rs == self.returns_of(ps),
                existing == self.governance.nft_votes(proposal_id),
                j <= rs.len(),
                rs == views(returnables@),
                nft_votes@ == existing + nonces(rs.take(j as int)),
                nfts_fresh(existing, rs.take(j as int)),
            decreases rs.len() - j,
        {
            let nonce = returnables[j].token_nonce;
            let ghost before = nft_votes@;
            proof {
                assert(rs[j as int] == returnables@[j as int]@);
                assert(nonces(rs.take(j as int + 1)) =~= nonces(rs.take(j as int)).push(nonce));
            }
            if !set_insert(&mut nft_votes, nonce) {
                proof {
                    assert(views(before) =~= before);
                    assert(before.contains(nonce));
                    let k = choose|k: int| 0 <= k < before.len() && before[k] == nonce;
                    assert(!nfts_fresh(existing, rs)) by {
                        if k < existing.len() {
                            assert(existing[k] == nonce);
                            assert(existing.contains(rs[j as int].1));
                        } else {
                            let i = k - existing.len();
                            assert(nonces(rs.take(j as int))[i] == nonce);
                            assert(rs[i].1 == rs[j as int].1);
                        }
                    }
                }
                return Err(EntityError::AlreadyVotedWithNft);
            }
            proof {
                assert(views(before) =~= before);
                assert(views(nft_votes@) =~= nft_votes@);
                assert(nft_votes@ =~= existing + nonces(rs.take(j as int + 1)));
                assert(nfts_fresh(existing, rs.take(j as int + 1))) by {
                    let t = rs.take(j as int + 1);
                    assert forall|a: int| 0 <= a < t.len() implies !existing.contains(#[trigger] t[a].1) && forall|b: int|
                        0 <= b < a ==> t[b].1 != t[a].1 by {
                        if a == j {
                            if existing.contains(t[a].1) {
                                let x = choose|x: int| 0 <= x < existing.len() && existing[x] == t[a].1;
                                assert(before[x] == nonce);
                            }
                            assert forall|b: int| 0 <= b < a implies t[b].1 != t[a].1 by {
                                assert(before[existing.len() + b] == t[b].1);
                            }
                        } else {
                            assert(rs.take(j as int)[a] == t[a]);
                            assert forall|b: int| 0 <= b < a implies t[b].1 != t[a].1 by {
                                assert(rs.take(j as int)[b] == t[b]);
                            }
                        }
                    }
                }
            }
            j = j + 1;
        }
        proof {
            assert(rs.take(rs.len() as int) =~= rs);
        }
        let ghost start = self.config.guarded_vote_tokens.map();
        let mut guarded = self.config.guarded_vote_tokens.copy();
        let mut k: usize = 0;
        while k < deposits.len()
            invariant
                self.wf(),
                ps == views(ctx.esdt_transfers@),
                rs == self.returns_of(ps),
                ds == self.deposits_of(ps),
                existing == self.governance.nft_votes(proposal_id),
                nfts_fresh(existing, rs),
                start == self.config.guarded_vote_tokens.map(),
                k <= ds.len(),
                ds == views(deposits@),
                guarded.wf(),
                add_deposits(start, ds.take(k as int)) == Some(guarded.map()),
            decreases ds.len() - k,
        {
            let deposit = &deposits[k];
            proof {
                assert(ds.take(k as int + 1).drop_last() =~= ds.take(k as int));
                assert(ds.take(k as int + 1).last() == deposit@);
            }
            let key = (copy_bytes(&deposit.token_identifier), deposit.token_nonce);
            let current = match guarded.get(&key) {
                Some(amount) => *amount,
                None => 0,
            };
            if current > u128::MAX - deposit.amount {
                proof {
                    lemma_add_deposits_stops(start, ds, k as int + 1);
                }
                return Err(EntityError::AmountOverflow);
            }
            guarded.insert(key, current + deposit.amount);
            k = k + 1;
        }
        proof {
            assert(ds.take(ds.len() as int) =~= ds);
            lemma_add_deposits(start, ds);
        }
        proof {
            assert(ds.take(ds.len() as int) =~= ds);
        }
        Ok(VotePaymentsPlan { deposits, returnables, nft_votes, guarded })
    }

    /// Records planned vote payments on `proposal_id`; gives the NFTs to
    /// send back.
    #[verifier::rlimit(60)]
    pub fn apply_vote_payments(&mut self, ctx: &CallContext, proposal_id: u64, plan: VotePaymentsPlan) -> (returned: Vec<Payment>)
        requires
            old(self).wf(),
            proposal_id < old(self).governance.next_proposal_id,
            old(self).plan_fits(&plan, views(ctx.esdt_transfers@), proposal_id),
        ensures
            final(self).wf(),
            ({
                let ps = views(ctx.esdt_transfers@);
                let ds = old(self).deposits_of(ps);
                let rs = old(self).returns_of(ps);
                &&& views(returned@) == rs
                &&& forall|token: Seq<u8>, nonce: u64| #[trigger] final(self).config.guarded(token, nonce)
                    == old(self).config.guarded(token, nonce) + amount_for(ds, token, nonce)
                &&& final(self).governance.withdrawable(proposal_id, ctx.caller@) == old(self).governance.withdrawable(proposal_id, ctx.caller@) + ds
                &&& forall|id: u64, voter: Seq<u8>| (id, voter) != (proposal_id, ctx.caller@) ==> #[trigger] final(self).governance.withdrawable(id, voter) == old(self).governance.withdrawable(id, voter)
                &&& final(self).governance.withdrawable_ids(ctx.caller@) == if ds.len() > 0 {
                    set_with(old(self).governance.withdrawable_ids(ctx.caller@), proposal_id)
                } else {
                    old(self).governance.withdrawable_ids(ctx.caller@)
                }
                &&& forall|voter: Seq<u8>| voter != ctx.caller@ ==> #[trigger] final(self).governance.withdrawable_ids(voter) == old(self).governance.withdrawable_ids(voter)
                &&& final(self).governance.nft_votes(proposal_id) == old(self).governance.nft_votes(proposal_id) + nonces(rs)
                &&& forall|id: u64| id != proposal_id ==> #[trigger] final(self).governance.nft_votes(id) == old(self).governance.nft_votes(id)
                &&& final(self).governance == (ProposalModule {
                    proposal_nft_votes: final(self).governance.proposal_nft_votes,
                    withdrawable_proposal_ids: final(self).governance.withdrawable_proposal_ids,
                    withdrawable_votes: final(self).governance.withdrawable_votes,
                    ..old(self).governance
                })
                &&& final(self).config.lock_vote_tokens == old(self).config.lock_vote_tokens
                &&& final(self).config.gov_token_id == old(self).config.gov_token_id
                &&& final(self).config.trusted_host_address == old(self).config.trusted_host_address
                &&& final(self).config.quorum == old(self).config.quorum
                &&& final(self).config.min_vote_weight == old(self).config.min_vote_weight
                &&& final(self).config.min_propose_weight == old(self).config.min_propose_weight
                &&& final(self).config.voting_period_in_minutes == old(self).config.voting_period_in_minutes
                &&& final(self).members == old(self).members
                &&& final(self).plug == old(self).plug
                &&& final(self).contracts == old(self).contracts
                &&& final(self).events == old(self).events
            }),
    {
        let ghost ps = views(ctx.esdt_transfers@);
        let ghost ds = self.deposits_of(ps);
        let ghost rs = self.returns_of(ps);
        let ghost existing = self.governance.nft_votes(proposal_id);
        let ghost start = self.config.guarded_vote_tokens.map();
        let VotePaymentsPlan { deposits, returnables, nft_votes, guarded } = plan;
        proof {
            lemma_add_deposits(start, ds);
        }
        let ghost before = *self;
        let ghost new_guarded = guarded.map();
        self.config.guarded_vote_tokens = guarded;
        proof {
            assert(existing.no_duplicates()) by {
                if before.governance.proposal_nft_votes.map().contains_key(proposal_id) {
                    assert(before.governance.proposal_nft_votes.map()[proposal_id]@.no_duplicates());
                }
            }
            lemma_fresh_nonces(existing, rs);
        }
        if returnables.len() != 0 {
            self.governance.proposal_nft_votes.insert(proposal_id, nft_votes);
        }
        let ghost nft_done = *self;
        proof {
            assert(self.governance.nft_votes(proposal_id) =~= existing + nonces(rs)) by {
                if rs.len() == 0 {
                    assert(nonces(rs) =~= Seq::<u64>::empty());
                }
            }
        }
        if deposits.len() != 0 {
            let key = (proposal_id, copy_bytes(&ctx.caller));
            let ghost pre_take = self.governance.withdrawable_votes.entries@;
            let taken_list = self.governance.withdrawable_votes.take(&key);
            let ghost taken = self.governance.withdrawable_votes.entries@;
            proof {
                assert(pre_take == before.governance.withdrawable_votes.entries@);
                assert forall|token: Seq<u8>, nonce: u64| #[trigger] deposit_sum(taken, token, nonce) + amount_for(
                    before.governance.withdrawable(proposal_id, ctx.caller@), token, nonce) == deposit_sum(pre_take, token, nonce) by {
                    match taken_list {
                        Some(v) => {
                            let i = choose|i: int| 0 <= i < pre_take.len() && pre_take[i] == (pre_take[i].0, v) && pre_take[i].0@ == key@ && taken == pre_take.remove(i);
                            lemma_deposit_sum_remove(pre_take, i, token, nonce);
                        },
                        None => {
                            assert(before.governance.withdrawable(proposal_id, ctx.caller@).len() == 0);
                        },
                    }
                }
            }
            let mut list = match taken_list {
                Some(l) => l,
                None => Vec::new(),
            };
            let ghost list_start = views(list@);
            proof {
                assert(list_start == before.governance.withdrawable(proposal_id, ctx.caller@));
            }
            let mut m: usize = 0;
            while m < deposits.len()
                invariant
                    m <= ds.len(),
                    ds == views(deposits@),
                    views(list@) == list_start + ds.take(m as int),
                decreases ds.len() - m,
            {
                let ghost b = views(list@);
                list.push(deposits[m].copy());
                proof {
                    assert(ds.take(m as int + 1) =~= ds.take(m as int).push(deposits@[m as int]@));
                    assert(views(list@) =~= b.push(deposits@[m as int]@));
                }
                m = m + 1;
            }
            proof {
                assert(ds.take(ds.len() as int) =~= ds);
            }
            let ghost list_final = list;
            self.governance.withdrawable_votes.insert(key, list);
            let mut ids = match self.governance.withdrawable_proposal_ids.take(&ctx.caller) {
                Some(v) => v,
                None => Vec::new(),
            };
            let ghost ids_before = ids@;
            let _ = set_insert(&mut ids, proposal_id);
            proof {
                assert(views(ids_before) =~= ids_before);
                assert(views(ids@) =~= ids@);
            }
            self.governance.withdrawable_proposal_ids.insert(copy_bytes(&ctx.caller), ids);
            proof {
                assert(self.governance.withdrawable_votes.map()[(proposal_id, ctx.caller@)] == list_final);
                assert(self.governance.withdrawable_votes.entries@.drop_last() =~= taken);
                assert(self.config.guarded_vote_tokens.map() == new_guarded);
                lemma_deposits_commit_balanced(before, *self, taken, proposal_id, ctx.caller@, ds);
            }
        } else {
            proof {
                assert(ds.len() == 0);
                assert forall|token: Seq<u8>, nonce: u64| #[trigger] self.config.guarded(token, nonce)
                    == deposit_sum(self.governance.withdrawable_votes.entries@, token, nonce) by {
                    assert(before.config.guarded(token, nonce) == deposit_sum(before.governance.withdrawable_votes.entries@, token, nonce));
                    assert(stored_amount(start, (token, nonce)) == before.config.guarded(token, nonce));
                    assert(stored_amount(self.config.guarded_vote_tokens.map(), (token, nonce)) == self.config.guarded(token, nonce));
                }
                assert forall|id: u64, voter: Seq<u8>| #[trigger] self.governance.legacy_votes(id, voter) == 0 by {
                    assert(before.governance.legacy_votes(id, voter) == 0);
                }
                assert(self.governance.withdrawable(proposal_id, ctx.caller@) =~= before.governance.withdrawable(proposal_id, ctx.caller@) + ds);
            }
        }
        proof {
            assert(self.config.guarded_vote_tokens.map() == new_guarded);
            assert forall|token: Seq<u8>, nonce: u64| #[trigger] self.config.guarded(token, nonce)
                == before.config.guarded(token, nonce) + amount_for(ds, token, nonce) by {
                assert(stored_amount(add_deposits(start, ds)->0, (token, nonce)) == stored_amount(start, (token, nonce)) + amount_for(ds, token, nonce));
                assert(stored_amount(start, (token, nonce)) == before.config.guarded(token, nonce));
                assert(stored_amount(self.config.guarded_vote_tokens.map(), (token, nonce)) == self.config.guarded(token, nonce));
            }
        }
        returnables
    }

    /// Records the caller's vote payments on `proposal_id`: deposits are
    /// guarded until the caller withdraws them; NFTs that are not locked are
    /// counted once per nonce and handed back (the result).
    pub fn commit_vote_payments(&mut self, ctx: &CallContext, proposal_id: u64) -> (result: Result<Vec<Payment>, EntityError>)
        requires
            old(self).wf(),
            proposal_id < old(self).governance.next_proposal_id,
        ensures
            final(self).wf(),
            ({
                let refusal = old(self).commit_refusal(proposal_id, views(ctx.esdt_transfers@));
                match result {
                    Err(e) => refusal == Some(e) && *final(self) == *old(self),
                    Ok(_) => refusal is None,
                }
            }),
            result matches Ok(returned) ==> {
                let ps = views(ctx.esdt_transfers@);
                let ds = old(self).deposits_of(ps);
                let rs = old(self).returns_of(ps);
                &&& views(returned@) == rs
                &&& forall|token: Seq<u8>, nonce: u64| #[trigger] final(self).config.guarded(token, nonce)
                    == old(self).config.guarded(token, nonce) + amount_for(ds, token, nonce)
                &&& final(self).governance.withdrawable(proposal_id, ctx.caller@) == old(self).governance.withdrawable(proposal_id, ctx.caller@) + ds
                &&& forall|id: u64, voter: Seq<u8>| (id, voter) != (proposal_id, ctx.caller@) ==> #[trigger] final(self).governance.withdrawable(id, voter) == old(self).governance.withdrawable(id, voter)
                &&& final(self).governance.withdrawable_ids(ctx.caller@) == if ds.len() > 0 {
                    set_with(old(self).governance.withdrawable_ids(ctx.caller@), proposal_id)
                } else {
                    old(self).governance.withdrawable_ids(ctx.caller@)
                }
                &&& forall|voter: Seq<u8>| voter != ctx.caller@ ==> #[trigger] final(self).governance.withdrawable_ids(voter) == old(self).governance.withdrawable_ids(voter)
                &&& final(self).governance.nft_votes(proposal_id) == old(self).governance.nft_votes(proposal_id) + nonces(rs)
                &&& final(self).governance.withdrawable_nonces(proposal_id, ctx.caller@)
                    == old(self).governance.withdrawable_nonces(proposal_id, ctx.caller@) + nonces(ds).to_set()
                &&& forall|id: u64| id != proposal_id ==> #[trigger] final(self).governance.nft_votes(id) == old(self).governance.nft_votes(id)
                &&& final(self).governance == (ProposalModule {
                    proposal_nft_votes: final(self).governance.proposal_nft_votes,
                    withdrawable_proposal_ids: final(self).governance.withdrawable_proposal_ids,
                    withdrawable_votes: final(self).governance.withdrawable_votes,
                    ..old(self).governance
                })
                &&& final(self).config.lock_vote_tokens == old(self).config.lock_vote_tokens
                &&& final(self).config.gov_token_id == old(self).config.gov_token_id
                &&& final(self).config.trusted_host_address == old(self).config.trusted_host_address
                &&& final(self).config.quorum == old(self).config.quorum
                &&& final(self).config.min_vote_weight == old(self).config.min_vote_weight
                &&& final(self).config.min_propose_weight == old(self).config.min_propose_weight
                &&& final(self).config.voting_period_in_minutes == old(self).config.voting_period_in_minutes
                &&& final(self).members == old(self).members
                &&& final(self).plug == old(self).plug
                &&& final(self).contracts == old(self).contracts
                &&& final(self).events == old(self).events
            },
    {
        let plan = self.plan_vote_payments(ctx, proposal_id)?;
        let ghost before = *self;
        let returned = self.apply_vote_payments(ctx, proposal_id, plan);
        proof {
            lemma_nonces_of_added(
                before.governance.withdrawable(proposal_id, ctx.caller@),
                before.deposits_of(views(ctx.esdt_transfers@)),
            );
        }
        Ok(returned)
    }
}

/// Committing deposits adds to the guarded amounts exactly what it adds to
/// the withdrawable votes.
pub proof fn lemma_deposits_commit_balanced(
    before: EntityContract,
    after: EntityContract,
    taken: Seq<((u64, Vec<u8>), Vec<Payment>)>,
    proposal_id: u64,
    caller: Seq<u8>,
    ds: Seq<(Seq<u8>, u64, u128)>,
)
    requires
        before.deposits_balanced(),
        add_deposits(before.config.guarded_vote_tokens.map(), ds) is Some,
        after.config.guarded_vote_tokens.map() == add_deposits(before.config.guarded_vote_tokens.map(), ds)->0,
        after.governance.votes == before.governance.votes,
        forall|token: Seq<u8>, nonce: u64| #[trigger] deposit_sum(taken, token, nonce) + amount_for(
            before.governance.withdrawable(proposal_id, caller), token, nonce) == deposit_sum(before.governance.withdrawable_votes.entries@, token, nonce),
        after.governance.withdrawable_votes.entries@.len() == taken.len() + 1,
        after.governance.withdrawable_votes.entries@.drop_last() == taken,
        views(after.governance.withdrawable_votes.entries@.last().1@) == before.governance.withdrawable(proposal_id, caller) + ds,
    ensures
        after.deposits_balanced(),
{
    lemma_add_deposits(before.config.guarded_vote_tokens.map(), ds);
    assert forall|token: Seq<u8>, nonce: u64| #[trigger] after.config.guarded(token, nonce)
        == deposit_sum(after.governance.withdrawable_votes.entries@, token, nonce) by {
        let w = before.governance.withdrawable(proposal_id, caller);
        lemma_amount_for_concat(w, ds, token, nonce);
        assert(before.config.guarded(token, nonce) == deposit_sum(before.governance.withdrawable_votes.entries@, token, nonce));
        assert(stored_amount(before.config.guarded_vote_tokens.map(), (token, nonce)) == before.config.guarded(token, nonce));
        assert(stored_amount(after.config.guarded_vote_tokens.map(), (token, nonce)) == after.config.guarded(token, nonce));
        assert(deposit_sum(taken, token, nonce) + amount_for(w, token, nonce) == deposit_sum(before.governance.withdrawable_votes.entries@, token, nonce));
    }
    assert forall|id: u64, voter: Seq<u8>| #[trigger] after.governance.legacy_votes(id, voter) == 0 by {
        assert(before.governance.legacy_votes(id, voter) == 0);
    }
}

/// What a withdrawal did: nothing for an unknown proposal, nothing while
/// the proposal is still open to votes, or the deposits handed back.
pub enum WithdrawOutcome {
    NoProposal,
    StillVoting,
    Withdrawn(Vec<Payment>),
}

impl EntityContract {
    /// The caller may withdraw from proposal `id` at `now`: it exists and
    /// is no longer open to votes.
    pub open spec fn withdrawal_open(&self, id: u64, now: u64) -> bool {
        &&& self.governance.has_proposal(id)
        &&& self.proposal_status(self.governance.proposal(id), now) != ProposalStatus::Active
        &&& self.proposal_status(self.governance.proposal(id), now) != ProposalStatus::Pending
    }

    /// The deposits that withdrawing from the proposals `ids` hands back,
    /// one batch per proposal that is no longer open to votes and holds
    /// deposits of the caller.
    pub open spec fn withdrawn_batches(&self, ids: Seq<u64>, caller: Seq<u8>, now: u64) -> Seq<Seq<(Seq<u8>, u64, u128)>>
        decreases ids.len(),
    {
        if ids.len() == 0 {
            Seq::empty()
        } else {
            let before = self.withdrawn_batches(ids.drop_last(), caller, now);
            let id = ids.last();
            if self.withdrawal_open(id, now) && self.governance.withdrawable(id, caller).len() > 0 {
                before.push(self.governance.withdrawable(id, caller))
            } else {
                before
            }
        }
    }

    /// The events that withdrawing from the proposals `ids` logs.
    pub open spec fn withdraw_events(&self, ids: Seq<u64>, caller: Seq<u8>, now: u64) -> Seq<EventView>
        decreases ids.len(),
    {
        if ids.len() == 0 {
            Seq::empty()
        } else {
            let before = self.withdraw_events(ids.drop_last(), caller, now);
            let id = ids.last();
            if self.withdrawal_open(id, now) {
                before.push(EventView::Withdraw { caller, proposal_id: id })
            } else {
                before
            }
        }
    }
}

} // verus!
