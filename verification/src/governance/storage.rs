use vstd::prelude::*;

use crate::config::Payment;
use crate::governance::deposits::nonces;
use crate::governance::proposal::{Proposal, ProposalView};
use crate::store::{copy_bytes, set_contains, set_insert, views, Store};

verus! {

/// The proposals and what was recorded about them: signatures of role
/// members, poll results, NFT votes and the deposits voters can withdraw.
pub struct ProposalModule {
    pub proposals: Store<u64, Proposal>,
    pub next_proposal_id: u64,
    pub proposal_signers: Store<(u64, Vec<u8>), Vec<usize>>,
    pub proposal_nft_votes: Store<u64, Vec<u64>>,
    pub proposal_poll: Store<(u64, u8), u128>,
    pub known_trusted_host_proposal_ids: Vec<Vec<u8>>,
    pub withdrawable_proposal_ids: Store<Vec<u8>, Vec<u64>>,
    pub withdrawable_votes: Store<(u64, Vec<u8>), Vec<Payment>>,
    /// Votes in the older per-voter record, per proposal and voter, in the
    /// governance token with nonce 0; withdrawal still hands them back.
    pub votes: Store<(u64, Vec<u8>), u128>,
}

impl ProposalModule {
    pub open spec fn has_proposal(&self, id: u64) -> bool {
        self.proposals.map().contains_key(id)
    }

    pub open spec fn proposal(&self, id: u64) -> ProposalView {
        self.proposals.map()[id]@
    }

    /// The user ids that signed proposal `id` for `role`.
    pub open spec fn signers(&self, id: u64, role: Seq<u8>) -> Seq<usize> {
        if self.proposal_signers.map().contains_key((id, role)) {
            self.proposal_signers.map()[(id, role)]@
        } else {
            Seq::empty()
        }
    }

    /// The nonces of the NFTs that voted on proposal `id`.
    pub open spec fn nft_votes(&self, id: u64) -> Seq<u64> {
        if self.proposal_nft_votes.map().contains_key(id) {
            self.proposal_nft_votes.map()[id]@
        } else {
            Seq::empty()
        }
    }

    /// The weight cast for poll option `option` of proposal `id`.
    pub open spec fn poll(&self, id: u64, option: u8) -> nat {
        if self.proposal_poll.map().contains_key((id, option)) {
            self.proposal_poll.map()[(id, option)] as nat
        } else {
            0
        }
    }

    /// The proposals on which `voter` deposited tokens.
    pub open spec fn withdrawable_ids(&self, voter: Seq<u8>) -> Seq<u64> {
        if self.withdrawable_proposal_ids.map().contains_key(voter) {
            self.withdrawable_proposal_ids.map()[voter]@
        } else {
            Seq::empty()
        }
    }

    /// The deposits of `voter` on proposal `id`, in the order they came.
    pub open spec fn withdrawable(&self, id: u64, voter: Seq<u8>) -> Seq<(Seq<u8>, u64, u128)> {
        if self.withdrawable_votes.map().contains_key((id, voter)) {
            views(self.withdrawable_votes.map()[(id, voter)]@)
        } else {
            Seq::empty()
        }
    }

    /// The token nonces among the deposits of `voter` on proposal `id`.
    pub open spec fn withdrawable_nonces(&self, id: u64, voter: Seq<u8>) -> Set<u64> {
        nonces(self.withdrawable(id, voter)).to_set()
    }

    pub open spec fn legacy_votes(&self, id: u64, voter: Seq<u8>) -> nat {
        if self.votes.map().contains_key((id, voter)) {
            self.votes.map()[(id, voter)] as nat
        } else {
            0
        }
    }

    pub open spec fn is_known_trusted_host_id(&self, th_id: Seq<u8>) -> bool {
        views(self.known_trusted_host_proposal_ids@).contains(th_id)
    }

    pub open spec fn wf(&self) -> bool {
        &&& self.proposals.wf()
        &&& self.proposal_signers.wf()
        &&& self.proposal_nft_votes.wf()
        &&& self.proposal_poll.wf()
        &&& self.withdrawable_proposal_ids.wf()
        &&& self.withdrawable_votes.wf()
        &&& self.votes.wf()
        &&& self.next_proposal_id >= 1
        &&& forall|id: u64| #[trigger]
            self.proposals.map().contains_key(id) ==> self.proposals.map()[id].id == id
                && id < self.next_proposal_id
        &&& forall|id: u64, role: Seq<u8>| #[trigger]
            self.proposal_signers.map().contains_key((id, role)) ==> id < self.next_proposal_id
        &&& forall|id: u64| #[trigger]
            self.proposal_nft_votes.map().contains_key(id) ==> id < self.next_proposal_id
        &&& forall|id: u64, option: u8| #[trigger]
            self.proposal_poll.map().contains_key((id, option)) ==> id < self.next_proposal_id
        &&& forall|id: u64, voter: Seq<u8>| #[trigger]
            self.withdrawable_votes.map().contains_key((id, voter)) ==> id < self.next_proposal_id
        &&& forall|voter: Seq<u8>| #[trigger]
            self.withdrawable_proposal_ids.map().contains_key(voter) ==> self.withdrawable_proposal_ids.map()[voter]@.no_duplicates()
        &&& forall|id: u64| #[trigger]
            self.proposal_nft_votes.map().contains_key(id) ==> self.proposal_nft_votes.map()[id]@.no_duplicates()
        &&& forall|key: (u64, Seq<u8>)| #[trigger]
            self.proposal_signers.map().contains_key(key) ==> self.proposal_signers.map()[key]@.no_duplicates()
    }

    /// Nothing proposed yet; the first proposal gets id 1.
    pub fn new() -> (module: Self)
        ensures
            module.wf(),
            module.next_proposal_id == 1,
            module.proposals.map() == Map::<u64, Proposal>::empty(),
            module.proposal_signers.map() == Map::<(u64, Seq<u8>), Vec<usize>>::empty(),
            module.proposal_nft_votes.map() == Map::<u64, Vec<u64>>::empty(),
            module.proposal_poll.map() == Map::<(u64, u8), u128>::empty(),
            views(module.known_trusted_host_proposal_ids@) == Seq::<Seq<u8>>::empty(),
            module.withdrawable_proposal_ids.map() == Map::<Seq<u8>, Vec<u64>>::empty(),
            module.withdrawable_votes.map() == Map::<(u64, Seq<u8>), Vec<Payment>>::empty(),
            module.votes.map() == Map::<(u64, Seq<u8>), u128>::empty(),
            module.withdrawable_votes.entries@.len() == 0,
    {
        let module = ProposalModule {
            proposals: Store::new(),
            next_proposal_id: 1,
            proposal_signers: Store::new(),
            proposal_nft_votes: Store::new(),
            proposal_poll: Store::new(),
            known_trusted_host_proposal_ids: Vec::new(),
            withdrawable_proposal_ids: Store::new(),
            withdrawable_votes: Store::new(),
            votes: Store::new(),
        };
        assert(views(module.known_trusted_host_proposal_ids@) =~= Seq::<Seq<u8>>::empty());
        module
    }

    pub fn proposal_exists(&self, proposal_id: u64) -> (exists: bool)
        requires
            self.wf(),
        ensures
            exists == self.has_proposal(proposal_id),
    {
        self.proposals.contains_key(&proposal_id)
    }

    /// A copy of the stored proposal `proposal_id`.
    pub fn get_proposal(&self, proposal_id: u64) -> (proposal: Option<Proposal>)
        requires
            self.wf(),
        ensures
            match proposal {
                Some(p) => self.has_proposal(proposal_id) && p@ == self.proposal(proposal_id),
                None => !self.has_proposal(proposal_id),
            },
    {
        match self.proposals.get(&proposal_id) {
            Some(p) => Some(p.copy()),
            None => None,
        }
    }

    /// The user ids that signed proposal `proposal_id` for `role`.
    pub fn get_signers(&self, proposal_id: u64, role: &Vec<u8>) -> (signers: Vec<usize>)
        requires
            self.wf(),
        ensures
            signers@ == self.signers(proposal_id, role@),
    {
        match self.proposal_signers.get(&(proposal_id, copy_bytes(role))) {
            Some(s) => copy_ids(s),
            None => Vec::new(),
        }
    }

    pub fn signer_count(&self, proposal_id: u64, role: &Vec<u8>) -> (count: usize)
        requires
            self.wf(),
        ensures
            count == self.signers(proposal_id, role@).len(),
    {
        match self.proposal_signers.get(&(proposal_id, copy_bytes(role))) {
            Some(s) => s.len(),
            None => 0,
        }
    }

    pub fn has_signed(&self, proposal_id: u64, role: &Vec<u8>, user_id: usize) -> (signed: bool)
        requires
            self.wf(),
        ensures
            signed == self.signers(proposal_id, role@).contains(user_id),
    {
        match self.proposal_signers.get(&(proposal_id, copy_bytes(role))) {
            Some(s) => {
                let found = set_contains(s, &user_id);
                assert(views(s@) =~= s@);
                found
            },
            None => false,
        }
    }

    pub fn is_known_trusted_host_proposal_id(&self, th_id: &Vec<u8>) -> (known: bool)
        ensures
            known == self.is_known_trusted_host_id(th_id@),
    {
        set_contains(&self.known_trusted_host_proposal_ids, th_id)
    }

    pub fn get_poll(&self, proposal_id: u64, option_id: u8) -> (weight: u128)
        requires
            self.wf(),
        ensures
            weight == self.poll(proposal_id, option_id),
    {
        match self.proposal_poll.get(&(proposal_id, option_id)) {
            Some(w) => *w,
            None => 0,
        }
    }

    /// The distinct token nonces among the deposits of `voter` on proposal
    /// `proposal_id`, in the order they first came.
    pub fn withdrawable_proposal_token_nonces(&self, proposal_id: u64, voter: &Vec<u8>) -> (found: Vec<u64>)
        requires
            self.wf(),
        ensures
            found@.no_duplicates(),
            found@.to_set() == self.withdrawable_nonces(proposal_id, voter@),
    {
        let mut found: Vec<u64> = Vec::new();
        match self.withdrawable_votes.get(&(proposal_id, copy_bytes(voter))) {
            Some(list) => {
                let ghost w = views(list@);
                let mut i: usize = 0;
                while i < list.len()
                    invariant
                        i <= list.len(),
                        w == views(list@),
                        found@.no_duplicates(),
                        found@.to_set() == nonces(w.take(i as int)).to_set(),
                    decreases list.len() - i,
                {
                    let n = list[i].token_nonce;
                    let ghost before = found@;
                    proof {
                        assert(views(before) =~= before);
                    }
                    set_insert(&mut found, n);
                    proof {
                        assert(nonces(w.take(i as int + 1)) =~= nonces(w.take(i as int)).push(n));
                        nonces(w.take(i as int)).lemma_push_to_set_commute(n);
                        if before.contains(n) {
                            assert(before.to_set().insert(n) =~= before.to_set());
                        } else {
                            before.lemma_push_to_set_commute(n);
                        }
                    }
                    i = i + 1;
                }
                proof {
                    assert(w.take(w.len() as int) =~= w);
                }
            },
            None => {
                proof {
                    assert(nonces(Seq::<(Seq<u8>, u64, u128)>::empty()).to_set() =~= Set::<u64>::empty());
                    assert(found@.to_set() =~= Set::<u64>::empty());
                }
            },
        }
        found
    }

    pub fn get_legacy_votes(&self, proposal_id: u64, voter: &Vec<u8>) -> (weight: u128)
        requires
            self.wf(),
        ensures
            weight == self.legacy_votes(proposal_id, voter@),
    {
        match self.votes.get(&(proposal_id, copy_bytes(voter))) {
            Some(w) => *w,
            None => 0,
        }
    }

    /// Stores a new proposal under the next id and advances the id counter.
    pub fn store_new_proposal(&mut self, proposal: Proposal)
        requires
            old(self).wf(),
            proposal.id == old(self).next_proposal_id,
            old(self).next_proposal_id < u64::MAX,
        ensures
            final(self).wf(),
            final(self).proposals.map() == old(self).proposals.map().insert(proposal.id, proposal),
            final(self).next_proposal_id == old(self).next_proposal_id + 1,
            *final(self) == (ProposalModule {
                proposals: final(self).proposals,
                next_proposal_id: final(self).next_proposal_id,
                ..*old(self)
            }),
    {
        let id = proposal.id;
        self.proposals.insert(id, proposal);
        self.next_proposal_id = self.next_proposal_id + 1;
    }

    /// Replaces a stored proposal.
    pub fn set_proposal(&mut self, proposal: Proposal)
        requires
            old(self).wf(),
            old(self).has_proposal(proposal.id),
        ensures
            final(self).wf(),
            final(self).proposals.map() == old(self).proposals.map().insert(proposal.id, proposal),
            *final(self) == (ProposalModule { proposals: final(self).proposals, ..*old(self) }),
    {
        let id = proposal.id;
        self.proposals.insert(id, proposal);
    }

    /// Removes a stored proposal.
    pub fn clear_proposal(&mut self, proposal_id: u64)
        requires
            old(self).wf(),
        ensures
            final(self).wf(),
            final(self).proposals.map() == old(self).proposals.map().remove(proposal_id),
            *final(self) == (ProposalModule { proposals: final(self).proposals, ..*old(self) }),
    {
        let _ = self.proposals.take(&proposal_id);
    }

    /// Records that user `user_id` signed proposal `proposal_id` for `role`.
    pub fn add_signer(&mut self, proposal_id: u64, role: &Vec<u8>, user_id: usize)
        requires
            old(self).wf(),
            proposal_id < old(self).next_proposal_id,
        ensures
            final(self).wf(),
            final(self).signers(proposal_id, role@) == set_with(old(self).signers(proposal_id, role@), user_id),
            forall|id: u64, r: Seq<u8>| (id, r) != (proposal_id, role@) ==> #[trigger] final(self).signers(id, r) == old(self).signers(id, r),
            *final(self) == (ProposalModule { proposal_signers: final(self).proposal_signers, ..*old(self) }),
    {
        let key = (proposal_id, copy_bytes(role));
        let mut signers = match self.proposal_signers.take(&key) {
            Some(v) => v,
            None => Vec::new(),
        };
        let ghost before = signers@;
        let _ = set_insert(&mut signers, user_id);
        proof {
            assert(views(before) =~= before);
            assert(views(signers@) =~= signers@);
        }
        self.proposal_signers.insert(key, signers);
    }

    /// Adds `weight` to poll option `option_id` of proposal `proposal_id`.
    pub fn add_poll(&mut self, proposal_id: u64, option_id: u8, weight: u128)
        requires
            old(self).wf(),
            proposal_id < old(self).next_proposal_id,
            old(self).poll(proposal_id, option_id) + weight <= u128::MAX,
        ensures
            final(self).wf(),
            final(self).poll(proposal_id, option_id) == old(self).poll(proposal_id, option_id) + weight,
            forall|id: u64, o: u8| (id, o) != (proposal_id, option_id) ==> #[trigger] final(self).poll(id, o) == old(self).poll(id, o),
            *final(self) == (ProposalModule { proposal_poll: final(self).proposal_poll, ..*old(self) }),
    {
        let current = self.get_poll(proposal_id, option_id);
        self.proposal_poll.insert((proposal_id, option_id), current + weight);
    }

    /// Adds `weight` to poll option `option_id` of proposal `proposal_id`;
    /// option 0 (no option) and a zero weight cast nothing.
    pub fn cast_poll_vote(&mut self, proposal_id: u64, option_id: u8, weight: u128)
        requires
            old(self).wf(),
            proposal_id < old(self).next_proposal_id,
            option_id == 0 || weight == 0 || old(self).poll(proposal_id, option_id) + weight <= u128::MAX,
        ensures
            final(self).wf(),
            option_id == 0 || weight == 0 ==> *final(self) == *old(self),
            option_id != 0 && weight != 0 ==> {
                &&& final(self).poll(proposal_id, option_id) == old(self).poll(proposal_id, option_id) + weight
                &&& forall|id: u64, o: u8| (id, o) != (proposal_id, option_id) ==> #[trigger] final(self).poll(id, o) == old(self).poll(id, o)
                &&& *final(self) == (ProposalModule { proposal_poll: final(self).proposal_poll, ..*old(self) })
            },
    {
        if option_id == 0 || weight == 0 {
            return;
        }
        self.add_poll(proposal_id, option_id, weight);
    }

    /// Remembers a trusted host id so that it admits no second proposal.
    pub fn add_known_trusted_host_id(&mut self, th_id: Vec<u8>)
        ensures
            views(final(self).known_trusted_host_proposal_ids@) == set_with(views(old(self).known_trusted_host_proposal_ids@), th_id@),
            *final(self) == (ProposalModule {
                known_trusted_host_proposal_ids: final(self).known_trusted_host_proposal_ids,
                ..*old(self)
            }),
    {
        let _ = set_insert(&mut self.known_trusted_host_proposal_ids, th_id);
    }
}

/// A set kept as a sequence, with `x` added unless it is there.
pub open spec fn set_with<A>(s: Seq<A>, x: A) -> Seq<A> {
    if s.contains(x) {
        s
    } else {
        s.push(x)
    }
}

/// Copies a list of ids.
pub fn copy_ids<K: Copy>(list: &Vec<K>) -> (copy: Vec<K>)
    ensures
        copy@ == list@,
{
    let mut out: Vec<K> = Vec::new();
    let mut i: usize = 0;
    while i < list.len()
        invariant
            i <= list@.len(),
            out@ == list@.take(i as int),
        decreases list@.len() - i,
    {
        out.push(list[i]);
        i = i + 1;
        assert(out@ =~= list@.take(i as int));
    }
    assert(list@.take(list@.len() as int) =~= list@);
    out
}


} // verus!
