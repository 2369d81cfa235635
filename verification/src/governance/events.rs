use vstd::prelude::*;

use crate::governance::proposal::VoteType;
use crate::store::copy_bytes;
use crate::EntityContract;

verus! {

/// An event that the governance module logs.
pub enum Event {
    Propose { caller: Vec<u8>, proposal_id: u64, weight: u128, poll_option: u8 },
    VoteFor { caller: Vec<u8>, proposal_id: u64, weight: u128, poll_option: u8 },
    VoteAgainst { caller: Vec<u8>, proposal_id: u64, weight: u128, poll_option: u8 },
    Sign { caller: Vec<u8>, proposal_id: u64, poll_option: u8 },
    Execute { caller: Vec<u8>, proposal_id: u64 },
    DirectExecute { caller: Vec<u8> },
    Cancel { caller: Vec<u8>, proposal_id: u64 },
    Withdraw { caller: Vec<u8>, proposal_id: u64 },
}

pub enum EventView {
    Propose { caller: Seq<u8>, proposal_id: u64, weight: u128, poll_option: u8 },
    VoteFor { caller: Seq<u8>, proposal_id: u64, weight: u128, poll_option: u8 },
    VoteAgainst { caller: Seq<u8>, proposal_id: u64, weight: u128, poll_option: u8 },
    Sign { caller: Seq<u8>, proposal_id: u64, poll_option: u8 },
    Execute { caller: Seq<u8>, proposal_id: u64 },
    DirectExecute { caller: Seq<u8> },
    Cancel { caller: Seq<u8>, proposal_id: u64 },
    Withdraw { caller: Seq<u8>, proposal_id: u64 },
}

impl View for Event {
    type V = EventView;

    open spec fn view(&self) -> EventView {
        match self {
            Event::Propose { caller, proposal_id, weight, poll_option } => EventView::Propose {
                caller: caller@,
                proposal_id: *proposal_id,
                weight: *weight,
                poll_option: *poll_option,
            },
            Event::VoteFor { caller, proposal_id, weight, poll_option } => EventView::VoteFor {
                caller: caller@,
                proposal_id: *proposal_id,
                weight: *weight,
                poll_option: *poll_option,
            },
            Event::VoteAgainst { caller, proposal_id, weight, poll_option } => EventView::VoteAgainst {
                caller: caller@,
                proposal_id: *proposal_id,
                weight: *weight,
                poll_option: *poll_option,
            },
            Event::Sign { caller, proposal_id, poll_option } => EventView::Sign {
                caller: caller@,
                proposal_id: *proposal_id,
                poll_option: *poll_option,
            },
            Event::Execute { caller, proposal_id } => EventView::Execute {
                caller: caller@,
                proposal_id: *proposal_id,
            },
            Event::DirectExecute { caller } => EventView::DirectExecute { caller: caller@ },
            Event::Cancel { caller, proposal_id } => EventView::Cancel {
                caller: caller@,
                proposal_id: *proposal_id,
            },
            Event::Withdraw { caller, proposal_id } => EventView::Withdraw {
                caller: caller@,
                proposal_id: *proposal_id,
            },
        }
    }
}

/// The log of the events that the governance module emitted, oldest first.
pub struct EventLog {
    pub log: Vec<Event>,
}

impl View for EventLog {
    type V = Seq<EventView>;

    open spec fn view(&self) -> Seq<EventView> {
        self.log@.map_values(|e: Event| e@)
    }
}

impl EventLog {
    pub fn new() -> (events: Self)
        ensures
            events@ == Seq::<EventView>::empty(),
    {
        let events = EventLog { log: Vec::new() };
        assert(events@ =~= Seq::<EventView>::empty());
        events
    }

    fn emit(&mut self, event: Event)
        ensures
            final(self)@ == old(self)@.push(event@),
    {
        self.log.push(event);
        assert(self@ =~= old(self)@.push(event@));
    }
}

/// The events the governance module emits, recorded in the event log.
pub trait GovEventsModule {
    fn emit_propose_event(&mut self, proposer: &Vec<u8>, proposal_id: u64, weight: u128, poll_option: u8)
    ;

    fn emit_vote_event(
        &mut self,
        voter: &Vec<u8>,
        proposal_id: u64,
        vote_type: VoteType,
        weight: u128,
        poll_option: u8,
    )
    ;

    fn emit_sign_event(&mut self, signer: &Vec<u8>, proposal_id: u64, poll_option: u8)
    ;

    fn emit_execute_event(&mut self, caller: &Vec<u8>, proposal_id: u64)
    ;

    fn emit_direct_execute_event(&mut self, caller: &Vec<u8>)
    ;

    fn emit_cancel_event(&mut self, caller: &Vec<u8>, proposal_id: u64)
    ;

    fn emit_withdraw_event(&mut self, caller: &Vec<u8>, proposal_id: u64)
    ;
}

impl GovEventsModule for EntityContract {
    fn emit_propose_event(&mut self, proposer: &Vec<u8>, proposal_id: u64, weight: u128, poll_option: u8)
        ensures
            final(self).events@ == old(self).events@.push(
                EventView::Propose { caller: proposer@, proposal_id, weight, poll_option },
            ),
            *final(self) == (EntityContract { events: final(self).events, ..*old(self) }),
    {
        self.events.emit(Event::Propose { caller: copy_bytes(proposer), proposal_id, weight, poll_option });
    }

    fn emit_vote_event(
        &mut self,
        voter: &Vec<u8>,
        proposal_id: u64,
        vote_type: VoteType,
        weight: u128,
        poll_option: u8,
    )
        ensures
            final(self).events@ == old(self).events@.push(
                match vote_type {
                    VoteType::For => EventView::VoteFor {
                        caller: voter@,
                        proposal_id,
                        weight,
                        poll_option,
                    },
                    VoteType::Against => EventView::VoteAgainst {
                        caller: voter@,
                        proposal_id,
                        weight,
                        poll_option,
                    },
                },
            ),
            *final(self) == (EntityContract { events: final(self).events, ..*old(self) }),
    {
        match vote_type {
            VoteType::For => self.events.emit(
                Event::VoteFor { caller: copy_bytes(voter), proposal_id, weight, poll_option },
            ),
            VoteType::Against => self.events.emit(
                Event::VoteAgainst { caller: copy_bytes(voter), proposal_id, weight, poll_option },
            ),
        }
    }

    fn emit_sign_event(&mut self, signer: &Vec<u8>, proposal_id: u64, poll_option: u8)
        ensures
            final(self).events@ == old(self).events@.push(
                EventView::Sign { caller: signer@, proposal_id, poll_option },
            ),
            *final(self) == (EntityContract { events: final(self).events, ..*old(self) }),
    {
        self.events.emit(Event::Sign { caller: copy_bytes(signer), proposal_id, poll_option });
    }

    fn emit_execute_event(&mut self, caller: &Vec<u8>, proposal_id: u64)
        ensures
            final(self).events@ == old(self).events@.push(EventView::Execute { caller: caller@, proposal_id }),
            *final(self) == (EntityContract { events: final(self).events, ..*old(self) }),
    {
        self.events.emit(Event::Execute { caller: copy_bytes(caller), proposal_id });
    }

    fn emit_direct_execute_event(&mut self, caller: &Vec<u8>)
        ensures
            final(self).events@ == old(self).events@.push(EventView::DirectExecute { caller: caller@ }),
            *final(self) == (EntityContract { events: final(self).events, ..*old(self) }),
    {
        self.events.emit(Event::DirectExecute { caller: copy_bytes(caller) });
    }

    fn emit_cancel_event(&mut self, caller: &Vec<u8>, proposal_id: u64)
        ensures
            final(self).events@ == old(self).events@.push(EventView::Cancel { caller: caller@, proposal_id }),
            *final(self) == (EntityContract { events: final(self).events, ..*old(self) }),
    {
        self.events.emit(Event::Cancel { caller: copy_bytes(caller), proposal_id });
    }

    fn emit_withdraw_event(&mut self, caller: &Vec<u8>, proposal_id: u64)
        ensures
            final(self).events@ == old(self).events@.push(EventView::Withdraw { caller: caller@, proposal_id }),
            *final(self) == (EntityContract { events: final(self).events, ..*old(self) }),
    {
        self.events.emit(Event::Withdraw { caller: copy_bytes(caller), proposal_id });
    }
}

} // verus!
