use crate::layout::lemma_range_in_layout;
use crate::state::{Launchpad, LaunchpadState};
use crate::types::{
    Address, GuaranteedSelectionState, OngoingOperation, OperationState, TicketBatch,
};
use vstd::prelude::*;

verus! {

broadcast use vstd::std_specs::hash::group_hash_axioms;

/// The won ids among `id..=last`, ascending.
pub open spec fn winning_ids(won: Set<u64>, id: u64, last: u64) -> Seq<u64>
    decreases last + 1 - id,
{
    if id > last || id == u64::MAX {
        Seq::empty()
    } else {
        (if won.contains(id) {
            seq![id]
        } else {
            Seq::empty()
        }) + winning_ids(won, (id + 1) as u64, last)
    }
}

/// What the winning-ticket view shows for `a`: nothing before the base draw is complete
/// or without a range.
pub open spec fn winning_ids_of(s: LaunchpadState, a: Address) -> Seq<u64> {
    if !s.flags.were_winners_selected || !s.ranges.contains_key(a) {
        Seq::empty()
    } else {
        winning_ids(s.won, s.ranges[a].first_id, s.ranges[a].last_id)
    }
}

impl Launchpad {
    /// The inclusive range of `address`'s tickets, if it holds any.
    pub fn get_ticket_range_for_address(&self, address: Address) -> (r: Option<(u64, u64)>)
        ensures
            r == if self@.ranges.contains_key(address) {
                Some((self@.ranges[address].first_id, self@.ranges[address].last_id))
            } else {
                None::<(u64, u64)>
            },
    {
        match self.ticket_range_for_address.get(&address) {
            Some(range) => Some((range.first_id, range.last_id)),
            None => None,
        }
    }

    /// The won ticket ids of `address`, ascending.
    pub fn get_winning_ticket_ids_for_address(&self, address: Address) -> (r: Vec<u64>)
        requires
            self.wf(),
        ensures
            r@ == winning_ids_of(self@, address),
    {
        let mut ids: Vec<u64> = Vec::new();
        if !self.flags.were_winners_selected {
            return ids;
        }
        let range = match self.ticket_range_for_address.get(&address) {
            Some(r) => *r,
            None => {
                return ids;
            },
        };
        proof {
            lemma_range_in_layout(self@, address);
        }
        let last = range.last_id;
        let mut id = range.first_id;
        assert(ids@ + winning_ids(self@.won, id, last) =~= winning_ids(self@.won, range.first_id, last));
        while id <= last
            invariant
                last < u64::MAX,
                id <= last + 1,
                ids@ + winning_ids(self@.won, id, last) == winning_ids(
                    self@.won,
                    range.first_id,
                    last,
                ),
            decreases last + 1 - id,
        {
            let ghost before = ids@;
            if self.winning_tickets.contains(&id) {
                ids.push(id);
            }
            proof {
                let head = if self@.won.contains(id) {
                    seq![id]
                } else {
                    Seq::<u64>::empty()
                };
                assert(winning_ids(self@.won, id, last) == head + winning_ids(self@.won, (id + 1) as u64, last));
                assert(ids@ =~= before + head);
                assert(before + (head + winning_ids(self@.won, (id + 1) as u64, last)) =~= ids@ + winning_ids(self@.won, (id + 1) as u64, last));
            }
            id = id + 1;
        }
        assert(winning_ids(self@.won, id, last) =~= Seq::<u64>::empty());
        assert(ids@ =~= ids@ + winning_ids(self@.won, id, last));
        ids
    }

    /// How many of `address`'s tickets won.
    pub fn get_number_of_winning_tickets_for_address(&self, address: Address) -> (r: usize)
        requires
            self.wf(),
        ensures
            r == winning_ids_of(self@, address).len(),
    {
        self.get_winning_ticket_ids_for_address(address).len()
    }

    /// The highest ticket id in use, that is the number of tickets.
    pub fn get_total_tickets(&self) -> (r: u64)
        ensures
            r == self@.last_ticket_id,
    {
        self.last_ticket_id
    }

    /// Whether the ticket with this id won.
    pub fn is_winning_ticket(&self, ticket_id: u64) -> (r: bool)
        ensures
            r == self@.won.contains(ticket_id),
    {
        self.winning_tickets.contains(&ticket_id)
    }

    pub fn has_user_claimed(&self, address: Address) -> (r: bool)
        ensures
            r == self@.claimed.contains(address),
    {
        self.claim_list.contains(&address)
    }

    pub fn is_user_blacklisted(&self, address: Address) -> (r: bool)
        ensures
            r == self@.blacklist.contains(address),
    {
        self.blacklist.contains(&address)
    }

    pub fn get_number_of_confirmed_tickets_for_address(&self, address: Address) -> (r: u64)
        ensures
            r == self@.confirmed_of(address),
    {
        match self.nr_confirmed_tickets.get(&address) {
            Some(c) => *c,
            None => 0,
        }
    }

    /// The winner count the selection aims at, lowered by each claim.
    pub fn get_nr_winning_tickets(&self) -> (r: u64)
        ensures
            r == self@.nr_winning_tickets,
    {
        self.nr_winning_tickets
    }

    /// Number of addresses still waiting for their guaranteed tickets.
    pub fn get_nr_users_with_guaranteed_ticket(&self) -> (r: usize)
        ensures
            r == self@.guaranteed_users.len(),
    {
        self.users_with_guaranteed_ticket.len()
    }

    /// The counters of the guaranteed-ticket allocation, while it is paused.
    pub fn get_guaranteed_selection_state(&self) -> (r: Option<GuaranteedSelectionState>)
        ensures
            r == match self@.operation {
                OperationState::SelectGuaranteedTickets { op } => Some(op),
                OperationState::DistributeLeftoverTickets { op, .. } => Some(op),
                _ => None::<GuaranteedSelectionState>,
            },
    {
        match &self.current_operation {
            OngoingOperation::SelectGuaranteedTickets { op } => Some(*op),
            OngoingOperation::DistributeLeftoverTickets { op, .. } => Some(*op),
            _ => None,
        }
    }

    /// The batch recorded under a first ticket id, if any.
    pub fn get_ticket_batch(&self, first_id: u64) -> (r: Option<TicketBatch>)
        ensures
            r == if self@.batches.contains_key(first_id) {
                Some(self@.batches[first_id])
            } else {
                None::<TicketBatch>
            },
    {
        match self.ticket_batch.get(&first_id) {
            Some(b) => Some(*b),
            None => None,
        }
    }
}

} // verus!
