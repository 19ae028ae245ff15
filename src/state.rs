use crate::random::{RngState, HASH_LEN};
use crate::types::{
    Address, Flags, OngoingOperation, OperationState, TicketBatch,
    TicketRange,
};
use std::collections::{HashMap, HashSet};
use vstd::prelude::*;

verus! {

/// The whole ledger of one launch: registry, winner flags, shuffle overlay,
/// guaranteed quotas and the checkpoint of the operation in progress.
pub struct Launchpad {
    /// Configured number of winning tickets (clamped once filtering is done).
    pub nr_winning_tickets: u64,
    /// The highest ticket id in use.
    pub last_ticket_id: u64,
    /// Ids of the tickets that won; absence means "not won".
    pub winning_tickets: HashSet<u64>,
    /// Batches, keyed by their first ticket id.
    pub ticket_batch: HashMap<u64, TicketBatch>,
    pub ticket_range_for_address: HashMap<Address, TicketRange>,
    pub nr_confirmed_tickets: HashMap<Address, u64>,
    /// Shuffle overlay: the ticket id occupying a position; absence means the position's own id.
    pub ticket_pos_to_id: HashMap<u64, u64>,
    pub blacklist: HashSet<Address>,
    pub claim_list: HashSet<Address>,
    /// Addresses holding a guaranteed quota, still to be served.
    pub users_with_guaranteed_ticket: Vec<Address>,
    pub guaranteed_tickets: HashMap<Address, u64>,
    pub total_guaranteed_tickets: u64,
    pub flags: Flags,
    pub current_operation: OngoingOperation,
    /// Batches already rewritten by filtering, in id order.
    pub filtered_batches: Ghost<Seq<TicketBatch>>,
    /// Batches not yet reached by filtering, in id order.
    pub pending_batches: Ghost<Seq<TicketBatch>>,
}

/// The mathematical value of a `Launchpad`.
#[verifier::ext_equal]
pub struct LaunchpadState {
    pub nr_winning_tickets: u64,
    pub last_ticket_id: u64,
    pub won: Set<u64>,
    pub batches: Map<u64, TicketBatch>,
    pub ranges: Map<Address, TicketRange>,
    pub confirmed: Map<Address, u64>,
    pub overlay: Map<u64, u64>,
    pub blacklist: Set<Address>,
    pub claimed: Set<Address>,
    pub guaranteed_users: Seq<Address>,
    pub quotas: Map<Address, u64>,
    pub total_guaranteed: u64,
    pub flags: Flags,
    pub operation: OperationState,
    pub kept: Seq<TicketBatch>,
    pub pending: Seq<TicketBatch>,
}

impl View for Launchpad {
    type V = LaunchpadState;

    open spec fn view(&self) -> LaunchpadState {
        LaunchpadState {
            nr_winning_tickets: self.nr_winning_tickets,
            last_ticket_id: self.last_ticket_id,
            won: self.winning_tickets@,
            batches: self.ticket_batch@,
            ranges: self.ticket_range_for_address@,
            confirmed: self.nr_confirmed_tickets@,
            overlay: self.ticket_pos_to_id@,
            blacklist: self.blacklist@,
            claimed: self.claim_list@,
            guaranteed_users: self.users_with_guaranteed_ticket@,
            quotas: self.guaranteed_tickets@,
            total_guaranteed: self.total_guaranteed_tickets,
            flags: self.flags,
            operation: self.current_operation@,
            kept: self.filtered_batches@,
            pending: self.pending_batches@,
        }
    }
}

/// Number of tickets in a sequence of batches.
#[verifier::opaque]
pub open spec fn total(s: Seq<TicketBatch>) -> nat
    decreases s.len(),
{
    if s.len() == 0 {
        0
    } else {
        total(s.drop_last()) + s.last().nr_tickets as nat
    }
}

/// Number of tickets in the batches before index `i`.
pub open spec fn offset(s: Seq<TicketBatch>, i: int) -> nat {
    total(s.take(i))
}

/// The range of the `i`-th batch of `s` when `s` is laid out right after id `base`.
pub open spec fn range_at(s: Seq<TicketBatch>, base: int, i: int) -> TicketRange {
    TicketRange {
        first_id: (base + offset(s, i) + 1) as u64,
        last_id: (base + offset(s, i) + s[i].nr_tickets) as u64,
    }
}

/// Whether some batch of `s` belongs to `a`.
pub open spec fn holds_batch(s: Seq<TicketBatch>, a: Address) -> bool {
    exists|i: int| 0 <= i < s.len() && s[i].address == a
}

/// The ticket id at a shuffle position.
pub open spec fn id_at(overlay: Map<u64, u64>, pos: u64) -> u64 {
    if overlay.contains_key(pos) {
        overlay[pos]
    } else {
        pos
    }
}

/// Sum of the quotas of the listed addresses.
pub open spec fn sum_quota(users: Seq<Address>, quotas: Map<Address, u64>) -> nat
    decreases users.len(),
{
    if users.len() == 0 {
        0
    } else {
        sum_quota(users.drop_last(), quotas) + quotas[users.last()] as nat
    }
}

/// The ids `1..=m`.
pub open spec fn ids_upto(m: u64) -> Set<u64> {
    Set::new(|t: u64| 1 <= t <= m)
}

/// Positions `pos..=m` of the overlay hold distinct ids of `1..=m`, the won ids lie in
/// `1..=m`, and every id that has not won sits at one of those positions.
#[verifier::opaque]
pub open spec fn pool_ok(overlay: Map<u64, u64>, won: Set<u64>, m: u64, pos: u64) -> bool {
    &&& 1 <= pos <= m + 1
    &&& won.finite()
    &&& forall|q: u64| pos <= q <= m ==> 1 <= #[trigger] id_at(overlay, q) <= m
    &&& forall|q1: u64, q2: u64|
        pos <= q1 <= m && pos <= q2 <= m && q1 != q2 ==> #[trigger] id_at(overlay, q1)
            != #[trigger] id_at(overlay, q2)
    &&& forall|t: u64| #[trigger] won.contains(t) ==> 1 <= t <= m
    &&& forall|t: u64|
        1 <= t <= m && !#[trigger] won.contains(t) ==> exists|q: u64|
            pos <= q <= m && #[trigger] id_at(overlay, q) == t
}

/// No position `pos..=m` holds a won id.
#[verifier::opaque]
pub open spec fn pool_free(overlay: Map<u64, u64>, won: Set<u64>, m: u64, pos: u64) -> bool {
    forall|q: u64| pos <= q <= m ==> !won.contains(#[trigger] id_at(overlay, q))
}

pub open spec fn rng_wf(st: RngState) -> bool {
    st.seed.len() == HASH_LEN && st.index <= HASH_LEN
}

impl LaunchpadState {
    pub open spec fn confirmed_of(&self, a: Address) -> u64 {
        if self.confirmed.contains_key(a) {
            self.confirmed[a]
        } else {
            0
        }
    }

    pub open spec fn all_batches(&self) -> Seq<TicketBatch> {
        self.kept + self.pending
    }

    /// The id just before the first pending batch.
    pub open spec fn pending_base(&self) -> int {
        self.last_ticket_id - total(self.pending)
    }

    /// Number of winners the base random draw selects: the rest is reserved for quotas.
    pub open spec fn base_winners(&self) -> nat {
        if self.total_guaranteed <= self.nr_winning_tickets {
            (self.nr_winning_tickets - self.total_guaranteed) as nat
        } else {
            0
        }
    }

    /// Number of winners the whole selection aims at.
    pub open spec fn target_winners(&self) -> nat {
        self.base_winners() + self.total_guaranteed as nat
    }

    /// Batches, ranges and confirmations agree with the ordered list of batches.
    #[verifier::opaque]
    pub open spec fn registry_wf(&self) -> bool {
        let all = self.all_batches();
        &&& forall|i: int| 0 <= i < all.len() ==> #[trigger] all[i].nr_tickets >= 1
        &&& forall|i: int, j: int|
            0 <= i < j < all.len() ==> all[i].address != all[j].address
        &&& total(self.kept) + total(self.pending) <= self.last_ticket_id
        &&& forall|i: int|
            #![trigger self.pending[i]]
            0 <= i < self.pending.len() ==> {
                let r = range_at(self.pending, self.pending_base(), i);
                &&& self.batches.contains_key(r.first_id)
                &&& self.batches[r.first_id] == self.pending[i]
                &&& self.claimed.contains(self.pending[i].address) || (self.ranges.contains_key(
                    self.pending[i].address,
                ) && self.ranges[self.pending[i].address] == r)
                &&& self.confirmed_of(self.pending[i].address) <= self.pending[i].nr_tickets
            }
        &&& forall|i: int|
            #![trigger self.kept[i]]
            0 <= i < self.kept.len() && !self.claimed.contains(self.kept[i].address) ==> {
                &&& self.ranges.contains_key(self.kept[i].address)
                &&& self.ranges[self.kept[i].address] == range_at(self.kept, 0, i)
                &&& self.confirmed_of(self.kept[i].address) == self.kept[i].nr_tickets
                &&& self.batches.contains_key(range_at(self.kept, 0, i).first_id)
                &&& self.batches[range_at(self.kept, 0, i).first_id] == self.kept[i]
            }
        &&& forall|a: Address| #[trigger]
            self.ranges.contains_key(a) ==> holds_batch(all, a) && !self.claimed.contains(a)
        &&& forall|a: Address| #[trigger]
            self.confirmed.contains_key(a) && self.confirmed[a] > 0 ==> self.ranges.contains_key(a)
        &&& forall|a: Address| #[trigger] self.blacklist.contains(a) ==> self.confirmed_of(a) == 0
        &&& forall|a: Address| #[trigger]
            self.claimed.contains(a) ==> self.confirmed_of(a) == 0
    }

    /// The shuffle pool: positions `pos..=last_ticket_id` hold distinct ids, and every
    /// ticket that has not won sits in the pool.
    pub open spec fn pool_wf(&self, pos: u64) -> bool {
        pool_ok(self.overlay, self.won, self.last_ticket_id, pos)
    }

    /// During the base draw: no pool position holds a winner, and one winner was drawn per
    /// position already passed.
    pub open spec fn base_draw_wf(&self, pos: u64) -> bool {
        &&& self.pool_wf(pos)
        &&& pos <= self.base_winners() + 1
        &&& pool_free(self.overlay, self.won, self.last_ticket_id, pos)
        &&& self.won.len() == pos - 1
    }

    /// The stage reached and the checkpoint agree.
    pub open spec fn stage_wf(&self) -> bool {
        let f = self.flags;
        if !f.has_winner_selection_process_started {
            &&& !f.were_tickets_filtered && !f.were_winners_selected
            &&& !f.were_guaranteed_tickets_distributed
            &&& self.operation == OperationState::Idle
            &&& self.kept.len() == 0
            &&& total(self.pending) == self.last_ticket_id
            &&& self.before_draw_wf()
        } else if !f.were_tickets_filtered {
            &&& !f.were_winners_selected && !f.were_guaranteed_tickets_distributed
            &&& self.before_draw_wf()
            &&& match self.operation {
                OperationState::FilterTickets { first_ticket_id_in_batch, nr_removed } => {
                    &&& first_ticket_id_in_batch == self.pending_base() + 1
                    &&& nr_removed == self.pending_base() - total(self.kept)
                },
                _ => false,
            }
        } else {
            &&& self.pending.len() == 0
            &&& total(self.kept) == self.last_ticket_id
            &&& self.nr_winning_tickets <= self.last_ticket_id
            &&& f.were_guaranteed_tickets_distributed || self.total_guaranteed
                <= self.nr_winning_tickets || self.nr_winning_tickets == self.last_ticket_id
            &&& self.won.finite()
            &&& if !f.were_winners_selected {
                &&& !f.were_guaranteed_tickets_distributed
                &&& self.claimed.is_empty()
                &&& self.quotas_wf()
                &&& match self.operation {
                    OperationState::Idle => self.won.is_empty() && self.overlay.is_empty(),
                    OperationState::SelectWinners { rng, ticket_position } => {
                        &&& 1 <= ticket_position <= self.base_winners()
                        &&& self.base_draw_wf(ticket_position)
                    },
                    _ => false,
                }
            } else if !f.were_guaranteed_tickets_distributed {
                &&& self.claimed.is_empty()
                &&& self.guaranteed_wf()
            } else {
                &&& self.operation == OperationState::Idle
                &&& self.won.len() == self.nr_winning_tickets
                &&& forall|t: u64| #[trigger] self.won.contains(t) ==> 1 <= t <= self.last_ticket_id
            }
        }
    }

    /// Before any draw: nothing won, no overlay, nobody claimed, quotas fit.
    pub open spec fn before_draw_wf(&self) -> bool {
        &&& self.won.is_empty()
        &&& self.overlay.is_empty()
        &&& self.claimed.is_empty()
        &&& self.total_guaranteed <= self.nr_winning_tickets
        &&& self.quotas_wf()
    }

    /// The guaranteed list holds distinct addresses with quotas, summing to the total.
    pub open spec fn quotas_wf(&self) -> bool {
        &&& self.guaranteed_users.no_duplicates()
        &&& forall|i: int|
            0 <= i < self.guaranteed_users.len() ==> self.quotas.contains_key(
                #[trigger] self.guaranteed_users[i],
            )
        &&& sum_quota(self.guaranteed_users, self.quotas) == self.total_guaranteed
    }

    /// The guaranteed-ticket allocation in progress.
    pub open spec fn guaranteed_wf(&self) -> bool {
        let b = self.base_winners();
        match self.operation {
            OperationState::Idle => {
                &&& self.quotas_wf()
                &&& self.won.len() == b
                &&& self.pool_wf((b + 1) as u64)
            },
            OperationState::SelectGuaranteedTickets { op } => {
                &&& self.guaranteed_users.no_duplicates()
                &&& forall|i: int|
                    0 <= i < self.guaranteed_users.len() ==> self.quotas.contains_key(
                        #[trigger] self.guaranteed_users[i],
                    )
                &&& self.won.len() + op.leftover_tickets + sum_quota(
                    self.guaranteed_users,
                    self.quotas,
                ) == self.target_winners()
                &&& op.total_additional_winning_tickets + b == self.won.len()
                &&& op.leftover_ticket_pos_offset == 1
                &&& self.pool_wf((b + 1) as u64)
            },
            OperationState::DistributeLeftoverTickets { rng, op } => {
                &&& self.guaranteed_users.len() == 0
                &&& op.leftover_ticket_pos_offset >= 1
                &&& b + op.leftover_ticket_pos_offset <= self.last_ticket_id + 1
                &&& self.won.len() + op.leftover_tickets == self.target_winners()
                &&& op.total_additional_winning_tickets + b == self.won.len()
                &&& self.pool_wf((b + op.leftover_ticket_pos_offset) as u64)
            },
            _ => false,
        }
    }

    /// A saved generator is a valid one.
    pub open spec fn rng_ok(&self) -> bool {
        match self.operation {
            OperationState::SelectWinners { rng, .. } => rng_wf(rng),
            OperationState::DistributeLeftoverTickets { rng, .. } => rng_wf(rng),
            _ => true,
        }
    }

    pub open spec fn core_wf(&self) -> bool {
        &&& self.registry_wf()
        &&& self.stage_wf()
        &&& self.last_ticket_id < u64::MAX
    }

    pub open spec fn wf(&self) -> bool {
        &&& self.core_wf()
        &&& self.rng_ok()
    }
}

impl Launchpad {
    pub open spec fn wf(&self) -> bool {
        self@.wf()
    }
}

} // verus!
