use crate::layout::{
    lemma_offset_bound, lemma_offset_full, lemma_offset_push, lemma_range_in_layout,
    lemma_total_push,
};
use crate::state::{holds_batch, range_at, sum_quota, total, Launchpad, LaunchpadState};
use crate::types::{
    Address, Flags, LaunchpadError, OngoingOperation, OperationState, TicketBatch, TicketRange,
};
use std::collections::{HashMap, HashSet};
use vstd::prelude::*;

verus! {

broadcast use vstd::std_specs::hash::group_hash_axioms;

/// The state after `buyer` was given `n` fresh tickets after the last one.
pub open spec fn created(s: LaunchpadState, buyer: Address, n: u64) -> LaunchpadState {
    let first = (s.last_ticket_id + 1) as u64;
    let last = (s.last_ticket_id + n) as u64;
    LaunchpadState {
        last_ticket_id: last,
        ranges: s.ranges.insert(buyer, TicketRange { first_id: first, last_id: last }),
        batches: s.batches.insert(first, TicketBatch { address: buyer, nr_tickets: n }),
        pending: s.pending.push(TicketBatch { address: buyer, nr_tickets: n }),
        ..s
    }
}

/// Why giving `n` tickets to `buyer` is rejected, if it is.
pub open spec fn create_error(s: LaunchpadState, buyer: Address, n: u64) -> Option<LaunchpadError> {
    if s.flags.has_winner_selection_process_started {
        Some(LaunchpadError::AddTicketsPeriodPassed)
    } else if s.ranges.contains_key(buyer) {
        Some(LaunchpadError::DuplicateEntry)
    } else if n == 0 {
        Some(LaunchpadError::InvalidTicketCount)
    } else if s.last_ticket_id + n >= u64::MAX {
        Some(LaunchpadError::TicketIdsExhausted)
    } else {
        None
    }
}

/// The state after each pair in turn was given its tickets.
pub open spec fn created_all(s: LaunchpadState, pairs: Seq<(Address, u64)>) -> LaunchpadState
    decreases pairs.len(),
{
    if pairs.len() == 0 {
        s
    } else {
        let prev = created_all(s, pairs.drop_last());
        created(prev, pairs.last().0, pairs.last().1)
    }
}

/// Sum of the ticket counts of the pairs.
pub open spec fn pairs_total(pairs: Seq<(Address, u64)>) -> nat
    decreases pairs.len(),
{
    if pairs.len() == 0 {
        0
    } else {
        pairs_total(pairs.drop_last()) + pairs.last().1 as nat
    }
}

/// Why a whole list of allocations is rejected, if it is.
pub open spec fn add_tickets_error(s: LaunchpadState, pairs: Seq<(Address, u64)>) -> Option<
    LaunchpadError,
> {
    if s.flags.has_winner_selection_process_started {
        Some(LaunchpadError::AddTicketsPeriodPassed)
    } else if exists|i: int| 0 <= i < pairs.len() && #[trigger] pairs[i].1 == 0 {
        Some(LaunchpadError::InvalidTicketCount)
    } else if exists|i: int|
        0 <= i < pairs.len() && (s.ranges.contains_key(#[trigger] pairs[i].0) || exists|j: int|
            0 <= j < i && pairs[j].0 == pairs[i].0) {
        Some(LaunchpadError::DuplicateEntry)
    } else if s.last_ticket_id + pairs_total(pairs) >= u64::MAX {
        Some(LaunchpadError::TicketIdsExhausted)
    } else {
        None
    }
}

proof fn lemma_created_wf(s: LaunchpadState, buyer: Address, n: u64)
    requires
        s.wf(),
        create_error(s, buyer, n) is None,
    ensures
        created(s, buyer, n).wf(),
{
    reveal(LaunchpadState::registry_wf);
    let t = created(s, buyer, n);
    let b = TicketBatch { address: buyer, nr_tickets: n };
    assert(s.kept.len() == 0);
    assert(t.all_batches() =~= s.all_batches().push(b));
    assert(s.all_batches() =~= s.pending);
    lemma_total_push(s.pending, b);
    assert(t.pending_base() == s.pending_base());
    assert forall|i: int| 0 <= i < s.pending.len() implies s.pending[i].address != buyer by {
        assert(s.claimed.is_empty());
    }
    assert forall|i: int| #![trigger t.pending[i]] 0 <= i < t.pending.len() implies {
        let r = range_at(t.pending, t.pending_base(), i);
        &&& t.batches.contains_key(r.first_id)
        &&& t.batches[r.first_id] == t.pending[i]
        &&& t.claimed.contains(t.pending[i].address) || (t.ranges.contains_key(
            t.pending[i].address,
        ) && t.ranges[t.pending[i].address] == r)
        &&& t.confirmed_of(t.pending[i].address) <= t.pending[i].nr_tickets
    } by {
        lemma_offset_push(s.pending, b, i);
        if i < s.pending.len() {
            lemma_offset_bound(s.pending, i);
            assert(range_at(t.pending, t.pending_base(), i) == range_at(
                s.pending,
                s.pending_base(),
                i,
            ));
        } else {
            lemma_offset_full(s.pending);
            if s.confirmed.contains_key(buyer) && s.confirmed[buyer] > 0 {
                assert(s.ranges.contains_key(buyer));
            }
        }
    }
    assert forall|a: Address| #[trigger] t.ranges.contains_key(a) implies holds_batch(
        t.all_batches(),
        a,
    ) && !t.claimed.contains(a) by {
        if a == buyer {
            assert(t.all_batches()[s.pending.len() as int].address == buyer);
        } else {
            let i = choose|i: int| 0 <= i < s.all_batches().len() && s.all_batches()[i].address == a;
            assert(t.all_batches()[i] == s.all_batches()[i]);
        }
    }
}

proof fn lemma_confirm_wf(s: LaunchpadState, caller: Address, k: u64)
    requires
        s.wf(),
        confirm_error(s, caller, k) is None,
    ensures
        (LaunchpadState {
            confirmed: s.confirmed.insert(caller, (s.confirmed_of(caller) + k) as u64),
            ..s
        }).wf(),
{
    reveal(LaunchpadState::registry_wf);
    let t = LaunchpadState {
        confirmed: s.confirmed.insert(caller, (s.confirmed_of(caller) + k) as u64),
        ..s
    };
    assert(s.all_batches() =~= s.pending);
    assert forall|i: int| #![trigger t.pending[i]] 0 <= i < t.pending.len() implies t.confirmed_of(
        t.pending[i].address,
    ) <= t.pending[i].nr_tickets by {
        if t.pending[i].address == caller {
            let j = lemma_pending_holder(s, caller);
            assert(j == i);
        }
    }
    assert forall|a: Address| #[trigger]
        t.confirmed.contains_key(a) && t.confirmed[a] > 0 implies t.ranges.contains_key(a) by {
        if a == caller {
            assert(tickets_of(s, caller) > 0);
        }
    }
    assert forall|a: Address| #[trigger] t.blacklist.contains(a) implies t.confirmed_of(a) == 0 by {
        assert(s.confirmed_of(a) == 0);
    }
}

proof fn lemma_blacklist_wf(s: LaunchpadState, users: Set<Address>)
    requires
        s.wf(),
        !s.flags.has_winner_selection_process_started,
    ensures
        (LaunchpadState {
            blacklist: s.blacklist + users,
            confirmed: s.confirmed.remove_keys(users),
            ..s
        }).wf(),
{
    reveal(LaunchpadState::registry_wf);
    let t = LaunchpadState {
        blacklist: s.blacklist + users,
        confirmed: s.confirmed.remove_keys(users),
        ..s
    };
    assert(t.all_batches() == s.all_batches());
    assert forall|a: Address| #[trigger] t.blacklist.contains(a) implies t.confirmed_of(a) == 0 by {
        if !users.contains(a) {
            assert(s.blacklist.contains(a));
        }
    }
    assert forall|j: int| #![trigger t.pending[j]] 0 <= j < t.pending.len() implies t.confirmed_of(
        t.pending[j].address,
    ) <= t.pending[j].nr_tickets by {
        assert(s.confirmed_of(s.pending[j].address) <= s.pending[j].nr_tickets);
    }
    assert forall|a: Address| #[trigger]
        t.confirmed.contains_key(a) && t.confirmed[a] > 0 implies t.ranges.contains_key(a) by {
        assert(s.confirmed.contains_key(a) && s.confirmed[a] > 0);
    }
    assert forall|a: Address| #[trigger] t.claimed.contains(a) implies t.confirmed_of(a) == 0 by {
        assert(s.claimed.contains(a));
    }
}

proof fn lemma_quota_added_wf(s: LaunchpadState, a: Address, q: u64)
    requires
        s.wf(),
        quota_error(s, a, q) is None,
    ensures
        (LaunchpadState {
            guaranteed_users: s.guaranteed_users.push(a),
            quotas: s.quotas.insert(a, q),
            total_guaranteed: (s.total_guaranteed + q) as u64,
            ..s
        }).wf(),
{
    reveal(LaunchpadState::registry_wf);
    let t = LaunchpadState {
        guaranteed_users: s.guaranteed_users.push(a),
        quotas: s.quotas.insert(a, q),
        total_guaranteed: (s.total_guaranteed + q) as u64,
        ..s
    };
    assert(!s.guaranteed_users.contains(a));
    lemma_sum_quota_insert(s.guaranteed_users, s.quotas, a, q);
    assert(t.guaranteed_users.drop_last() =~= s.guaranteed_users);
    assert forall|i: int| 0 <= i < t.guaranteed_users.len() implies t.quotas.contains_key(
        #[trigger] t.guaranteed_users[i],
    ) by {
        if i < s.guaranteed_users.len() {
            assert(t.guaranteed_users[i] == s.guaranteed_users[i]);
        }
    }
    assert(t.registry_wf());
}

impl Launchpad {
    /// A launch with no tickets yet, aiming at `nr_winning_tickets` winners.
    pub fn new(nr_winning_tickets: u64) -> (r: Launchpad)
        ensures
            r.wf(),
            r@.nr_winning_tickets == nr_winning_tickets,
            r@.last_ticket_id == 0,
            r@.won.is_empty(),
            r@.ranges.is_empty(),
            r@.confirmed.is_empty(),
            r@.blacklist.is_empty(),
            r@.guaranteed_users.len() == 0,
            r@.total_guaranteed == 0,
            !r@.flags.has_winner_selection_process_started,
            r@.operation == OperationState::Idle,
    {
        let r = Launchpad {
            nr_winning_tickets,
            last_ticket_id: 0,
            winning_tickets: HashSet::new(),
            ticket_batch: HashMap::new(),
            ticket_range_for_address: HashMap::new(),
            nr_confirmed_tickets: HashMap::new(),
            ticket_pos_to_id: HashMap::new(),
            blacklist: HashSet::new(),
            claim_list: HashSet::new(),
            users_with_guaranteed_ticket: Vec::new(),
            guaranteed_tickets: HashMap::new(),
            total_guaranteed_tickets: 0,
            flags: Flags {
                were_tickets_filtered: false,
                were_winners_selected: false,
                has_winner_selection_process_started: false,
                were_guaranteed_tickets_distributed: false,
            },
            current_operation: OngoingOperation::Idle,
            filtered_batches: Ghost(Seq::empty()),
            pending_batches: Ghost(Seq::empty()),
        };
        proof {
            reveal(LaunchpadState::registry_wf);
            reveal(total);
            assert(r@.all_batches() =~= Seq::<TicketBatch>::empty());
            assert(r@.guaranteed_users =~= Seq::<Address>::empty());
        }
        r
    }

    /// Gives `buyer` a new contiguous range of `nr_tickets` tickets after the last one.
    pub fn try_create_tickets(&mut self, buyer: Address, nr_tickets: u64) -> (r: Result<
        (),
        LaunchpadError,
    >)
        requires
            old(self).wf(),
        ensures
            final(self).wf(),
            match create_error(old(self)@, buyer, nr_tickets) {
                Some(e) => r == Err::<(), LaunchpadError>(e) && *final(self) == *old(self),
                None => r is Ok && final(self)@ == created(old(self)@, buyer, nr_tickets),
            },
    {
        if self.flags.has_winner_selection_process_started {
            return Err(LaunchpadError::AddTicketsPeriodPassed);
        }
        if self.ticket_range_for_address.contains_key(&buyer) {
            return Err(LaunchpadError::DuplicateEntry);
        }
        if nr_tickets == 0 {
            return Err(LaunchpadError::InvalidTicketCount);
        }
        if nr_tickets >= u64::MAX - self.last_ticket_id {
            return Err(LaunchpadError::TicketIdsExhausted);
        }
        proof {
            lemma_created_wf(self@, buyer, nr_tickets);
        }
        let first_ticket_id = self.last_ticket_id + 1;
        let last_ticket_id = self.last_ticket_id + nr_tickets;
        self.ticket_range_for_address.insert(
            buyer,
            TicketRange { first_id: first_ticket_id, last_id: last_ticket_id },
        );
        self.ticket_batch.insert(first_ticket_id, TicketBatch { address: buyer, nr_tickets });
        self.last_ticket_id = last_ticket_id;
        self.pending_batches = Ghost(
            self.pending_batches@.push(TicketBatch { address: buyer, nr_tickets }),
        );
        Ok(())
    }
}


proof fn lemma_pairs_total_prefix(pairs: Seq<(Address, u64)>, i: int)
    requires
        0 <= i <= pairs.len(),
    ensures
        pairs_total(pairs.take(i)) <= pairs_total(pairs),
    decreases pairs.len() - i,
{
    if i < pairs.len() {
        lemma_pairs_total_prefix(pairs, i + 1);
        assert(pairs.take(i + 1).drop_last() =~= pairs.take(i));
    } else {
        assert(pairs.take(i) =~= pairs);
    }
}

/// The number of tickets an address holds, zero without a range.
pub open spec fn tickets_of(s: LaunchpadState, a: Address) -> nat {
    if s.ranges.contains_key(a) {
        (s.ranges[a].last_id - s.ranges[a].first_id + 1) as nat
    } else {
        0
    }
}

/// Why confirming `k` more tickets of `a` is rejected, if it is.
pub open spec fn confirm_error(s: LaunchpadState, a: Address, k: u64) -> Option<LaunchpadError> {
    if s.flags.has_winner_selection_process_started {
        Some(LaunchpadError::SelectionAlreadyStarted)
    } else if s.blacklist.contains(a) {
        Some(LaunchpadError::UserBlacklisted)
    } else if s.confirmed_of(a) + k > tickets_of(s, a) {
        Some(LaunchpadError::TooManyTicketsConfirmed)
    } else {
        None
    }
}

/// Before selection, an address with a range holds the pending batch of that range.
proof fn lemma_pending_holder(s: LaunchpadState, a: Address) -> (i: int)
    requires
        s.wf(),
        !s.flags.has_winner_selection_process_started,
        s.ranges.contains_key(a),
    ensures
        0 <= i < s.pending.len(),
        s.pending[i].address == a,
        s.ranges[a] == range_at(s.pending, s.pending_base(), i),
        tickets_of(s, a) == s.pending[i].nr_tickets,
{
    reveal(LaunchpadState::registry_wf);
    assert(s.all_batches() =~= s.pending);
    let i = choose|i: int| 0 <= i < s.all_batches().len() && s.all_batches()[i].address == a;
    assert(s.pending[i].address == a);
    lemma_offset_bound(s.pending, i);
    i
}

/// Before selection nobody has confirmed more tickets than they hold.
proof fn lemma_confirmed_le_tickets(s: LaunchpadState, a: Address)
    requires
        s.wf(),
        !s.flags.has_winner_selection_process_started,
    ensures
        s.confirmed_of(a) <= tickets_of(s, a),
        s.confirmed.contains_key(a) ==> s.confirmed[a] == s.confirmed_of(a),
{
    reveal(LaunchpadState::registry_wf);
    if s.ranges.contains_key(a) {
        lemma_pending_holder(s, a);
    }
}

/// The addresses that a list of users puts on the blacklist, with the confirmed
/// tickets refunded to each, in list order.
pub open spec fn blacklist_refunds(confirmed: Map<Address, u64>, users: Seq<Address>) -> Seq<
    (Address, u64),
>
    decreases users.len(),
{
    if users.len() == 0 {
        Seq::empty()
    } else {
        let prev = users.drop_last();
        let a = users.last();
        let c = if prev.contains(a) || !confirmed.contains_key(a) {
            0
        } else {
            confirmed[a]
        };
        blacklist_refunds(confirmed, prev) + if c > 0 {
            seq![(a, c)]
        } else {
            Seq::empty()
        }
    }
}

/// Why registering a guaranteed quota is rejected, if it is.
pub open spec fn quota_error(s: LaunchpadState, a: Address, quota: u64) -> Option<LaunchpadError> {
    if s.flags.has_winner_selection_process_started {
        Some(LaunchpadError::AddTicketsPeriodPassed)
    } else if s.quotas.contains_key(a) {
        Some(LaunchpadError::DuplicateEntry)
    } else if quota == 0 {
        Some(LaunchpadError::InvalidTicketCount)
    } else if s.total_guaranteed + quota > s.nr_winning_tickets {
        Some(LaunchpadError::TooManyGuaranteedTickets)
    } else {
        None
    }
}

proof fn lemma_sum_quota_insert(users: Seq<Address>, quotas: Map<Address, u64>, a: Address, q: u64)
    requires
        !users.contains(a),
    ensures
        sum_quota(users, quotas.insert(a, q)) == sum_quota(users, quotas),
    decreases users.len(),
{
    if users.len() > 0 {
        assert(users.drop_last().contains(a) ==> users.contains(a)) by {
            if users.drop_last().contains(a) {
                let k = choose|k: int| 0 <= k < users.drop_last().len() && users.drop_last()[k] == a;
                assert(users[k] == a);
            }
        }
        lemma_sum_quota_insert(users.drop_last(), quotas, a, q);
    }
}

impl Launchpad {
    fn add_tickets_check(&self, pairs: &Vec<(Address, u64)>) -> (r: Option<LaunchpadError>)
        requires
            self.wf(),
        ensures
            r == add_tickets_error(self@, pairs@),
    {
        let len = pairs.len();
        if self.flags.has_winner_selection_process_started {
            return Some(LaunchpadError::AddTicketsPeriodPassed);
        }
        let mut i: usize = 0;
        while i < len
            invariant
                len == pairs@.len(),
                i <= len,
                !self@.flags.has_winner_selection_process_started,
                forall|j: int| 0 <= j < i ==> #[trigger] pairs@[j].1 != 0,
            decreases len - i,
        {
            if pairs[i].1 == 0 {
                assert(pairs@[i as int].1 == 0);
                return Some(LaunchpadError::InvalidTicketCount);
            }
            i += 1;
        }
        i = 0;
        while i < len
            invariant
                len == pairs@.len(),
                i <= len,
                !self@.flags.has_winner_selection_process_started,
                forall|j: int| 0 <= j < len ==> #[trigger] pairs@[j].1 != 0,
                forall|k: int|
                    0 <= k < i ==> !(self@.ranges.contains_key(#[trigger] pairs@[k].0) || exists|
                        j: int,
                    | 0 <= j < k && pairs@[j].0 == pairs@[k].0),
            decreases len - i,
        {
            if self.ticket_range_for_address.contains_key(&pairs[i].0) {
                return Some(LaunchpadError::DuplicateEntry);
            }
            let mut j: usize = 0;
            while j < i
                invariant
                    len == pairs@.len(),
                    j <= i < len,
                    forall|l: int| 0 <= l < j ==> pairs@[l].0 != pairs@[i as int].0,
                    !self@.flags.has_winner_selection_process_started,
                    forall|l: int| 0 <= l < len ==> #[trigger] pairs@[l].1 != 0,
                decreases i - j,
            {
                if pairs[j].0 == pairs[i].0 {
                    assert(exists|l: int| 0 <= l < i && pairs@[l].0 == pairs@[i as int].0) by {
                        assert(pairs@[j as int].0 == pairs@[i as int].0);
                    }
                    return Some(LaunchpadError::DuplicateEntry);
                }
                j += 1;
            }
            i += 1;
        }
        let mut sum: u64 = self.last_ticket_id;
        i = 0;
        while i < len
            invariant
                len == pairs@.len(),
                i <= len,
                sum == self.last_ticket_id + pairs_total(pairs@.take(i as int)),
                sum < u64::MAX,
                !self@.flags.has_winner_selection_process_started,
                forall|j: int| 0 <= j < len ==> #[trigger] pairs@[j].1 != 0,
                forall|k: int|
                    0 <= k < len ==> !(self@.ranges.contains_key(#[trigger] pairs@[k].0) || exists|
                        j: int,
                    | 0 <= j < k && pairs@[j].0 == pairs@[k].0),
            decreases len - i,
        {
            assert(pairs@.take(i + 1).drop_last() =~= pairs@.take(i as int));
            if pairs[i].1 >= u64::MAX - sum {
                proof {
                    lemma_pairs_total_prefix(pairs@, i + 1);
                }
                return Some(LaunchpadError::TicketIdsExhausted);
            }
            sum = sum + pairs[i].1;
            i += 1;
        }
        assert(pairs@.take(len as int) =~= pairs@);
        None
    }

    /// Gives each listed address its tickets, in list order; a rejected list changes nothing.
    pub fn add_tickets(&mut self, address_number_pairs: &Vec<(Address, u64)>) -> (r: Result<
        (),
        LaunchpadError,
    >)
        requires
            old(self).wf(),
        ensures
            final(self).wf(),
            match add_tickets_error(old(self)@, address_number_pairs@) {
                Some(e) => r == Err::<(), LaunchpadError>(e) && *final(self) == *old(self),
                None => r is Ok && final(self)@ == created_all(old(self)@, address_number_pairs@),
            },
    {
        let pairs = address_number_pairs;
        let len = pairs.len();
        if let Some(e) = self.add_tickets_check(pairs) {
            return Err(e);
        }
        let ghost start = self@;
        let mut i: usize = 0;
        assert(pairs@.take(0) =~= Seq::<(Address, u64)>::empty());
        while i < len
            invariant
                len == pairs@.len(),
                i <= len,
                self.wf(),
                !self@.flags.has_winner_selection_process_started,
                add_tickets_error(start, pairs@) is None,
                self@ == created_all(start, pairs@.take(i as int)),
                self.last_ticket_id == start.last_ticket_id + pairs_total(pairs@.take(i as int)),
                forall|k: int| i <= k < len ==> !self@.ranges.contains_key(#[trigger] pairs@[k].0),
            decreases len - i,
        {
            let (a, n) = pairs[i];
            proof {
                assert(pairs@.take(i + 1).drop_last() =~= pairs@.take(i as int));
                lemma_pairs_total_prefix(pairs@, i + 1);
                assert(pairs@[i as int].1 != 0);
            }
            let res = self.try_create_tickets(a, n);
            assert(res is Ok);
            proof {
                assert forall|k: int| i + 1 <= k < len implies !self@.ranges.contains_key(
                    #[trigger] pairs@[k].0,
                ) by {
                    assert(!(exists|j: int| 0 <= j < k && pairs@[j].0 == pairs@[k].0));
                    assert(pairs@[i as int].0 != pairs@[k].0);
                }
            }
            i += 1;
        }
        assert(pairs@.take(len as int) =~= pairs@);
        Ok(())
    }

    /// Confirms (pays for) `nr_tickets_to_confirm` more of the caller's tickets.
    pub fn confirm_tickets(&mut self, caller: Address, nr_tickets_to_confirm: u64) -> (r: Result<
        (),
        LaunchpadError,
    >)
        requires
            old(self).wf(),
        ensures
            final(self).wf(),
            match confirm_error(old(self)@, caller, nr_tickets_to_confirm) {
                Some(e) => r == Err::<(), LaunchpadError>(e) && *final(self) == *old(self),
                None => r is Ok && final(self)@ == (LaunchpadState {
                    confirmed: old(self)@.confirmed.insert(
                        caller,
                        (old(self)@.confirmed_of(caller) + nr_tickets_to_confirm) as u64,
                    ),
                    ..old(self)@
                }),
            },
    {
        if self.flags.has_winner_selection_process_started {
            return Err(LaunchpadError::SelectionAlreadyStarted);
        }
        if self.blacklist.contains(&caller) {
            return Err(LaunchpadError::UserBlacklisted);
        }
        let total_tickets = self.get_total_number_of_tickets_for_address(caller);
        let nr_confirmed = match self.nr_confirmed_tickets.get(&caller) {
            Some(c) => *c,
            None => 0,
        };
        proof {
            lemma_confirmed_le_tickets(self@, caller);
        }
        if nr_tickets_to_confirm > total_tickets - nr_confirmed {
            return Err(LaunchpadError::TooManyTicketsConfirmed);
        }
        proof {
            lemma_confirm_wf(self@, caller, nr_tickets_to_confirm);
        }
        self.nr_confirmed_tickets.insert(caller, nr_confirmed + nr_tickets_to_confirm);
        Ok(())
    }

    /// Puts the listed users on the blacklist and cancels their confirmations; returns the
    /// confirmed tickets to refund to each of them.
    pub fn add_users_to_blacklist(&mut self, users_list: &Vec<Address>) -> (r: Result<
        Vec<(Address, u64)>,
        LaunchpadError,
    >)
        requires
            old(self).wf(),
        ensures
            final(self).wf(),
            old(self)@.flags.has_winner_selection_process_started ==> r == Err::<
                Vec<(Address, u64)>,
                LaunchpadError,
            >(LaunchpadError::SelectionAlreadyStarted) && *final(self) == *old(self),
            !old(self)@.flags.has_winner_selection_process_started ==> r is Ok && r->Ok_0@
                == blacklist_refunds(old(self)@.confirmed, users_list@) && final(self)@ == (
            LaunchpadState {
                blacklist: old(self)@.blacklist + users_list@.to_set(),
                confirmed: old(self)@.confirmed.remove_keys(users_list@.to_set()),
                ..old(self)@
            }),
    {
        if self.flags.has_winner_selection_process_started {
            return Err(LaunchpadError::SelectionAlreadyStarted);
        }
        let ghost s = self@;
        let mut refunds: Vec<(Address, u64)> = Vec::new();
        let mut i: usize = 0;
        proof {
            assert(users_list@.take(0).to_set() =~= Set::<Address>::empty());
            assert(self@ =~= (LaunchpadState {
                blacklist: s.blacklist + users_list@.take(0).to_set(),
                confirmed: s.confirmed.remove_keys(users_list@.take(0).to_set()),
                ..s
            }));
            assert(refunds@ =~= blacklist_refunds(s.confirmed, users_list@.take(0)));
        }
        while i < users_list.len()
            invariant
                i <= users_list@.len(),
                s.wf(),
                !s.flags.has_winner_selection_process_started,
                self@ == (LaunchpadState {
                    blacklist: s.blacklist + users_list@.take(i as int).to_set(),
                    confirmed: s.confirmed.remove_keys(users_list@.take(i as int).to_set()),
                    ..s
                }),
                refunds@ == blacklist_refunds(s.confirmed, users_list@.take(i as int)),
            decreases users_list@.len() - i,
        {
            let a = users_list[i];
            let ghost prev = users_list@.take(i as int);
            proof {
                assert(users_list@.take(i + 1).drop_last() =~= prev);
                assert(users_list@.take(i + 1) =~= prev.push(a));
                prev.lemma_push_to_set_commute(a);
                assert(prev.contains(a) <==> prev.to_set().contains(a));
            }
            let removed = self.nr_confirmed_tickets.remove(&a);
            match removed {
                Some(c) => {
                    if c > 0 {
                        refunds.push((a, c));
                    }
                },
                None => {},
            }
            self.blacklist.insert(a);
            proof {
                assert(self@ =~= (LaunchpadState {
                    blacklist: s.blacklist + users_list@.take(i + 1).to_set(),
                    confirmed: s.confirmed.remove_keys(users_list@.take(i + 1).to_set()),
                    ..s
                }));
            }
            i += 1;
        }
        proof {
            assert(users_list@.take(i as int) =~= users_list@);
            lemma_blacklist_wf(s, users_list@.to_set());
        }
        Ok(refunds)
    }

    /// Takes the listed users off the blacklist.
    pub fn remove_users_from_blacklist(&mut self, users_list: &Vec<Address>) -> (r: Result<
        (),
        LaunchpadError,
    >)
        requires
            old(self).wf(),
        ensures
            final(self).wf(),
            old(self)@.flags.has_winner_selection_process_started ==> r == Err::<
                (),
                LaunchpadError,
            >(LaunchpadError::SelectionAlreadyStarted) && *final(self) == *old(self),
            !old(self)@.flags.has_winner_selection_process_started ==> r is Ok && final(self)@ == (
            LaunchpadState {
                blacklist: old(self)@.blacklist - users_list@.to_set(),
                ..old(self)@
            }),
    {
        if self.flags.has_winner_selection_process_started {
            return Err(LaunchpadError::SelectionAlreadyStarted);
        }
        let ghost s = self@;
        let mut i: usize = 0;
        proof {
            assert(users_list@.take(0).to_set() =~= Set::<Address>::empty());
            assert(self@ =~= (LaunchpadState {
                blacklist: s.blacklist - users_list@.take(0).to_set(),
                ..s
            }));
        }
        while i < users_list.len()
            invariant
                i <= users_list@.len(),
                s.wf(),
                self@ == (LaunchpadState {
                    blacklist: s.blacklist - users_list@.take(i as int).to_set(),
                    ..s
                }),
            decreases users_list@.len() - i,
        {
            let a = users_list[i];
            self.blacklist.remove(&a);
            proof {
                assert(users_list@.take(i + 1) =~= users_list@.take(i as int).push(a));
                users_list@.take(i as int).lemma_push_to_set_commute(a);
                assert(self@ =~= (LaunchpadState {
                    blacklist: s.blacklist - users_list@.take(i + 1).to_set(),
                    ..s
                }));
            }
            i += 1;
        }
        proof {
            assert(users_list@.take(i as int) =~= users_list@);
            reveal(LaunchpadState::registry_wf);
        }
        Ok(())
    }

    /// Reserves `quota` winning tickets for `address`, taken from the configured winner count.
    pub fn add_guaranteed_tickets(&mut self, address: Address, quota: u64) -> (r: Result<
        (),
        LaunchpadError,
    >)
        requires
            old(self).wf(),
        ensures
            final(self).wf(),
            match quota_error(old(self)@, address, quota) {
                Some(e) => r == Err::<(), LaunchpadError>(e) && *final(self) == *old(self),
                None => r is Ok && final(self)@ == (LaunchpadState {
                    guaranteed_users: old(self)@.guaranteed_users.push(address),
                    quotas: old(self)@.quotas.insert(address, quota),
                    total_guaranteed: (old(self)@.total_guaranteed + quota) as u64,
                    ..old(self)@
                }),
            },
    {
        if self.flags.has_winner_selection_process_started {
            return Err(LaunchpadError::AddTicketsPeriodPassed);
        }
        if self.guaranteed_tickets.contains_key(&address) {
            return Err(LaunchpadError::DuplicateEntry);
        }
        if quota == 0 {
            return Err(LaunchpadError::InvalidTicketCount);
        }
        if quota > self.nr_winning_tickets - self.total_guaranteed_tickets {
            return Err(LaunchpadError::TooManyGuaranteedTickets);
        }
        let ghost s = self@;
        self.users_with_guaranteed_ticket.push(address);
        assert(self.users_with_guaranteed_ticket@ == s.guaranteed_users.push(address));
        self.guaranteed_tickets.insert(address, quota);
        self.total_guaranteed_tickets = self.total_guaranteed_tickets + quota;
        proof {
            lemma_quota_added_wf(s, address, quota);
        }
        Ok(())
    }

    /// Number of tickets `address` holds.
    pub fn get_total_number_of_tickets_for_address(&self, address: Address) -> (r: u64)
        requires
            self.wf(),
        ensures
            r == tickets_of(self@, address),
    {
        match self.ticket_range_for_address.get(&address) {
            Some(range) => {
                proof {
                    lemma_range_in_layout(self@, address);
                }
                range.last_id - range.first_id + 1
            },
            None => 0,
        }
    }
}
} // verus!
