use crate::layout::{
    lemma_offset_bound, lemma_offset_drop_first, lemma_offset_zero, lemma_offset_full, lemma_offset_push,
    lemma_total_drop_first, lemma_total_push,
};
use crate::state::{holds_batch, range_at, total, Launchpad, LaunchpadState};
use crate::types::{
    Flags, LaunchpadError, OngoingOperation, OperationCompletionStatus, OperationState,
    TicketBatch, TicketRange, FIRST_TICKET_ID,
};
use vstd::prelude::*;

verus! {

broadcast use vstd::std_specs::hash::group_hash_axioms;

/// The filtering cursor: the first id of the next batch and the tickets removed so far.
pub open spec fn filter_cursor(s: LaunchpadState) -> (u64, u64) {
    match s.operation {
        OperationState::FilterTickets { first_ticket_id_in_batch, nr_removed } => (
            first_ticket_id_in_batch,
            nr_removed,
        ),
        _ => (FIRST_TICKET_ID, 0),
    }
}

/// One unit of filtering: the batch at the cursor is dropped (nothing confirmed, or
/// blacklisted), moved down over the tickets removed so far with its confirmed count,
/// or kept as it is.
pub open spec fn filter_unit(s: LaunchpadState) -> LaunchpadState {
    let (c, r) = filter_cursor(s);
    let b = s.batches[c];
    let a = b.address;
    let n = b.nr_tickets;
    let conf = s.confirmed_of(a);
    let op = OperationState::FilterTickets {
        first_ticket_id_in_batch: (c + n) as u64,
        nr_removed: (r + (n - conf)) as u64,
    };
    if s.blacklist.contains(a) || conf == 0 {
        LaunchpadState {
            ranges: s.ranges.remove(a),
            batches: s.batches.remove(c),
            pending: s.pending.drop_first(),
            operation: op,
            ..s
        }
    } else if r > 0 || conf < n {
        let nf = (c - r) as u64;
        let kb = TicketBatch { address: a, nr_tickets: conf };
        LaunchpadState {
            ranges: s.ranges.insert(a, TicketRange { first_id: nf, last_id: (nf + conf - 1) as u64 }),
            batches: s.batches.remove(c).insert(nf, kb),
            kept: s.kept.push(kb),
            pending: s.pending.drop_first(),
            operation: op,
            ..s
        }
    } else {
        LaunchpadState {
            kept: s.kept.push(b),
            pending: s.pending.drop_first(),
            operation: op,
            ..s
        }
    }
}

/// Whether filtering has reached the end of the ticket ids.
pub open spec fn filter_done(s: LaunchpadState) -> bool {
    filter_cursor(s).0 == s.last_ticket_id + 1
}

/// Filtering units run while the budget lasts and batches remain.
pub open spec fn filter_loop(s: LaunchpadState, budget: nat) -> LaunchpadState
    decreases budget,
{
    if filter_done(s) || budget == 0 {
        s
    } else {
        filter_loop(filter_unit(s), (budget - 1) as nat)
    }
}

/// Entering filtering: enrollment closes and a fresh cursor is set unless one is saved.
pub open spec fn filter_started(s: LaunchpadState) -> LaunchpadState {
    let (c, r) = filter_cursor(s);
    LaunchpadState {
        flags: Flags { has_winner_selection_process_started: true, ..s.flags },
        operation: OperationState::FilterTickets { first_ticket_id_in_batch: c, nr_removed: r },
        ..s
    }
}

/// Leaving filtering: once every batch is done the id space shrinks by the removed
/// tickets and the winner count is clamped to it; otherwise the cursor stays saved.
pub open spec fn filter_finished(s: LaunchpadState) -> LaunchpadState {
    if filter_done(s) {
        let new_last = (s.last_ticket_id - filter_cursor(s).1) as u64;
        LaunchpadState {
            last_ticket_id: new_last,
            nr_winning_tickets: if s.nr_winning_tickets > new_last {
                new_last
            } else {
                s.nr_winning_tickets
            },
            flags: Flags { were_tickets_filtered: true, ..s.flags },
            operation: OperationState::Idle,
            ..s
        }
    } else {
        s
    }
}

/// The state after one invocation of filtering with `budget` units.
pub open spec fn filter_result(s: LaunchpadState, budget: nat) -> LaunchpadState {
    filter_finished(filter_loop(filter_started(s), budget))
}

/// A state in the middle of filtering.
pub open spec fn filtering(s: LaunchpadState) -> bool {
    &&& s.wf()
    &&& s.flags.has_winner_selection_process_started
    &&& !s.flags.were_tickets_filtered
}

pub(crate) proof fn lemma_total_ge_len(s: Seq<TicketBatch>)
    requires
        forall|i: int| 0 <= i < s.len() ==> #[trigger] s[i].nr_tickets >= 1,
    ensures
        total(s) >= s.len(),
    decreases s.len(),
{
    reveal(total);
    if s.len() > 0 {
        lemma_total_ge_len(s.drop_last());
    }
}

/// What one unit of filtering reads and computes is in range.
pub(crate) proof fn lemma_filter_unit_facts(s: LaunchpadState)
    requires
        filtering(s),
        !filter_done(s),
    ensures
        s.pending.len() > 0,
        s.batches.contains_key(filter_cursor(s).0),
        s.batches[filter_cursor(s).0] == s.pending[0],
        s.pending[0].nr_tickets >= 1,
        s.confirmed_of(s.pending[0].address) <= s.pending[0].nr_tickets,
        filter_cursor(s).0 == s.pending_base() + 1,
        filter_cursor(s).0 - filter_cursor(s).1 == total(s.kept) + 1,
        filter_cursor(s).0 + s.pending[0].nr_tickets <= s.last_ticket_id + 1,
        s.blacklist.contains(s.pending[0].address) ==> s.confirmed_of(s.pending[0].address) == 0,
{
    reveal(LaunchpadState::registry_wf);
    let p = s.pending;
    assert(p.len() > 0) by {
        if p.len() == 0 {
            reveal(total);
            assert(total(p) == 0);
        }
    }
    lemma_offset_zero(p);
    lemma_offset_bound(p, 0);
    assert(s.all_batches()[s.kept.len() as int] == p[0]);
}

pub(crate) proof fn lemma_filter_unit_wf(s: LaunchpadState)
    requires
        filtering(s),
        !filter_done(s),
    ensures
        filtering(filter_unit(s)),
        filter_unit(s).flags == s.flags,
        filter_unit(s).last_ticket_id == s.last_ticket_id,
{
    lemma_filter_unit_facts(s);
    lemma_total_drop_first(s.pending);
    let a = s.pending[0].address;
    if s.blacklist.contains(a) || s.confirmed_of(a) == 0 {
        lemma_filter_drop_wf(s);
    } else {
        lemma_filter_keep_wf(s);
    }
}

/// Later batches keep their ranges and owners when the first pending batch leaves.
proof fn lemma_filter_rest(s: LaunchpadState)
    requires
        s.registry_wf(),
        s.pending.len() > 0,
    ensures
        forall|i: int|
            0 <= i < s.pending.len() - 1 ==> #[trigger] s.pending.drop_first()[i].address
                != s.pending[0].address && range_at(
                s.pending.drop_first(),
                s.pending_base() + s.pending[0].nr_tickets,
                i,
            ) == range_at(s.pending, s.pending_base(), i + 1) && range_at(
                s.pending.drop_first(),
                s.pending_base() + s.pending[0].nr_tickets,
                i,
            ).first_id > s.pending_base() + 1,
        forall|i: int| 0 <= i < s.kept.len() ==> #[trigger] s.kept[i].address != s.pending[0].address,
{
    reveal(LaunchpadState::registry_wf);
    let k = s.kept;
    let p = s.pending;
    let all = s.all_batches();
    let rest = p.drop_first();
    assert(all[k.len() as int] == p[0]);
    lemma_offset_zero(p);
    assert forall|i: int| 0 <= i < rest.len() implies #[trigger] rest[i].address != p[0].address
        && range_at(rest, s.pending_base() + p[0].nr_tickets, i) == range_at(
        p,
        s.pending_base(),
        i + 1,
    ) && range_at(rest, s.pending_base() + p[0].nr_tickets, i).first_id > s.pending_base()
        + 1 by {
        assert(all[k.len() + i + 1] == p[i + 1]);
        lemma_offset_drop_first(p, i);
        lemma_offset_bound(p, i + 1);
        crate::layout::lemma_offset_mono(p, 0, i + 1);
    }
    assert forall|i: int| 0 <= i < k.len() implies #[trigger] k[i].address != p[0].address by {
        assert(all[i] == k[i]);
    }
}

proof fn lemma_filter_drop_wf(s: LaunchpadState)
    requires
        filtering(s),
        !filter_done(s),
        s.blacklist.contains(s.pending[0].address) || s.confirmed_of(s.pending[0].address) == 0,
    ensures
        filtering(filter_unit(s)),
        filter_unit(s).flags == s.flags,
        filter_unit(s).last_ticket_id == s.last_ticket_id,
{
    reveal(LaunchpadState::registry_wf);
    lemma_filter_unit_facts(s);
    lemma_total_drop_first(s.pending);
    lemma_filter_rest(s);
    let (c, r) = filter_cursor(s);
    let k = s.kept;
    let p = s.pending;
    let all = s.all_batches();
    let b = p[0];
    let a = b.address;
    let n = b.nr_tickets;
    let conf = s.confirmed_of(a);
    let t = filter_unit(s);
    let rest = p.drop_first();
    assert(t.pending == rest);
    assert(t.pending_base() == s.pending_base() + n);
    lemma_offset_zero(p);
    lemma_offset_full(k);
    assert(conf == 0);
    assert(t.all_batches() =~= k + rest);
    assert forall|x: crate::types::Address| #[trigger]
        t.ranges.contains_key(x) implies holds_batch(t.all_batches(), x) && !t.claimed.contains(
        x,
    ) by {
        let i = choose|i: int| 0 <= i < all.len() && all[i].address == x;
        if i < k.len() {
            assert(t.all_batches()[i] == all[i]);
        } else if i > k.len() {
            assert(t.all_batches()[i - 1] == all[i]);
        }
    }
    assert forall|i: int, j: int|
        0 <= i < j < t.all_batches().len() implies t.all_batches()[i].address
        != t.all_batches()[j].address by {
        let i2 = if i < k.len() {
            i
        } else {
            i + 1
        };
        let j2 = if j < k.len() {
            j
        } else {
            j + 1
        };
        assert(t.all_batches()[i] == all[i2]);
        assert(t.all_batches()[j] == all[j2]);
    }
    assert forall|i: int| 0 <= i < t.all_batches().len() implies #[trigger] t.all_batches()[i].nr_tickets >= 1 by {
        let i2 = if i < k.len() {
            i
        } else {
            i + 1
        };
        assert(t.all_batches()[i] == all[i2]);
    }
    assert(t.registry_wf());
}

proof fn lemma_filter_keep_wf(s: LaunchpadState)
    requires
        filtering(s),
        !filter_done(s),
        !(s.blacklist.contains(s.pending[0].address) || s.confirmed_of(s.pending[0].address) == 0),
    ensures
        filtering(filter_unit(s)),
        filter_unit(s).flags == s.flags,
        filter_unit(s).last_ticket_id == s.last_ticket_id,
{
    reveal(LaunchpadState::registry_wf);
    lemma_filter_unit_facts(s);
    lemma_total_drop_first(s.pending);
    lemma_filter_rest(s);
    let (c, r) = filter_cursor(s);
    let k = s.kept;
    let p = s.pending;
    let all = s.all_batches();
    let b = p[0];
    let a = b.address;
    let n = b.nr_tickets;
    let conf = s.confirmed_of(a);
    let t = filter_unit(s);
    let rest = p.drop_first();
    assert(t.pending == rest);
    assert(t.pending_base() == s.pending_base() + n);
    lemma_offset_zero(p);
    lemma_offset_full(k);
    let kb = if r > 0 || conf < n {
        TicketBatch { address: a, nr_tickets: conf }
    } else {
        b
    };
    assert(t.kept == k.push(kb));
    lemma_total_push(k, kb);
    lemma_offset_full(k);
    assert(t.all_batches().len() == all.len());
    assert forall|i: int| 0 <= i < all.len() implies #[trigger] t.all_batches()[i].address
        == all[i].address && t.all_batches()[i].nr_tickets >= 1 by {
        assert(all[i].nr_tickets >= 1);
        if i < k.len() {
            assert(t.all_batches()[i] == k[i]);
        } else if i == k.len() {
            assert(t.all_batches()[i] == kb);
        } else {
            assert(t.all_batches()[i] == rest[i - k.len() - 1]);
            assert(all[i] == p[i - k.len()]);
        }
    }
    assert forall|x: crate::types::Address| #[trigger]
        t.ranges.contains_key(x) implies holds_batch(t.all_batches(), x) && !t.claimed.contains(
        x,
    ) by {
        if x != a {
            let i = choose|i: int| 0 <= i < all.len() && all[i].address == x;
            assert(t.all_batches()[i].address == x);
        } else {
            assert(t.all_batches()[k.len() as int].address == x);
        }
    }
    assert forall|i: int| #![trigger t.kept[i]]
        0 <= i < t.kept.len() && !t.claimed.contains(t.kept[i].address) implies {
        &&& t.ranges.contains_key(t.kept[i].address)
        &&& t.ranges[t.kept[i].address] == range_at(t.kept, 0, i)
        &&& t.confirmed_of(t.kept[i].address) == t.kept[i].nr_tickets
        &&& t.batches.contains_key(range_at(t.kept, 0, i).first_id)
        &&& t.batches[range_at(t.kept, 0, i).first_id] == t.kept[i]
    } by {
        lemma_offset_push(k, kb, i);
        if i == k.len() {
            assert(range_at(p, s.pending_base(), 0).first_id == c);
        } else {
            assert(t.kept[i] == k[i]);
            lemma_offset_bound(k, i);
        }
    }
    assert(t.registry_wf());
}

pub(crate) proof fn lemma_filter_loop_wf(s: LaunchpadState, budget: nat)
    requires
        filtering(s),
    ensures
        filtering(filter_loop(s, budget)),
        filter_loop(s, budget).flags == s.flags,
        filter_loop(s, budget).last_ticket_id == s.last_ticket_id,
    decreases budget,
{
    if !(filter_done(s) || budget == 0) {
        lemma_filter_unit_wf(s);
        lemma_filter_loop_wf(filter_unit(s), (budget - 1) as nat);
    }
}

pub(crate) proof fn lemma_filter_started_wf(s: LaunchpadState)
    requires
        s.wf(),
        !s.flags.were_tickets_filtered,
    ensures
        filtering(filter_started(s)),
{
    reveal(LaunchpadState::registry_wf);
    let s0 = filter_started(s);
    if !s.flags.has_winner_selection_process_started {
        assert(s0.all_batches() == s.all_batches());
    }
}

pub(crate) proof fn lemma_filter_result_wf(s: LaunchpadState, budget: nat)
    requires
        s.wf(),
        !s.flags.were_tickets_filtered,
    ensures
        filter_result(s, budget).wf(),
{
    reveal(LaunchpadState::registry_wf);
    let s0 = filter_started(s);
    lemma_filter_started_wf(s);
    lemma_filter_loop_wf(s0, budget);
    let s1 = filter_loop(s0, budget);
    if filter_done(s1) {
        let p = s1.pending;
        assert forall|i: int| 0 <= i < p.len() implies #[trigger] p[i].nr_tickets >= 1 by {
            assert(s1.all_batches()[s1.kept.len() + i] == p[i]);
        }
        lemma_total_ge_len(p);
        assert(p.len() == 0);
        assert(s1.all_batches() =~= s1.kept);
        let t = filter_finished(s1);
        assert(t.all_batches() == s1.all_batches());
        assert(t.registry_wf());
    }
}

impl Launchpad {
    fn filter_single_batch(&mut self, c: u64, r: u64) -> (res: (u64, u64))
        requires
            filtering(old(self)@),
            !filter_done(old(self)@),
            filter_cursor(old(self)@) == (c, r),
            old(self)@.operation == (OperationState::FilterTickets {
                first_ticket_id_in_batch: c,
                nr_removed: r,
            }),
        ensures
            final(self)@ == filter_unit(old(self)@),
            res == filter_cursor(final(self)@),
    {
        let ghost s = self@;
        proof {
            lemma_filter_unit_facts(s);
        }
        let batch = match self.ticket_batch.get(&c) {
            Some(b) => *b,
            None => TicketBatch { address: 0, nr_tickets: 0 },
        };
        let a = batch.address;
        let n = batch.nr_tickets;
        let conf = match self.nr_confirmed_tickets.get(&a) {
            Some(v) => *v,
            None => 0,
        };
        if self.blacklist.contains(&a) || conf == 0 {
            self.ticket_range_for_address.remove(&a);
            self.ticket_batch.remove(&c);
            self.pending_batches = Ghost(self.pending_batches@.drop_first());
        } else if r > 0 || conf < n {
            let new_first_id = c - r;
            let new_last_id = new_first_id + conf - 1;
            self.ticket_batch.remove(&c);
            self.ticket_range_for_address.insert(
                a,
                TicketRange { first_id: new_first_id, last_id: new_last_id },
            );
            self.ticket_batch.insert(new_first_id, TicketBatch { address: a, nr_tickets: conf });
            self.filtered_batches = Ghost(
                self.filtered_batches@.push(TicketBatch { address: a, nr_tickets: conf }),
            );
            self.pending_batches = Ghost(self.pending_batches@.drop_first());
        } else {
            self.filtered_batches = Ghost(self.filtered_batches@.push(batch));
            self.pending_batches = Ghost(self.pending_batches@.drop_first());
        }
        let next_first = c + n;
        let next_removed = r + (n - conf);
        self.current_operation = OngoingOperation::FilterTickets {
            first_ticket_id_in_batch: next_first,
            nr_removed: next_removed,
        };
        assert(self@ =~= filter_unit(s));
        (next_first, next_removed)
    }

    /// Compacts the ticket space, one batch per budget unit: unconfirmed and blacklisted
    /// tickets are removed and the remaining ranges are renumbered contiguously.
    pub fn filter_tickets(&mut self, budget: u64) -> (r: Result<
        OperationCompletionStatus,
        LaunchpadError,
    >)
        requires
            old(self).wf(),
        ensures
            final(self).wf(),
            old(self)@.flags.were_tickets_filtered ==> r == Err::<
                OperationCompletionStatus,
                LaunchpadError,
            >(LaunchpadError::TicketsAlreadyFiltered) && *final(self) == *old(self),
            !old(self)@.flags.were_tickets_filtered ==> {
                &&& final(self)@ == filter_result(old(self)@, budget as nat)
                &&& r == Ok::<OperationCompletionStatus, LaunchpadError>(
                    if final(self)@.flags.were_tickets_filtered {
                        OperationCompletionStatus::Completed
                    } else {
                        OperationCompletionStatus::InterruptedBeforeOutOfGas
                    },
                )
            },
    {
        if self.flags.were_tickets_filtered {
            return Err(LaunchpadError::TicketsAlreadyFiltered);
        }
        let ghost s = self@;
        proof {
            lemma_filter_result_wf(s, budget as nat);
        }
        let (mut c, mut r) = match &self.current_operation {
            OngoingOperation::FilterTickets { first_ticket_id_in_batch, nr_removed } => (
                *first_ticket_id_in_batch,
                *nr_removed,
            ),
            _ => (FIRST_TICKET_ID, 0),
        };
        self.flags.has_winner_selection_process_started = true;
        self.current_operation = OngoingOperation::FilterTickets {
            first_ticket_id_in_batch: c,
            nr_removed: r,
        };
        assert(self@ =~= filter_started(s));
        proof {
            lemma_filter_started_wf(s);
        }
        let mut budget_left = budget;
        while c != self.last_ticket_id + 1 && budget_left > 0
            invariant
                filtering(self@),
                filter_cursor(self@) == (c, r),
                self@.operation == (OperationState::FilterTickets {
                    first_ticket_id_in_batch: c,
                    nr_removed: r,
                }),
                filter_loop(self@, budget_left as nat) == filter_loop(
                    filter_started(s),
                    budget as nat,
                ),
            decreases budget_left,
        {
            proof {
                lemma_filter_unit_wf(self@);
            }
            let (c2, r2) = self.filter_single_batch(c, r);
            c = c2;
            r = r2;
            budget_left = budget_left - 1;
        }
        if c == self.last_ticket_id + 1 {
            let new_last = self.last_ticket_id - r;
            if self.nr_winning_tickets > new_last {
                self.nr_winning_tickets = new_last;
            }
            self.last_ticket_id = new_last;
            self.flags.were_tickets_filtered = true;
            self.current_operation = OngoingOperation::Idle;
            assert(self@ =~= filter_result(s, budget as nat));
            Ok(OperationCompletionStatus::Completed)
        } else {
            Ok(OperationCompletionStatus::InterruptedBeforeOutOfGas)
        }
    }
}

} // verus!
