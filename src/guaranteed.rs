use crate::claims::{id_range, lemma_id_range_len, won_in_range};
use crate::layout::lemma_range_in_layout;
use crate::random::{next_state, Random, RngState};
use crate::selection::{
    drawn_pos, fresh_rng, lemma_shuffle_pool, lemma_won_bounded, shuffled_overlay, shuffled_won,
};
use crate::state::{id_at, pool_ok, rng_wf, Launchpad, LaunchpadState};
use crate::types::{
    Flags, GuaranteedSelectionState, LaunchpadError, OngoingOperation, OperationCompletionStatus,
    OperationState,
};
use vstd::prelude::*;

verus! {

broadcast use vstd::std_specs::hash::group_hash_axioms;

/// Marks up to `need` tickets of `id..=last` that have not won, in id order; also returns
/// how many of the `need` could not be marked.
pub open spec fn fill(won: Set<u64>, id: u64, last: u64, need: nat) -> (Set<u64>, nat)
    decreases last + 1 - id,
{
    if id > last || need == 0 || id == u64::MAX {
        (won, need)
    } else if won.contains(id) {
        fill(won, (id + 1) as u64, last, need)
    } else {
        fill(won.insert(id), (id + 1) as u64, last, (need - 1) as nat)
    }
}

pub proof fn lemma_fill(won: Set<u64>, id: u64, last: u64, need: nat)
    requires
        won.finite(),
    ensures
        fill(won, id, last, need).1 <= need,
        fill(won, id, last, need).0.finite(),
        fill(won, id, last, need).0.len() == won.len() + (need - fill(won, id, last, need).1),
        won.subset_of(fill(won, id, last, need).0),
        forall|x: u64| #[trigger]
            fill(won, id, last, need).0.contains(x) ==> won.contains(x) || id <= x <= last,
    decreases last + 1 - id,
{
    if id > last || need == 0 || id == u64::MAX {
    } else if won.contains(id) {
        lemma_fill(won, (id + 1) as u64, last, need);
    } else {
        lemma_fill(won.insert(id), (id + 1) as u64, last, (need - 1) as nat);
    }
}

/// The counters of the allocation in progress, zero when it has not started.
pub open spec fn guaranteed_op(s: LaunchpadState) -> GuaranteedSelectionState {
    match s.operation {
        OperationState::SelectGuaranteedTickets { op } => op,
        OperationState::DistributeLeftoverTickets { op, .. } => op,
        _ => GuaranteedSelectionState {
            leftover_tickets: 0,
            total_additional_winning_tickets: 0,
            leftover_ticket_pos_offset: 1,
        },
    }
}

/// The winners after serving the last listed address, and the part of its quota left over.
/// Tickets it already won count towards its quota; the rest of the quota is met with its
/// first tickets that have not won.
pub open spec fn guaranteed_fill(s: LaunchpadState) -> (Set<u64>, nat) {
    let u = s.guaranteed_users.last();
    let q = s.quotas[u];
    if s.ranges.contains_key(u) {
        let r = s.ranges[u];
        let w = won_in_range(s.won, r.first_id, r.last_id).len();
        let need: nat = if w < q {
            (q - w) as nat
        } else {
            0
        };
        let (won2, unmet) = fill(s.won, r.first_id, r.last_id, need);
        (won2, (q - (need - unmet)) as nat)
    } else {
        (s.won, q as nat)
    }
}

/// One unit of the first phase: the last listed address gets up to its quota of its own
/// tickets that have not won; what it cannot get becomes leftover.
pub open spec fn guaranteed_unit(s: LaunchpadState) -> LaunchpadState {
    let g = guaranteed_op(s);
    let q = s.quotas[s.guaranteed_users.last()];
    let (won2, left) = guaranteed_fill(s);
    LaunchpadState {
        won: won2,
        guaranteed_users: s.guaranteed_users.drop_last(),
        operation: OperationState::SelectGuaranteedTickets {
            op: GuaranteedSelectionState {
                leftover_tickets: (g.leftover_tickets + left) as u64,
                total_additional_winning_tickets: (g.total_additional_winning_tickets + (q
                    - left)) as u64,
                leftover_ticket_pos_offset: g.leftover_ticket_pos_offset,
            },
        },
        ..s
    }
}

pub open spec fn guaranteed_loop(s: LaunchpadState, budget: nat) -> (LaunchpadState, nat)
    decreases budget,
{
    if !(s.operation is SelectGuaranteedTickets) || s.guaranteed_users.len() == 0 || budget == 0 {
        (s, budget)
    } else {
        guaranteed_loop(guaranteed_unit(s), (budget - 1) as nat)
    }
}

/// The shuffle position the leftover draw is at.
pub open spec fn leftover_pos(s: LaunchpadState) -> int {
    s.base_winners() + guaranteed_op(s).leftover_ticket_pos_offset
}

pub open spec fn leftover_rng(s: LaunchpadState) -> RngState {
    match s.operation {
        OperationState::DistributeLeftoverTickets { rng, .. } => rng,
        _ => RngState { seed: Seq::empty(), index: 0 },
    }
}

pub open spec fn leftover_done(s: LaunchpadState) -> bool {
    guaranteed_op(s).leftover_tickets == 0 || leftover_pos(s) > s.last_ticket_id
}

/// One unit of the second phase: one more shuffle step past the base draw; the ticket drawn
/// redeems one leftover slot if it had not won already.
pub open spec fn leftover_unit(s: LaunchpadState) -> LaunchpadState {
    let g = guaranteed_op(s);
    let rng = leftover_rng(s);
    let p = leftover_pos(s) as u64;
    let m = s.last_ticket_id;
    let newly = !s.won.contains(id_at(s.overlay, drawn_pos(rng, p, m)));
    LaunchpadState {
        overlay: shuffled_overlay(s.overlay, rng, p, m),
        won: shuffled_won(s.overlay, s.won, rng, p, m),
        operation: OperationState::DistributeLeftoverTickets {
            rng: next_state(rng),
            op: GuaranteedSelectionState {
                leftover_tickets: if newly {
                    (g.leftover_tickets - 1) as u64
                } else {
                    g.leftover_tickets
                },
                total_additional_winning_tickets: if newly {
                    (g.total_additional_winning_tickets + 1) as u64
                } else {
                    g.total_additional_winning_tickets
                },
                leftover_ticket_pos_offset: (g.leftover_ticket_pos_offset + 1) as u64,
            },
        },
        ..s
    }
}

pub open spec fn leftover_loop(s: LaunchpadState, budget: nat) -> LaunchpadState
    decreases budget,
{
    if !(s.operation is DistributeLeftoverTickets) || leftover_done(s) || budget == 0 {
        s
    } else {
        leftover_loop(leftover_unit(s), (budget - 1) as nat)
    }
}

/// Entering the allocation: fresh counters unless some are saved.
pub open spec fn distribute_started(s: LaunchpadState) -> LaunchpadState {
    if s.operation is Idle {
        LaunchpadState {
            operation: OperationState::SelectGuaranteedTickets { op: guaranteed_op(s) },
            ..s
        }
    } else {
        s
    }
}

/// Once every listed address is served the leftover draw starts from the invocation's seed.
pub open spec fn distribute_phase2(s: LaunchpadState, seed: Seq<u8>) -> LaunchpadState {
    if s.operation is SelectGuaranteedTickets && s.guaranteed_users.len() == 0 {
        LaunchpadState {
            operation: OperationState::DistributeLeftoverTickets {
                rng: fresh_rng(seed),
                op: guaranteed_op(s),
            },
            ..s
        }
    } else {
        s
    }
}

pub open spec fn distribute_finished(s: LaunchpadState) -> LaunchpadState {
    if s.operation is DistributeLeftoverTickets && leftover_done(s) {
        LaunchpadState {
            flags: Flags { were_guaranteed_tickets_distributed: true, ..s.flags },
            operation: OperationState::Idle,
            ..s
        }
    } else {
        s
    }
}

/// The state after one invocation of the guaranteed-ticket allocation with `budget` units.
pub open spec fn distribute_result(s: LaunchpadState, seed: Seq<u8>, budget: nat) -> LaunchpadState {
    let (s1, b1) = guaranteed_loop(distribute_started(s), budget);
    distribute_finished(leftover_loop(distribute_phase2(s1, seed), b1))
}

/// A state in the middle of the allocation, its generator aside.
pub open spec fn allocating(s: LaunchpadState) -> bool {
    &&& s.core_wf()
    &&& s.flags.were_winners_selected
    &&& !s.flags.were_guaranteed_tickets_distributed
    &&& (s.operation is SelectGuaranteedTickets || s.operation is DistributeLeftoverTickets)
}

pub(crate) proof fn lemma_guaranteed_unit(s: LaunchpadState)
    requires
        allocating(s),
        s.operation is SelectGuaranteedTickets,
        s.guaranteed_users.len() > 0,
    ensures
        allocating(guaranteed_unit(s)),
        guaranteed_unit(s).flags == s.flags,
        guaranteed_fill(s).1 <= s.quotas[s.guaranteed_users.last()],
        guaranteed_op(s).leftover_tickets + guaranteed_fill(s).1 <= u64::MAX,
        guaranteed_op(s).total_additional_winning_tickets + (s.quotas[s.guaranteed_users.last()]
            - guaranteed_fill(s).1) <= u64::MAX,
{
    reveal(LaunchpadState::registry_wf);
    reveal(pool_ok);
    let t = guaranteed_unit(s);
    let u = s.guaranteed_users.last();
    let q = s.quotas[u];
    let m = s.last_ticket_id;
    let users = s.guaranteed_users;
    assert(s.quotas.contains_key(users[users.len() - 1]));
    if s.ranges.contains_key(u) {
        lemma_range_in_layout(s, u);
        let r = s.ranges[u];
        let w = won_in_range(s.won, r.first_id, r.last_id).len();
        let need: nat = if w < q {
            (q - w) as nat
        } else {
            0
        };
        lemma_fill(s.won, r.first_id, r.last_id, need);
    }
    assert(t.registry_wf());
    assert forall|i: int| 0 <= i < t.guaranteed_users.len() implies t.quotas.contains_key(
        #[trigger] t.guaranteed_users[i],
    ) by {
        assert(t.guaranteed_users[i] == users[i]);
    }
    assert(t.guaranteed_users.no_duplicates());
    lemma_won_bounded(s.overlay, s.won, m, (s.base_winners() + 1) as u64);
    lemma_won_bounded(t.overlay, t.won, m, (s.base_winners() + 1) as u64);
}

pub(crate) proof fn lemma_guaranteed_loop(s: LaunchpadState, budget: nat)
    requires
        allocating(s),
    ensures
        allocating(guaranteed_loop(s, budget).0),
        guaranteed_loop(s, budget).0.flags == s.flags,
        guaranteed_loop(s, budget).1 <= budget,
        guaranteed_loop(s, budget).1 > 0 && s.operation is SelectGuaranteedTickets
            ==> guaranteed_loop(s, budget).0.guaranteed_users.len() == 0,
        !(s.operation is SelectGuaranteedTickets) ==> guaranteed_loop(s, budget) == (s, budget),
        s.operation is SelectGuaranteedTickets
            ==> guaranteed_loop(s, budget).0.operation is SelectGuaranteedTickets,
        guaranteed_loop(s, budget).0.nr_winning_tickets == s.nr_winning_tickets,
    decreases budget,
{
    if !(!(s.operation is SelectGuaranteedTickets) || s.guaranteed_users.len() == 0
        || budget == 0) {
        lemma_guaranteed_unit(s);
        lemma_guaranteed_loop(guaranteed_unit(s), (budget - 1) as nat);
    }
}

pub(crate) proof fn lemma_leftover_unit(s: LaunchpadState)
    requires
        allocating(s),
        s.operation is DistributeLeftoverTickets,
        !leftover_done(s),
    ensures
        allocating(leftover_unit(s)),
        leftover_unit(s).flags == s.flags,
{
    reveal(LaunchpadState::registry_wf);
    let m = s.last_ticket_id;
    let p = leftover_pos(s) as u64;
    let rp = drawn_pos(leftover_rng(s), p, m);
    lemma_shuffle_pool(s.overlay, s.won, m, p, rp);
    lemma_won_bounded(s.overlay, s.won, m, p);
    let t = leftover_unit(s);
    assert(t.registry_wf());
}

pub(crate) proof fn lemma_leftover_loop(s: LaunchpadState, budget: nat)
    requires
        allocating(s),
    ensures
        allocating(leftover_loop(s, budget)),
        leftover_loop(s, budget).flags == s.flags,
        s.operation is DistributeLeftoverTickets
            ==> leftover_loop(s, budget).operation is DistributeLeftoverTickets,
        !(s.operation is DistributeLeftoverTickets) ==> leftover_loop(s, budget) == s,
        leftover_loop(s, budget).nr_winning_tickets == s.nr_winning_tickets,
    decreases budget,
{
    if !(!(s.operation is DistributeLeftoverTickets) || leftover_done(s) || budget == 0) {
        lemma_leftover_unit(s);
        lemma_leftover_loop(leftover_unit(s), (budget - 1) as nat);
    }
}

pub(crate) proof fn lemma_distribute_started(s: LaunchpadState)
    requires
        s.wf(),
        s.flags.were_winners_selected,
        !s.flags.were_guaranteed_tickets_distributed,
    ensures
        allocating(distribute_started(s)),
{
    reveal(LaunchpadState::registry_wf);
    let t = distribute_started(s);
    assert(t.registry_wf());
}

pub(crate) proof fn lemma_distribute_phase2(s: LaunchpadState, seed: Seq<u8>)
    requires
        allocating(s),
    ensures
        allocating(distribute_phase2(s, seed)),
        distribute_phase2(s, seed).flags == s.flags,
{
    reveal(LaunchpadState::registry_wf);
    let t = distribute_phase2(s, seed);
    assert(t.registry_wf());
}

/// When the leftover draw ends, the winners number exactly the configured count.
pub(crate) proof fn lemma_distribute_finished(s: LaunchpadState)
    requires
        allocating(s),
    ensures
        distribute_finished(s).core_wf(),
        rng_wf(leftover_rng(s)) ==> distribute_finished(s).wf(),
        distribute_finished(s).flags.were_guaranteed_tickets_distributed ==> distribute_finished(
            s,
        ).won.len() == s.nr_winning_tickets,
{
    reveal(LaunchpadState::registry_wf);
    let t = distribute_finished(s);
    assert(t.registry_wf());
    if s.operation is DistributeLeftoverTickets && leftover_done(s) {
        let m = s.last_ticket_id;
        let p = leftover_pos(s) as u64;
        lemma_won_bounded(s.overlay, s.won, m, p);
        reveal(pool_ok);
        if guaranteed_op(s).leftover_tickets != 0 {
            assert(p == m + 1);
        }
    }
}

impl Launchpad {
    /// How many tickets of `first..=last` won.
    fn count_winning_in_range(&self, first: u64, last: u64) -> (r: u64)
        requires
            1 <= first <= last < u64::MAX,
            self@.won.finite(),
        ensures
            r == won_in_range(self@.won, first, last).len(),
    {
        let ghost won = self@.won;
        let mut count: u64 = 0;
        let mut id = first;
        proof {
            assert(won_in_range(won, first, (id - 1) as u64) =~= Set::<u64>::empty());
        }
        while id <= last
            invariant
                1 <= first <= id <= last + 1,
                last < u64::MAX,
                won == self@.won,
                won.finite(),
                count == won_in_range(won, first, (id - 1) as u64).len(),
            decreases last + 1 - id,
        {
            let ghost before = won_in_range(won, first, (id - 1) as u64);
            proof {
                assert(won_in_range(won, first, id) =~= if won.contains(id) {
                    before.insert(id)
                } else {
                    before
                });
                lemma_id_range_len(first, (id - 1) as u64);
                if id > first {
                    assert(before.subset_of(id_range(first, (id - 1) as u64)));
                    vstd::set_lib::lemma_len_subset(before, id_range(first, (id - 1) as u64));
                } else {
                    assert(before =~= Set::<u64>::empty());
                }
            }
            if self.winning_tickets.contains(&id) {
                count = count + 1;
            }
            id = id + 1;
        }
        count
    }

    /// Marks up to `need` tickets of `first..=last` that have not won, in id order;
    /// returns how many of the `need` could not be marked.
    fn mark_guaranteed_tickets(&mut self, first: u64, last: u64, need: u64) -> (left: u64)
        requires
            last < u64::MAX,
        ensures
            (final(self)@.won, left as nat) == fill(old(self)@.won, first, last, need as nat),
            final(self)@ == (LaunchpadState { won: final(self)@.won, ..old(self)@ }),
    {
        let ghost s = self@;
        let mut id = first;
        let mut left = need;
        while id <= last && left > 0
            invariant
                last < u64::MAX,
                fill(self@.won, id, last, left as nat) == fill(s.won, first, last, need as nat),
                self@ == (LaunchpadState { won: self@.won, ..s }),
            decreases last + 1 - id,
        {
            if !self.winning_tickets.contains(&id) {
                self.winning_tickets.insert(id);
                left = left - 1;
            }
            id = id + 1;
        }
        left
    }

    /// Serves the last address of the guaranteed list.
    fn select_guaranteed_for_last_user(&mut self, op: &mut GuaranteedSelectionState)
        requires
            allocating(
                LaunchpadState {
                    operation: OperationState::SelectGuaranteedTickets { op: *old(op) },
                    ..old(self)@
                },
            ),
            old(self)@.guaranteed_users.len() > 0,
            old(self)@.operation is Idle,
        ensures
            (LaunchpadState {
                operation: OperationState::SelectGuaranteedTickets { op: *final(op) },
                ..final(self)@
            }) == guaranteed_unit(
                LaunchpadState {
                    operation: OperationState::SelectGuaranteedTickets { op: *old(op) },
                    ..old(self)@
                },
            ),
            final(self)@.operation is Idle,
    {
        let ghost cur = LaunchpadState {
            operation: OperationState::SelectGuaranteedTickets { op: *op },
            ..self@
        };
        proof {
            lemma_guaranteed_unit(cur);
            reveal(LaunchpadState::registry_wf);
            assert(self.users_with_guaranteed_ticket@.len() > 0);
            let users = cur.guaranteed_users;
            assert(cur.quotas.contains_key(users[users.len() - 1]));
        }
        let user = match self.users_with_guaranteed_ticket.pop() {
            Some(u) => u,
            None => 0,
        };
        let quota = match self.guaranteed_tickets.get(&user) {
            Some(q) => *q,
            None => 0,
        };
        let left = match self.ticket_range_for_address.get(&user) {
            Some(range) => {
                let first = range.first_id;
                let last = range.last_id;
                proof {
                    lemma_range_in_layout(cur, user);
                    reveal(pool_ok);
                }
                let already_won = self.count_winning_in_range(first, last);
                let need = if already_won < quota {
                    quota - already_won
                } else {
                    0
                };
                let unmet = self.mark_guaranteed_tickets(first, last, need);
                proof {
                    lemma_fill(cur.won, first, last, need as nat);
                }
                quota - (need - unmet)
            },
            None => quota,
        };
        op.leftover_tickets = op.leftover_tickets + left;
        op.total_additional_winning_tickets = op.total_additional_winning_tickets + (quota - left);
        assert((LaunchpadState {
            operation: OperationState::SelectGuaranteedTickets { op: *op },
            ..self@
        }) =~= guaranteed_unit(cur));
    }

    /// Overlays the guaranteed winners and redistributes the leftover slots, one address or
    /// one shuffle position per budget unit. The random `seed` is used only when the leftover
    /// draw starts; a resumed draw continues its saved generator.
    pub fn distribute_guaranteed_tickets(&mut self, seed: &Vec<u8>, budget: u64) -> (r: Result<
        OperationCompletionStatus,
        LaunchpadError,
    >)
        requires
            old(self).wf(),
        ensures
            final(self).wf(),
            !old(self)@.flags.were_winners_selected ==> r == Err::<
                OperationCompletionStatus,
                LaunchpadError,
            >(LaunchpadError::MustSelectWinnersFirst) && *final(self) == *old(self),
            old(self)@.flags.were_winners_selected
                && old(self)@.flags.were_guaranteed_tickets_distributed ==> r == Err::<
                OperationCompletionStatus,
                LaunchpadError,
            >(LaunchpadError::GuaranteedTicketsAlreadyDistributed) && *final(self) == *old(self),
            old(self)@.flags.were_winners_selected
                && !old(self)@.flags.were_guaranteed_tickets_distributed ==> {
                &&& final(self)@ == distribute_result(old(self)@, seed@, budget as nat)
                &&& r == Ok::<OperationCompletionStatus, LaunchpadError>(
                    if final(self)@.flags.were_guaranteed_tickets_distributed {
                        OperationCompletionStatus::Completed
                    } else {
                        OperationCompletionStatus::InterruptedBeforeOutOfGas
                    },
                )
                &&& final(self)@.flags.were_guaranteed_tickets_distributed ==> final(self)@.won.len()
                    == old(self)@.nr_winning_tickets
            },
    {
        if !self.flags.were_winners_selected {
            return Err(LaunchpadError::MustSelectWinnersFirst);
        }
        if self.flags.were_guaranteed_tickets_distributed {
            return Err(LaunchpadError::GuaranteedTicketsAlreadyDistributed);
        }
        let ghost s = self@;
        let mut op = GuaranteedSelectionState {
            leftover_tickets: 0,
            total_additional_winning_tickets: 0,
            leftover_ticket_pos_offset: 1,
        };
        let mut saved_rng: Option<Random> = None;
        match &self.current_operation {
            OngoingOperation::SelectGuaranteedTickets { op: saved } => {
                op = *saved;
            },
            OngoingOperation::DistributeLeftoverTickets { rng, op: saved } => {
                op = *saved;
                saved_rng = Some(rng.duplicate());
            },
            _ => {},
        }
        self.current_operation = OngoingOperation::Idle;
        proof {
            lemma_distribute_started(s);
        }
        let ghost s0 = distribute_started(s);
        let mut budget_left = budget;
        if saved_rng.is_none() {
            assert(s0 == (LaunchpadState {
                operation: OperationState::SelectGuaranteedTickets { op },
                ..self@
            }));
            while self.users_with_guaranteed_ticket.len() > 0 && budget_left > 0
                invariant
                    allocating(
                        LaunchpadState {
                            operation: OperationState::SelectGuaranteedTickets { op },
                            ..self@
                        },
                    ),
                    self@.operation is Idle,
                    self@.nr_winning_tickets == s.nr_winning_tickets,
                    guaranteed_loop(
                        LaunchpadState {
                            operation: OperationState::SelectGuaranteedTickets { op },
                            ..self@
                        },
                        budget_left as nat,
                    ) == guaranteed_loop(s0, budget as nat),
                decreases budget_left,
            {
                proof {
                    lemma_guaranteed_unit(
                        LaunchpadState {
                            operation: OperationState::SelectGuaranteedTickets { op },
                            ..self@
                        },
                    );
                }
                self.select_guaranteed_for_last_user(&mut op);
                budget_left = budget_left - 1;
            }
            if self.users_with_guaranteed_ticket.len() == 0 {
                saved_rng = Some(Random::from_seed(seed));
            }
        }
        let ghost s1 = guaranteed_loop(s0, budget as nat).0;
        proof {
            lemma_guaranteed_loop(s0, budget as nat);
            lemma_distribute_phase2(s1, seed@);
        }
        match saved_rng {
            Some(rng) => {
                let mut rng = rng;
                let ghost s2 = distribute_phase2(s1, seed@);
                assert(s2 == (LaunchpadState {
                    operation: OperationState::DistributeLeftoverTickets { rng: rng@, op },
                    ..self@
                }));
                let base = if self.total_guaranteed_tickets <= self.nr_winning_tickets {
                    self.nr_winning_tickets - self.total_guaranteed_tickets
                } else {
                    0
                };
                let last = self.last_ticket_id;
                while op.leftover_tickets > 0 && base + op.leftover_ticket_pos_offset <= last
                    && budget_left > 0
                    invariant
                        allocating(
                            LaunchpadState {
                                operation: OperationState::DistributeLeftoverTickets { rng: rng@, op },
                                ..self@
                            },
                        ),
                        rng.wf(),
                        self@.operation is Idle,
                        self@.nr_winning_tickets == s.nr_winning_tickets,
                        base == self@.base_winners(),
                        last == self@.last_ticket_id,
                        leftover_loop(
                            LaunchpadState {
                                operation: OperationState::DistributeLeftoverTickets { rng: rng@, op },
                                ..self@
                            },
                            budget_left as nat,
                        ) == leftover_loop(s2, guaranteed_loop(s0, budget as nat).1),
                    decreases budget_left,
                {
                    let ghost cur = LaunchpadState {
                        operation: OperationState::DistributeLeftoverTickets { rng: rng@, op },
                        ..self@
                    };
                    proof {
                        lemma_leftover_unit(cur);
                    }
                    let pos = base + op.leftover_ticket_pos_offset;
                    let newly_won = self.shuffle_single_ticket(&mut rng, pos, last);
                    if newly_won {
                        op.leftover_tickets = op.leftover_tickets - 1;
                        op.total_additional_winning_tickets = op.total_additional_winning_tickets + 1;
                    }
                    op.leftover_ticket_pos_offset = op.leftover_ticket_pos_offset + 1;
                    budget_left = budget_left - 1;
                    assert((LaunchpadState {
                        operation: OperationState::DistributeLeftoverTickets { rng: rng@, op },
                        ..self@
                    }) =~= leftover_unit(cur));
                }
                let ghost s3 = LaunchpadState {
                    operation: OperationState::DistributeLeftoverTickets { rng: rng@, op },
                    ..self@
                };
                proof {
                    lemma_distribute_finished(s3);
                }
                if op.leftover_tickets == 0 || base + op.leftover_ticket_pos_offset > last {
                    self.flags.were_guaranteed_tickets_distributed = true;
                    assert(self@ =~= distribute_result(s, seed@, budget as nat));
                    Ok(OperationCompletionStatus::Completed)
                } else {
                    self.current_operation = OngoingOperation::DistributeLeftoverTickets { rng, op };
                    assert(self@ =~= distribute_result(s, seed@, budget as nat));
                    Ok(OperationCompletionStatus::InterruptedBeforeOutOfGas)
                }
            },
            None => {
                self.current_operation = OngoingOperation::SelectGuaranteedTickets { op };
                assert(self@ =~= distribute_result(s, seed@, budget as nat));
                Ok(OperationCompletionStatus::InterruptedBeforeOutOfGas)
            },
        }
    }
}

} // verus!
