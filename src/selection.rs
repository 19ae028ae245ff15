use crate::random::{next_in_range, next_state, sha256_of, Random, RngState};
use crate::state::{id_at, ids_upto, pool_free, pool_ok, rng_wf, Launchpad, LaunchpadState};
use crate::types::{LaunchpadError, OngoingOperation, OperationCompletionStatus, OperationState, Flags};
use vstd::prelude::*;

verus! {

broadcast use vstd::std_specs::hash::group_hash_axioms;

/// The position drawn for shuffle position `pos` among `pos..=m`.
pub open spec fn drawn_pos(rng: RngState, pos: u64, m: u64) -> u64 {
    next_in_range(rng, pos as nat, (m + 1) as nat) as u64
}

/// One Fisher-Yates step at `pos`: the id at the drawn position wins, and the id at
/// `pos` moves into the drawn position.
pub open spec fn shuffled_overlay(overlay: Map<u64, u64>, rng: RngState, pos: u64, m: u64) -> Map<
    u64,
    u64,
> {
    overlay.insert(drawn_pos(rng, pos, m), id_at(overlay, pos))
}

pub open spec fn shuffled_won(
    overlay: Map<u64, u64>,
    won: Set<u64>,
    rng: RngState,
    pos: u64,
    m: u64,
) -> Set<u64> {
    won.insert(id_at(overlay, drawn_pos(rng, pos, m)))
}

/// One step keeps the pool shape, one position further on.
pub proof fn lemma_shuffle_pool(overlay: Map<u64, u64>, won: Set<u64>, m: u64, pos: u64, rp: u64)
    requires
        pool_ok(overlay, won, m, pos),
        pos <= rp <= m,
        m < u64::MAX,
    ensures
        pool_ok(
            overlay.insert(rp, id_at(overlay, pos)),
            won.insert(id_at(overlay, rp)),
            m,
            (pos + 1) as u64,
        ),
        pool_free(overlay, won, m, pos) ==> pool_free(
            overlay.insert(rp, id_at(overlay, pos)),
            won.insert(id_at(overlay, rp)),
            m,
            (pos + 1) as u64,
        ) && !won.contains(id_at(overlay, rp)),
        won.insert(id_at(overlay, rp)).len() == won.len() + if won.contains(id_at(overlay, rp)) {
            0int
        } else {
            1int
        },
{
    reveal(pool_ok);
    reveal(pool_free);
    let a = id_at(overlay, pos);
    let t = id_at(overlay, rp);
    let ov2 = overlay.insert(rp, a);
    let won2 = won.insert(t);
    assert forall|q: u64| pos + 1 <= q <= m implies #[trigger] id_at(ov2, q) == if q == rp {
        a
    } else {
        id_at(overlay, q)
    } by {}
    assert forall|q1: u64, q2: u64|
        pos + 1 <= q1 <= m && pos + 1 <= q2 <= m && q1 != q2 implies #[trigger] id_at(ov2, q1)
        != #[trigger] id_at(ov2, q2) by {
        assert(id_at(ov2, q1) == if q1 == rp {
            a
        } else {
            id_at(overlay, q1)
        });
        assert(id_at(ov2, q2) == if q2 == rp {
            a
        } else {
            id_at(overlay, q2)
        });
    }
    assert forall|u: u64| 1 <= u <= m && !#[trigger] won2.contains(u) implies exists|q: u64|
        pos + 1 <= q <= m && #[trigger] id_at(ov2, q) == u by {
        let q = choose|q: u64| pos <= q <= m && #[trigger] id_at(overlay, q) == u;
        if q == pos {
            assert(rp != pos);
            assert(id_at(ov2, rp) == u);
        } else {
            assert(q != rp);
            assert(id_at(ov2, q) == u);
        }
    }
    assert forall|q: u64| pos + 1 <= q <= m implies 1 <= #[trigger] id_at(ov2, q) <= m by {
        assert(id_at(ov2, q) == if q == rp {
            a
        } else {
            id_at(overlay, q)
        });
    }
    assert(1 <= t <= m);
    assert(won2.finite());
    assert forall|x: u64| #[trigger] won2.contains(x) implies 1 <= x <= m by {
        if x != t {
            assert(won.contains(x));
        }
    }
    assert(pool_ok(ov2, won2, m, (pos + 1) as u64));
    if pool_free(overlay, won, m, pos) {
        assert(!won.contains(t));
        assert forall|q: u64| pos + 1 <= q <= m implies !won2.contains(
            #[trigger] id_at(ov2, q),
        ) by {
            assert(id_at(ov2, q) == if q == rp {
                a
            } else {
                id_at(overlay, q)
            });
            if q == rp {
                assert(rp != pos);
                assert(a != t);
            } else {
                assert(id_at(overlay, q) != t);
            }
        }
        assert(pool_free(ov2, won2, m, (pos + 1) as u64));
    }
}

/// The ids `1..=m` are `m` of them.
pub proof fn lemma_ids_upto_len(m: u64)
    ensures
        ids_upto(m).finite(),
        ids_upto(m).len() == m,
    decreases m,
{
    if m == 0 {
        assert(ids_upto(m) =~= Set::<u64>::empty());
    } else {
        lemma_ids_upto_len((m - 1) as u64);
        assert(ids_upto(m) =~= ids_upto((m - 1) as u64).insert(m));
    }
}

/// A pool never holds more winners than ids.
pub proof fn lemma_won_bounded(overlay: Map<u64, u64>, won: Set<u64>, m: u64, pos: u64)
    requires
        pool_ok(overlay, won, m, pos),
    ensures
        won.len() <= m,
        pos == m + 1 ==> won.len() == m,
{
    reveal(pool_ok);
    lemma_ids_upto_len(m);
    assert(won.subset_of(ids_upto(m)));
    vstd::set_lib::lemma_len_subset(won, ids_upto(m));
    if pos == m + 1 {
        assert(won =~= ids_upto(m));
    }
}

/// The generator a selection starts from, or resumes with.
pub open spec fn fresh_rng(seed: Seq<u8>) -> RngState {
    RngState { seed: sha256_of(seed), index: 0 }
}

pub open spec fn select_cursor(s: LaunchpadState, seed: Seq<u8>) -> (RngState, u64) {
    match s.operation {
        OperationState::SelectWinners { rng, ticket_position } => (rng, ticket_position),
        _ => (fresh_rng(seed), 1),
    }
}

/// One unit of the base draw: shuffle the position at the cursor.
pub open spec fn select_unit(s: LaunchpadState) -> LaunchpadState {
    let (rng, p) = select_cursor(s, Seq::empty());
    let m = s.last_ticket_id;
    LaunchpadState {
        overlay: shuffled_overlay(s.overlay, rng, p, m),
        won: shuffled_won(s.overlay, s.won, rng, p, m),
        operation: OperationState::SelectWinners {
            rng: next_state(rng),
            ticket_position: (p + 1) as u64,
        },
        ..s
    }
}

pub open spec fn select_done(s: LaunchpadState) -> bool {
    select_cursor(s, Seq::empty()).1 > s.base_winners()
}

pub open spec fn select_loop(s: LaunchpadState, budget: nat) -> LaunchpadState
    decreases budget,
{
    if select_done(s) || budget == 0 {
        s
    } else {
        select_loop(select_unit(s), (budget - 1) as nat)
    }
}

pub open spec fn select_started(s: LaunchpadState, seed: Seq<u8>) -> LaunchpadState {
    let (rng, p) = select_cursor(s, seed);
    LaunchpadState {
        operation: OperationState::SelectWinners { rng, ticket_position: p },
        ..s
    }
}

pub open spec fn select_finished(s: LaunchpadState) -> LaunchpadState {
    if select_done(s) {
        LaunchpadState {
            flags: Flags { were_winners_selected: true, ..s.flags },
            operation: OperationState::Idle,
            ..s
        }
    } else {
        s
    }
}

/// The state after one invocation of the base draw with `budget` units.
pub open spec fn select_result(s: LaunchpadState, seed: Seq<u8>, budget: nat) -> LaunchpadState {
    select_finished(select_loop(select_started(s, seed), budget))
}

/// A state in the middle of the base draw.
pub open spec fn selecting(s: LaunchpadState) -> bool {
    &&& s.registry_wf()
    &&& s.last_ticket_id < u64::MAX
    &&& s.flags.were_tickets_filtered
    &&& !s.flags.were_winners_selected
    &&& s.flags.has_winner_selection_process_started
    &&& !s.flags.were_guaranteed_tickets_distributed
    &&& s.pending.len() == 0
    &&& crate::state::total(s.kept) == s.last_ticket_id
    &&& s.nr_winning_tickets <= s.last_ticket_id
    &&& (s.total_guaranteed <= s.nr_winning_tickets || s.nr_winning_tickets == s.last_ticket_id)
    &&& s.won.finite()
    &&& s.claimed.is_empty()
    &&& s.quotas_wf()
    &&& match s.operation {
        OperationState::SelectWinners { rng, ticket_position } => {
            &&& 1 <= ticket_position <= s.base_winners() + 1
            &&& s.base_draw_wf(ticket_position)
        },
        _ => false,
    }
}

pub(crate) proof fn lemma_select_unit(s: LaunchpadState)
    requires
        selecting(s),
        !select_done(s),
    ensures
        selecting(select_unit(s)),
        select_unit(s).flags == s.flags,
        select_unit(s).nr_winning_tickets == s.nr_winning_tickets,
        select_unit(s).total_guaranteed == s.total_guaranteed,
        select_unit(s).last_ticket_id == s.last_ticket_id,
{
    reveal(LaunchpadState::registry_wf);
    let (rng, p) = select_cursor(s, Seq::empty());
    let m = s.last_ticket_id;
    let rp = drawn_pos(rng, p, m);
    lemma_shuffle_pool(s.overlay, s.won, m, p, rp);
}

pub(crate) proof fn lemma_select_loop(s: LaunchpadState, budget: nat)
    requires
        selecting(s),
    ensures
        selecting(select_loop(s, budget)),
        select_loop(s, budget).flags == s.flags,
        select_loop(s, budget).nr_winning_tickets == s.nr_winning_tickets,
        select_loop(s, budget).total_guaranteed == s.total_guaranteed,
        select_loop(s, budget).last_ticket_id == s.last_ticket_id,
    decreases budget,
{
    if !(select_done(s) || budget == 0) {
        lemma_select_unit(s);
        lemma_select_loop(select_unit(s), (budget - 1) as nat);
    }
}

pub(crate) proof fn lemma_select_started(s: LaunchpadState, seed: Seq<u8>)
    requires
        s.wf(),
        s.flags.were_tickets_filtered,
        !s.flags.were_winners_selected,
    ensures
        selecting(select_started(s, seed)),
{
    reveal(LaunchpadState::registry_wf);
    let t = select_started(s, seed);
    if s.operation == OperationState::Idle {
        reveal(pool_ok);
        reveal(pool_free);
        assert forall|u: u64| 1 <= u <= s.last_ticket_id && !#[trigger] t.won.contains(u) implies exists|
            q: u64,
        | 1 <= q <= s.last_ticket_id && #[trigger] id_at(t.overlay, q) == u by {
            assert(id_at(t.overlay, u) == u);
        }
        assert(t.won.len() == 0);
    }
    assert(t.registry_wf() == s.registry_wf());
}

pub(crate) proof fn lemma_select_finish(s: LaunchpadState)
    requires
        selecting(s),
        rng_wf(select_cursor(s, Seq::empty()).0),
    ensures
        select_finished(s).wf(),
        select_done(s) ==> select_finished(s).won.len() == s.base_winners(),
{
    reveal(LaunchpadState::registry_wf);
    let t = select_finished(s);
    if select_done(s) {
        let b = s.base_winners();
        assert(select_cursor(s, Seq::empty()).1 == b + 1);
        assert(t.pool_wf((b + 1) as u64));
    }
}

impl Launchpad {
    /// The ticket id currently at a shuffle position.
    pub fn get_ticket_id_from_pos(&self, ticket_pos: u64) -> (r: u64)
        ensures
            r == id_at(self@.overlay, ticket_pos),
    {
        match self.ticket_pos_to_id.get(&ticket_pos) {
            Some(id) => *id,
            None => ticket_pos,
        }
    }

    /// Fisher-Yates step: position `pos` is swapped with a random one in `pos..=last`, and the
    /// ticket drawn wins. Returns whether that ticket had not won before.
    pub(crate) fn shuffle_single_ticket(&mut self, rng: &mut Random, pos: u64, last_ticket_position: u64) -> (r: bool)
        requires
            old(rng).wf(),
            pos <= last_ticket_position < u64::MAX,
        ensures
            final(rng).wf(),
            final(rng)@ == next_state(old(rng)@),
            final(self)@ == (LaunchpadState {
                overlay: shuffled_overlay(old(self)@.overlay, old(rng)@, pos, last_ticket_position),
                won: shuffled_won(old(self)@.overlay, old(self)@.won, old(rng)@, pos, last_ticket_position),
                ..old(self)@
            }),
            r == !old(self)@.won.contains(
                id_at(old(self)@.overlay, drawn_pos(old(rng)@, pos, last_ticket_position)),
            ),
    {
        let ghost s = self@;
        let rand_pos = rng.next_usize_in_range(pos, last_ticket_position + 1);
        let winning_ticket_id = self.get_ticket_id_from_pos(rand_pos);
        let newly_won = self.winning_tickets.insert(winning_ticket_id);
        let current_ticket_id = self.get_ticket_id_from_pos(pos);
        self.ticket_pos_to_id.insert(rand_pos, current_ticket_id);
        assert(self@ =~= (LaunchpadState {
            overlay: shuffled_overlay(s.overlay, old(rng)@, pos, last_ticket_position),
            won: shuffled_won(s.overlay, s.won, old(rng)@, pos, last_ticket_position),
            ..s
        }));
        newly_won
    }

    /// Draws the base random winners, one shuffle position per budget unit. The random
    /// `seed` is used only when the draw starts; a resumed draw continues its saved generator.
    pub fn select_winners(&mut self, seed: &Vec<u8>, budget: u64) -> (r: Result<
        OperationCompletionStatus,
        LaunchpadError,
    >)
        requires
            old(self).wf(),
        ensures
            final(self).wf(),
            !old(self)@.flags.were_tickets_filtered ==> r == Err::<
                OperationCompletionStatus,
                LaunchpadError,
            >(LaunchpadError::MustFilterTicketsFirst) && *final(self) == *old(self),
            old(self)@.flags.were_tickets_filtered && old(self)@.flags.were_winners_selected ==> r
                == Err::<OperationCompletionStatus, LaunchpadError>(
                LaunchpadError::WinnersAlreadySelected,
            ) && *final(self) == *old(self),
            old(self)@.flags.were_tickets_filtered && !old(self)@.flags.were_winners_selected ==> {
                &&& final(self)@ == select_result(old(self)@, seed@, budget as nat)
                &&& r == Ok::<OperationCompletionStatus, LaunchpadError>(
                    if final(self)@.flags.were_winners_selected {
                        OperationCompletionStatus::Completed
                    } else {
                        OperationCompletionStatus::InterruptedBeforeOutOfGas
                    },
                )
                &&& final(self)@.flags.were_winners_selected ==> final(self)@.won.len()
                    == old(self)@.base_winners()
            },
    {
        if !self.flags.were_tickets_filtered {
            return Err(LaunchpadError::MustFilterTicketsFirst);
        }
        if self.flags.were_winners_selected {
            return Err(LaunchpadError::WinnersAlreadySelected);
        }
        let ghost s = self@;
        let (mut rng, mut pos) = match &self.current_operation {
            OngoingOperation::SelectWinners { rng, ticket_position } => (
                rng.duplicate(),
                *ticket_position,
            ),
            _ => (Random::from_seed(seed), 1),
        };
        self.current_operation = OngoingOperation::Idle;
        proof {
            lemma_select_started(s, seed@);
        }
        let ghost s0 = select_started(s, seed@);
        let nr_winning = if self.total_guaranteed_tickets <= self.nr_winning_tickets {
            self.nr_winning_tickets - self.total_guaranteed_tickets
        } else {
            0
        };
        let last = self.last_ticket_id;
        let mut budget_left = budget;
        while pos <= nr_winning && budget_left > 0
            invariant
                selecting(LaunchpadState {
                    operation: OperationState::SelectWinners { rng: rng@, ticket_position: pos },
                    ..self@
                }),
                rng.wf(),
                self@.operation == OperationState::Idle,
                nr_winning == self@.base_winners(),
                last == self@.last_ticket_id,
                select_loop(
                    LaunchpadState {
                        operation: OperationState::SelectWinners { rng: rng@, ticket_position: pos },
                        ..self@
                    },
                    budget_left as nat,
                ) == select_loop(s0, budget as nat),
            decreases budget_left,
        {
            let ghost cur = LaunchpadState {
                operation: OperationState::SelectWinners { rng: rng@, ticket_position: pos },
                ..self@
            };
            proof {
                lemma_select_unit(cur);
            }
            self.shuffle_single_ticket(&mut rng, pos, last);
            pos = pos + 1;
            budget_left = budget_left - 1;
            assert((LaunchpadState {
                operation: OperationState::SelectWinners { rng: rng@, ticket_position: pos },
                ..self@
            }) =~= select_unit(cur));
        }
        proof {
            lemma_select_finish(LaunchpadState {
                operation: OperationState::SelectWinners { rng: rng@, ticket_position: pos },
                ..self@
            });
        }
        if pos > nr_winning {
            self.flags.were_winners_selected = true;
            assert(self@ =~= select_result(s, seed@, budget as nat));
            Ok(OperationCompletionStatus::Completed)
        } else {
            self.current_operation = OngoingOperation::SelectWinners { rng, ticket_position: pos };
            assert(self@ =~= select_result(s, seed@, budget as nat));
            Ok(OperationCompletionStatus::InterruptedBeforeOutOfGas)
        }
    }
}

} // verus!
