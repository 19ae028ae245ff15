use crate::layout::lemma_range_in_layout;
use crate::state::{Launchpad, LaunchpadState};
use crate::types::{Address, ClaimResult, LaunchpadError};
use vstd::prelude::*;

verus! {

broadcast use vstd::std_specs::hash::group_hash_axioms;

/// The ids `first..=last`.
pub open spec fn id_range(first: u64, last: u64) -> Set<u64> {
    Set::new(|t: u64| first <= t <= last)
}

/// The won tickets among `first..=last`.
pub open spec fn won_in_range(won: Set<u64>, first: u64, last: u64) -> Set<u64> {
    won.filter(|t: u64| first <= t <= last)
}

/// Why a claim by `a` is rejected, if it is.
pub open spec fn claim_error(s: LaunchpadState, a: Address) -> Option<LaunchpadError> {
    if !s.flags.were_guaranteed_tickets_distributed {
        Some(LaunchpadError::NotInClaimPeriod)
    } else if s.claimed.contains(a) {
        Some(LaunchpadError::AlreadyClaimed)
    } else if !s.ranges.contains_key(a) {
        Some(LaunchpadError::NoTickets)
    } else {
        None
    }
}

/// The state after `a` claimed: its winner flags, overlay entries, confirmation and range
/// are cleared, the winner count drops by its won tickets, and it is marked as claimed.
pub open spec fn claimed_state(s: LaunchpadState, a: Address) -> LaunchpadState {
    let r = s.ranges[a];
    let ids = id_range(r.first_id, r.last_id);
    LaunchpadState {
        won: s.won.difference(ids),
        overlay: s.overlay.remove_keys(ids),
        confirmed: s.confirmed.remove(a),
        ranges: s.ranges.remove(a),
        batches: s.batches.remove(r.first_id),
        nr_winning_tickets: (s.nr_winning_tickets - won_in_range(s.won, r.first_id, r.last_id).len()) as u64,
        claimed: s.claimed.insert(a),
        ..s
    }
}

proof fn lemma_claimed_wf(s: LaunchpadState, a: Address)
    requires
        s.wf(),
        claim_error(s, a) is None,
    ensures
        claimed_state(s, a).wf(),
        won_in_range(s.won, s.ranges[a].first_id, s.ranges[a].last_id).len() <= s.confirmed_of(a),
        won_in_range(s.won, s.ranges[a].first_id, s.ranges[a].last_id).len() <= s.nr_winning_tickets,
{
    reveal(LaunchpadState::registry_wf);
    let r = s.ranges[a];
    let ids = id_range(r.first_id, r.last_id);
    let w = won_in_range(s.won, r.first_id, r.last_id);
    let t = claimed_state(s, a);
    lemma_range_in_layout(s, a);
    let all = s.all_batches();
    let i = choose|i: int| 0 <= i < all.len() && all[i].address == a;
    assert(all =~= s.kept);
    assert(s.confirmed_of(a) == s.kept[i].nr_tickets);
    crate::layout::lemma_offset_bound(s.kept, i);
    lemma_id_range_len(r.first_id, r.last_id);
    assert(w.subset_of(ids));
    vstd::set_lib::lemma_len_subset(w, ids);
    assert(w.subset_of(s.won));
    vstd::set_lib::lemma_len_subset(w, s.won);
    assert(s.won.difference(ids) =~= s.won.difference(w));
    assert(s.won.difference(w).len() == s.won.len() - w.len()) by {
        vstd::set_lib::lemma_set_difference_len(s.won, w);
        assert(s.won.intersect(w) =~= w);
    }
    assert(t.registry_wf());
    assert(t.won.len() == t.nr_winning_tickets);
    assert(t.stage_wf());
}

pub proof fn lemma_id_range_len(first: u64, last: u64)
    requires
        1 <= first <= last + 1,
    ensures
        id_range(first, last).finite(),
        id_range(first, last).len() == last - first + 1,
    decreases last - first,
{
    if first == last + 1 {
        assert(id_range(first, last) =~= Set::<u64>::empty());
    } else if first == last {
        assert(id_range(first, last) =~= Set::<u64>::empty().insert(first));
    } else {
        lemma_id_range_len(first, (last - 1) as u64);
        assert(id_range(first, last) =~= id_range(first, (last - 1) as u64).insert(last));
    }
}

impl Launchpad {
    /// Settles `caller`'s tickets once selection is complete: its won tickets are redeemed
    /// for launchpad tokens and its other confirmed tickets are refunded.
    pub fn claim_launchpad_tokens(&mut self, caller: Address) -> (r: Result<ClaimResult, LaunchpadError>)
        requires
            old(self).wf(),
        ensures
            final(self).wf(),
            match claim_error(old(self)@, caller) {
                Some(e) => r == Err::<ClaimResult, LaunchpadError>(e) && *final(self) == *old(self),
                None => {
                    let range = old(self)@.ranges[caller];
                    let won = won_in_range(old(self)@.won, range.first_id, range.last_id).len();
                    &&& final(self)@ == claimed_state(old(self)@, caller)
                    &&& r == Ok::<ClaimResult, LaunchpadError>(
                        ClaimResult {
                            nr_redeemable_tickets: won as u64,
                            nr_tickets_to_refund: (old(self)@.confirmed_of(caller) - won) as u64,
                        },
                    )
                },
            },
    {
        if !self.flags.were_guaranteed_tickets_distributed {
            return Err(LaunchpadError::NotInClaimPeriod);
        }
        if self.claim_list.contains(&caller) {
            return Err(LaunchpadError::AlreadyClaimed);
        }
        let range = match self.ticket_range_for_address.get(&caller) {
            Some(r) => *r,
            None => {
                return Err(LaunchpadError::NoTickets);
            },
        };
        let ghost s = self@;
        proof {
            lemma_claimed_wf(s, caller);
            lemma_range_in_layout(s, caller);
        }
        let nr_confirmed = match self.nr_confirmed_tickets.get(&caller) {
            Some(c) => *c,
            None => 0,
        };
        let first = range.first_id;
        let last = range.last_id;
        let mut nr_redeemable: u64 = 0;
        let mut id = first;
        proof {
            assert(won_in_range(s.won, first, (id - 1) as u64) =~= Set::<u64>::empty());
            assert(id_range(first, (id - 1) as u64) =~= Set::<u64>::empty());
            assert(s.won.difference(Set::<u64>::empty()) =~= s.won);
            assert(s.overlay.remove_keys(Set::<u64>::empty()) =~= s.overlay);
            assert(self@ =~= (LaunchpadState {
                won: s.won.difference(id_range(first, (id - 1) as u64)),
                overlay: s.overlay.remove_keys(id_range(first, (id - 1) as u64)),
                ..s
            }));
        }
        while id <= last
            invariant
                1 <= first <= id <= last + 1,
                last < u64::MAX,
                s.won.finite(),
                self@ == (LaunchpadState {
                    won: s.won.difference(id_range(first, (id - 1) as u64)),
                    overlay: s.overlay.remove_keys(id_range(first, (id - 1) as u64)),
                    ..s
                }),
                nr_redeemable == won_in_range(s.won, first, (id - 1) as u64).len(),
                won_in_range(s.won, first, (id - 1) as u64).finite(),
            decreases last + 1 - id,
        {
            let ghost before = won_in_range(s.won, first, (id - 1) as u64);
            proof {
                assert(won_in_range(s.won, first, id) =~= if s.won.contains(id) {
                    before.insert(id)
                } else {
                    before
                });
                vstd::set_lib::lemma_len_subset(before, won_in_range(s.won, first, last));
                lemma_id_range_len(first, last);
                vstd::set_lib::lemma_len_subset(won_in_range(s.won, first, last), id_range(first, last));
            }
            let was_winning = self.winning_tickets.remove(&id);
            if was_winning {
                nr_redeemable = nr_redeemable + 1;
            }
            self.ticket_pos_to_id.remove(&id);
            proof {
                assert(self@.won =~= s.won.difference(id_range(first, id)));
                assert(self@.overlay =~= s.overlay.remove_keys(id_range(first, id)));
            }
            id = id + 1;
        }
        self.nr_confirmed_tickets.remove(&caller);
        self.ticket_range_for_address.remove(&caller);
        self.ticket_batch.remove(&first);
        self.nr_winning_tickets = self.nr_winning_tickets - nr_redeemable;
        self.claim_list.insert(caller);
        assert(self@ =~= claimed_state(s, caller));
        Ok(ClaimResult {
            nr_redeemable_tickets: nr_redeemable,
            nr_tickets_to_refund: nr_confirmed - nr_redeemable,
        })
    }
}

} // verus!
