use crate::filtering::{
    filter_done, filter_loop, filter_result, filter_started, filter_unit,
    filtering, lemma_filter_loop_wf, lemma_filter_started_wf, lemma_filter_unit_facts,
    lemma_filter_unit_wf,
};
use crate::guaranteed::{
    distribute_phase2, distribute_result, distribute_started,
    guaranteed_loop, guaranteed_unit, leftover_done, leftover_loop, leftover_unit,
    lemma_distribute_finished, lemma_distribute_phase2, lemma_distribute_started,
    lemma_guaranteed_loop, lemma_leftover_loop,
};
use crate::layout::{lemma_offset_bound, lemma_offset_mono, lemma_offset_zero, lemma_total_push};
use crate::selection::{
    lemma_select_loop, lemma_select_started, select_cursor, select_done, select_loop,
    select_result, select_started, select_unit, };
use crate::state::{total, LaunchpadState};
use crate::types::{Address, TicketBatch};
use vstd::prelude::*;

verus! {

/// The confirmed count recorded for `a`, zero when none is.
pub open spec fn confirmed_in(c: Map<Address, u64>, a: Address) -> nat {
    if c.contains_key(a) {
        c[a] as nat
    } else {
        0
    }
}

/// Sum of the confirmed counts of the owners of the batches.
pub open spec fn confirmed_sum(c: Map<Address, u64>, bs: Seq<TicketBatch>) -> nat
    decreases bs.len(),
{
    if bs.len() == 0 {
        0
    } else {
        confirmed_sum(c, bs.drop_last()) + confirmed_in(c, bs.last().address)
    }
}

proof fn lemma_confirmed_sum_drop_first(c: Map<Address, u64>, bs: Seq<TicketBatch>)
    requires
        bs.len() > 0,
    ensures
        confirmed_sum(c, bs) == confirmed_in(c, bs[0].address) + confirmed_sum(c, bs.drop_first()),
    decreases bs.len(),
{
    if bs.len() > 1 {
        lemma_confirmed_sum_drop_first(c, bs.drop_last());
        assert(bs.drop_last().drop_first() =~= bs.drop_first().drop_last());
        assert(bs.drop_first().last() == bs.last());
        assert(bs.drop_last()[0] == bs[0]);
        assert(confirmed_sum(c, bs.drop_first()) == confirmed_sum(c, bs.drop_first().drop_last())
            + confirmed_in(c, bs.drop_first().last().address));
    } else {
        assert(bs.drop_first().len() == 0);
        assert(bs.drop_last().len() == 0);
        assert(confirmed_sum(c, bs.drop_first()) == 0);
        assert(confirmed_sum(c, bs.drop_last()) == 0);
        assert(bs.last() == bs[0]);
    }
}

proof fn lemma_filter_loop_counts(s: LaunchpadState, budget: nat)
    requires
        filtering(s),
    ensures
        total(filter_loop(s, budget).kept) + confirmed_sum(s.confirmed, filter_loop(s, budget).pending)
            == total(s.kept) + confirmed_sum(s.confirmed, s.pending),
        filter_loop(s, budget).confirmed == s.confirmed,
        filter_loop(s, budget).nr_winning_tickets == s.nr_winning_tickets,
    decreases budget,
{
    if !(filter_done(s) || budget == 0) {
        let t = filter_unit(s);
        lemma_filter_unit_facts(s);
        lemma_filter_unit_wf(s);
        lemma_confirmed_sum_drop_first(s.confirmed, s.pending);
        let b = s.pending[0];
        if !(s.blacklist.contains(b.address) || s.confirmed_of(b.address) == 0) {
            let kb = if filter_cursor_removed(s) > 0 || s.confirmed_of(b.address) < b.nr_tickets {
                TicketBatch { address: b.address, nr_tickets: s.confirmed_of(b.address) }
            } else {
                b
            };
            lemma_total_push(s.kept, kb);
        }
        lemma_filter_loop_counts(t, (budget - 1) as nat);
    }
}

spec fn filter_cursor_removed(s: LaunchpadState) -> u64 {
    crate::filtering::filter_cursor(s).1
}

proof fn lemma_ranges_disjoint(t: LaunchpadState, a: Address, b: Address)
    requires
        t.registry_wf(),
        t.pending.len() == 0,
        a != b,
        t.ranges.contains_key(a),
        t.ranges.contains_key(b),
    ensures
        t.ranges[a].last_id < t.ranges[b].first_id || t.ranges[b].last_id < t.ranges[a].first_id,
        t.ranges[a].last_id - t.ranges[a].first_id + 1 == t.confirmed_of(a),
{
    reveal(LaunchpadState::registry_wf);
    let k = t.kept;
    assert(t.all_batches() =~= k);
    let i = choose|i: int| 0 <= i < k.len() && t.all_batches()[i].address == a;
    let j = choose|j: int| 0 <= j < k.len() && t.all_batches()[j].address == b;
    assert(k[i].address == a && k[j].address == b);
    assert(k[i].nr_tickets >= 1 && k[j].nr_tickets >= 1) by {
        assert(t.all_batches()[i] == k[i]);
        assert(t.all_batches()[j] == k[j]);
    }
    lemma_offset_bound(k, i);
    lemma_offset_bound(k, j);
    if i < j {
        lemma_offset_mono(k, i, j);
    } else {
        lemma_offset_mono(k, j, i);
    }
}

/// Filtering a registry to completion from the close of enrollment leaves exactly as many
/// tickets as were confirmed in all, clamps the winner count to them, gives every remaining
/// address a range exactly as long as its confirmed count, and leaves no two ranges
/// overlapping.
pub proof fn filtering_keeps_confirmed_tickets(s: LaunchpadState, budget: nat)
    requires
        s.wf(),
        !s.flags.has_winner_selection_process_started,
        filter_result(s, budget).flags.were_tickets_filtered,
    ensures
        filter_result(s, budget).last_ticket_id == confirmed_sum(s.confirmed, s.pending),
        filter_result(s, budget).nr_winning_tickets == if s.nr_winning_tickets > filter_result(
            s,
            budget,
        ).last_ticket_id {
            filter_result(s, budget).last_ticket_id
        } else {
            s.nr_winning_tickets
        },
        forall|a: Address| #[trigger]
            filter_result(s, budget).ranges.contains_key(a) ==> filter_result(s, budget).ranges[a].last_id
                - filter_result(s, budget).ranges[a].first_id + 1 == filter_result(
                s,
                budget,
            ).confirmed_of(a),
        forall|a: Address, b: Address|
            a != b && #[trigger] filter_result(s, budget).ranges.contains_key(a)
                && #[trigger] filter_result(s, budget).ranges.contains_key(b) ==> filter_result(
                s,
                budget,
            ).ranges[a].last_id < filter_result(s, budget).ranges[b].first_id || filter_result(
                s,
                budget,
            ).ranges[b].last_id < filter_result(s, budget).ranges[a].first_id,
{
    let s0 = filter_started(s);
    lemma_filter_started_wf(s);
    lemma_filter_loop_wf(s0, budget);
    lemma_filter_loop_counts(s0, budget);
    crate::filtering::lemma_filter_result_wf(s, budget);
    lemma_offset_zero(s.pending);
    assert(s.kept =~= Seq::<TicketBatch>::empty());
    let t = filter_result(s, budget);
    let l = filter_loop(s0, budget);
    assert(filter_done(l));
    assert(l.pending.len() == 0) by {
        reveal(LaunchpadState::registry_wf);
        assert forall|i: int| 0 <= i < l.pending.len() implies #[trigger] l.pending[i].nr_tickets
            >= 1 by {
            assert(l.all_batches()[l.kept.len() + i] == l.pending[i]);
        }
        crate::filtering::lemma_total_ge_len(l.pending);
    }
    assert(confirmed_sum(s.confirmed, l.pending) == 0);
    assert forall|a: Address| #[trigger] t.ranges.contains_key(a) implies t.ranges[a].last_id
        - t.ranges[a].first_id + 1 == t.confirmed_of(a) by {
        reveal(LaunchpadState::registry_wf);
        let i = choose|i: int| 0 <= i < t.all_batches().len() && t.all_batches()[i].address == a;
        assert(t.all_batches() =~= t.kept);
        lemma_offset_bound(t.kept, i);
        assert(t.kept[i].nr_tickets >= 1) by {
            assert(t.all_batches()[i] == t.kept[i]);
        }
    }
    assert forall|a: Address, b: Address|
        a != b && #[trigger] t.ranges.contains_key(a) && #[trigger] t.ranges.contains_key(
            b,
        ) implies t.ranges[a].last_id < t.ranges[b].first_id || t.ranges[b].last_id
        < t.ranges[a].first_id by {
        lemma_ranges_disjoint(t, a, b);
    }
}

proof fn lemma_filter_loop_compose(s: LaunchpadState, a: nat, b: nat)
    requires
        !filter_done(filter_loop(s, a)),
    ensures
        filter_loop(filter_loop(s, a), b) == filter_loop(s, a + b),
    decreases a,
{
    if a > 0 && !filter_done(s) {
        lemma_filter_loop_compose(filter_unit(s), (a - 1) as nat, b);
        assert((a - 1) as nat + b == (a + b - 1) as nat);
    }
}

/// Filtering interrupted after `a` units and resumed with `b` more ends where one run with
/// `a + b` units ends.
pub proof fn filtering_resumes(s: LaunchpadState, a: nat, b: nat)
    requires
        s.wf(),
        !s.flags.were_tickets_filtered,
        !filter_result(s, a).flags.were_tickets_filtered,
    ensures
        filter_result(filter_result(s, a), b) == filter_result(s, a + b),
{
    let s0 = filter_started(s);
    lemma_filter_started_wf(s);
    lemma_filter_loop_wf(s0, a);
    let l = filter_loop(s0, a);
    assert(!filter_done(l));
    assert(filter_result(s, a) == l);
    assert(filter_started(l) =~= l);
    lemma_filter_loop_compose(s0, a, b);
}

proof fn lemma_select_loop_compose(s: LaunchpadState, a: nat, b: nat)
    requires
        !select_done(select_loop(s, a)),
    ensures
        select_loop(select_loop(s, a), b) == select_loop(s, a + b),
    decreases a,
{
    if a > 0 && !select_done(s) {
        lemma_select_loop_compose(select_unit(s), (a - 1) as nat, b);
        assert((a - 1) as nat + b == (a + b - 1) as nat);
    }
}

/// The base draw interrupted after `a` units and resumed with `b` more ends where one run
/// with `a + b` units ends; the seed offered on resumption is not used.
pub proof fn selection_resumes(s: LaunchpadState, seed: Seq<u8>, later_seed: Seq<u8>, a: nat, b: nat)
    requires
        s.wf(),
        s.flags.were_tickets_filtered,
        !s.flags.were_winners_selected,
        !select_result(s, seed, a).flags.were_winners_selected,
    ensures
        select_result(select_result(s, seed, a), later_seed, b) == select_result(s, seed, a + b),
{
    let s0 = select_started(s, seed);
    lemma_select_started(s, seed);
    lemma_select_loop(s0, a);
    let l = select_loop(s0, a);
    assert(!select_done(l));
    assert(select_result(s, seed, a) == l);
    assert(select_started(l, later_seed) =~= l);
    lemma_select_loop_compose(s0, a, b);
}

/// A completed base draw marks exactly the base winner count: the configured count less the
/// guaranteed quotas, that is the configured count itself when there are no quotas.
pub proof fn base_draw_marks_exact_count(s: LaunchpadState, seed: Seq<u8>, budget: nat)
    requires
        s.wf(),
        s.flags.were_tickets_filtered,
        !s.flags.were_winners_selected,
        select_result(s, seed, budget).flags.were_winners_selected,
    ensures
        select_result(s, seed, budget).won.len() == s.base_winners(),
        s.total_guaranteed == 0 ==> select_result(s, seed, budget).won.len()
            == s.nr_winning_tickets,
        select_result(s, seed, budget).won.len() <= s.last_ticket_id,
{
    let s0 = select_started(s, seed);
    lemma_select_started(s, seed);
    lemma_select_loop(s0, budget);
    let l = select_loop(s0, budget);
    assert(select_done(l));
    assert(select_cursor(l, Seq::empty()).1 == s.base_winners() + 1);
}

proof fn lemma_guaranteed_loop_exhausted(s: LaunchpadState, a: nat, b: nat)
    requires
        guaranteed_loop(s, a).1 == 0,
    ensures
        guaranteed_loop(guaranteed_loop(s, a).0, b) == guaranteed_loop(s, a + b),
    decreases a,
{
    if a > 0 && !(!(s.operation is SelectGuaranteedTickets) || s.guaranteed_users.len() == 0) {
        lemma_guaranteed_loop_exhausted(guaranteed_unit(s), (a - 1) as nat, b);
        assert((a - 1) as nat + b == (a + b - 1) as nat);
    }
}

proof fn lemma_guaranteed_loop_stopped(s: LaunchpadState, a: nat, b: nat)
    requires
        !(guaranteed_loop(s, a).0.operation is SelectGuaranteedTickets) || guaranteed_loop(
            s,
            a,
        ).0.guaranteed_users.len() == 0,
    ensures
        guaranteed_loop(s, a + b) == (guaranteed_loop(s, a).0, guaranteed_loop(s, a).1 + b),
    decreases a,
{
    if a > 0 && !(!(s.operation is SelectGuaranteedTickets) || s.guaranteed_users.len() == 0) {
        lemma_guaranteed_loop_stopped(guaranteed_unit(s), (a - 1) as nat, b);
        assert((a - 1) as nat + b == (a + b - 1) as nat);
    }
}

proof fn lemma_leftover_loop_compose(s: LaunchpadState, a: nat, b: nat)
    requires
        s.operation is DistributeLeftoverTickets,
        !leftover_done(leftover_loop(s, a)),
    ensures
        leftover_loop(leftover_loop(s, a), b) == leftover_loop(s, a + b),
    decreases a,
{
    if a > 0 && !leftover_done(s) {
        lemma_leftover_loop_compose(leftover_unit(s), (a - 1) as nat, b);
        assert((a - 1) as nat + b == (a + b - 1) as nat);
    }
}

/// The guaranteed-ticket allocation interrupted after `a` units and resumed with `b` more,
/// with the same seed offered each time, ends where one run with `a + b` units ends.
pub proof fn allocation_resumes(s: LaunchpadState, seed: Seq<u8>, a: nat, b: nat)
    requires
        s.wf(),
        s.flags.were_winners_selected,
        !s.flags.were_guaranteed_tickets_distributed,
        !distribute_result(s, seed, a).flags.were_guaranteed_tickets_distributed,
    ensures
        distribute_result(distribute_result(s, seed, a), seed, b) == distribute_result(
            s,
            seed,
            a + b,
        ),
{
    let s0 = distribute_started(s);
    lemma_distribute_started(s);
    lemma_guaranteed_loop(s0, a);
    let (l1, b1) = guaranteed_loop(s0, a);
    lemma_distribute_phase2(l1, seed);
    let s2 = distribute_phase2(l1, seed);
    lemma_leftover_loop(s2, b1);
    let l3 = leftover_loop(s2, b1);
    assert(distribute_result(s, seed, a) == l3);
    if s2.operation is SelectGuaranteedTickets {
        assert(b1 == 0);
        assert(l3 == l1);
        assert(distribute_started(l1) == l1);
        lemma_guaranteed_loop_exhausted(s0, a, b);
    } else {
        assert(s2.operation is DistributeLeftoverTickets);
        assert(!leftover_done(l3));
        assert(distribute_started(l3) == l3);
        assert(guaranteed_loop(l3, b) == (l3, b));
        assert(distribute_phase2(l3, seed) == l3);
        lemma_guaranteed_loop_stopped(s0, a, b);
        lemma_leftover_loop_compose(s2, b1, b);
    }
}

/// A completed guaranteed-ticket allocation leaves exactly the configured number of
/// winners, however the quotas compare with the tickets their holders confirmed.
pub proof fn allocation_reaches_winner_count(s: LaunchpadState, seed: Seq<u8>, budget: nat)
    requires
        s.wf(),
        s.flags.were_winners_selected,
        !s.flags.were_guaranteed_tickets_distributed,
        distribute_result(s, seed, budget).flags.were_guaranteed_tickets_distributed,
    ensures
        distribute_result(s, seed, budget).won.len() == s.nr_winning_tickets,
{
    let s0 = distribute_started(s);
    lemma_distribute_started(s);
    lemma_guaranteed_loop(s0, budget);
    let (l1, b1) = guaranteed_loop(s0, budget);
    lemma_distribute_phase2(l1, seed);
    let s2 = distribute_phase2(l1, seed);
    lemma_leftover_loop(s2, b1);
    lemma_distribute_finished(leftover_loop(s2, b1));
}

} // verus!
