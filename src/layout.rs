use crate::state::{offset, range_at, total, LaunchpadState};
use crate::types::{Address, TicketBatch};
use vstd::prelude::*;

verus! {

pub proof fn lemma_total_push(s: Seq<TicketBatch>, b: TicketBatch)
    ensures
        total(s.push(b)) == total(s) + b.nr_tickets,
{
    reveal(total);
    assert(s.push(b).drop_last() =~= s);
}

pub proof fn lemma_offset_push(s: Seq<TicketBatch>, b: TicketBatch, i: int)
    requires
        0 <= i <= s.len(),
    ensures
        offset(s.push(b), i) == offset(s, i),
{
    assert(s.push(b).take(i) =~= s.take(i));
}

pub proof fn lemma_offset_full(s: Seq<TicketBatch>)
    ensures
        offset(s, s.len() as int) == total(s),
{
    assert(s.take(s.len() as int) =~= s);
}

pub proof fn lemma_offset_zero(s: Seq<TicketBatch>)
    ensures
        offset(s, 0) == 0,
        total(Seq::<TicketBatch>::empty()) == 0,
{
    reveal(total);
    assert(s.take(0) =~= Seq::<TicketBatch>::empty());
}

pub proof fn lemma_offset_step(s: Seq<TicketBatch>, i: int)
    requires
        0 <= i < s.len(),
    ensures
        offset(s, i + 1) == offset(s, i) + s[i].nr_tickets,
{
    reveal(total);
    assert(s.take(i + 1).drop_last() =~= s.take(i));
}

pub proof fn lemma_offset_mono(s: Seq<TicketBatch>, i: int, j: int)
    requires
        0 <= i < j <= s.len(),
    ensures
        offset(s, i) + s[i].nr_tickets <= offset(s, j),
    decreases j - i,
{
    lemma_offset_step(s, i);
    if j > i + 1 {
        lemma_offset_mono(s, i, j - 1);
        lemma_offset_step(s, j - 1);
    }
}

pub proof fn lemma_offset_bound(s: Seq<TicketBatch>, i: int)
    requires
        0 <= i < s.len(),
    ensures
        offset(s, i) + s[i].nr_tickets <= total(s),
{
    lemma_offset_mono(s, i, s.len() as int);
    lemma_offset_full(s);
}

pub proof fn lemma_total_drop_first(s: Seq<TicketBatch>)
    requires
        s.len() > 0,
    ensures
        total(s.drop_first()) + s[0].nr_tickets == total(s),
    decreases s.len(),
{
    reveal(total);
    if s.len() > 1 {
        lemma_total_drop_first(s.drop_last());
        assert(s.drop_last().drop_first() =~= s.drop_first().drop_last());
        assert(s.drop_first().last() == s.last());
        assert(s.drop_last()[0] == s[0]);
        assert(total(s.drop_first()) == total(s.drop_first().drop_last()) + s.drop_first().last().nr_tickets);
    } else {
        assert(s.drop_first().len() == 0);
        assert(s.drop_last().len() == 0);
        assert(total(s.drop_first()) == 0);
        assert(total(s.drop_last()) == 0);
        assert(s.last() == s[0]);
    }
}

pub proof fn lemma_offset_drop_first(s: Seq<TicketBatch>, i: int)
    requires
        0 <= i < s.len(),
    ensures
        offset(s.drop_first(), i) + s[0].nr_tickets == offset(s, i + 1),
{
    lemma_total_drop_first(s.take(i + 1));
    assert(s.take(i + 1).drop_first() =~= s.drop_first().take(i));
}

pub proof fn lemma_total_concat(a: Seq<TicketBatch>, b: Seq<TicketBatch>)
    ensures
        total(a + b) == total(a) + total(b),
    decreases b.len(),
{
    reveal(total);
    if b.len() == 0 {
        assert(a + b =~= a);
    } else {
        lemma_total_concat(a, b.drop_last());
        assert((a + b).drop_last() =~= a + b.drop_last());
    }
}

/// Every range on record lies within the ticket ids in use and is not empty.
pub proof fn lemma_range_in_layout(s: LaunchpadState, a: Address)
    requires
        s.registry_wf(),
        s.ranges.contains_key(a),
    ensures
        1 <= s.ranges[a].first_id <= s.ranges[a].last_id <= s.last_ticket_id,
{
    reveal(LaunchpadState::registry_wf);
    let all = s.all_batches();
    let i = choose|i: int| 0 <= i < all.len() && all[i].address == a;
    if i < s.kept.len() {
        assert(all[i] == s.kept[i]);
        assert(s.kept[i].nr_tickets >= 1);
        lemma_offset_bound(s.kept, i);
    } else {
        let j = i - s.kept.len();
        assert(all[i] == s.pending[j]);
        assert(s.pending[j].nr_tickets >= 1);
        lemma_offset_bound(s.pending, j);
        assert(range_at(s.pending, s.pending_base(), j) == s.ranges[a]);
    }
}

} // verus!
