//! Which commands a delivery batch holds: the oldest ones still to be
//! delivered, in ship-log order.

use vstd::prelude::*;

use crate::warpcore::{is_pending, pending_batch, pending_entries, pending_record, store_wf, RecordView, StoreView};

verus! {

/// How many commands still to be delivered come before record `j` of the
/// outbox.
pub open spec fn pending_rank(o: Seq<RecordView>, j: int) -> nat {
    o.take(j).filter(pending_record()).len()
}

proof fn lemma_pending_at_rank(o: Seq<RecordView>, j: int)
    requires
        0 <= j < o.len(),
        is_pending(o[j].entry.status),
    ensures
        pending_rank(o, j) < pending_entries(o).len(),
        pending_entries(o)[pending_rank(o, j) as int] == o[j].entry,
{
    let f = pending_record();
    assert(o =~= o.take(j + 1) + o.skip(j + 1));
    Seq::filter_distributes_over_add(o.take(j + 1), o.skip(j + 1), f);
    assert(o.take(j + 1) =~= o.take(j).push(o[j]));
    o.take(j).lemma_filter_push(o[j], f);
    let r = pending_rank(o, j) as int;
    assert(o.filter(f)[r] == o[j]);
}

proof fn lemma_pending_rank_grows(o: Seq<RecordView>, j: int, k: int)
    requires
        0 <= j <= k <= o.len(),
    ensures
        pending_rank(o, j) <= pending_rank(o, k),
{
    let f = pending_record();
    assert(o.take(k) =~= o.take(j) + o.subrange(j, k));
    Seq::filter_distributes_over_add(o.take(j), o.subrange(j, k), f);
}

proof fn lemma_pending_preimage(o: Seq<RecordView>, a: int)
    requires
        0 <= a < o.filter(pending_record()).len(),
    ensures
        exists|j: int| 0 <= j < o.len() && is_pending(o[j].entry.status) && pending_rank(o, j) == a,
    decreases o.len(),
{
    let f = pending_record();
    let d = o.drop_last();
    assert(o =~= d.push(o.last()));
    d.lemma_filter_push(o.last(), f);
    if a < d.filter(f).len() {
        lemma_pending_preimage(d, a);
        let j = choose|j: int| 0 <= j < d.len() && is_pending(d[j].entry.status) && pending_rank(d, j) == a;
        assert(o.take(j) =~= d.take(j));
        assert(o[j] == d[j]);
        assert(0 <= j < o.len() && is_pending(o[j].entry.status) && pending_rank(o, j) == a);
    } else {
        let j = o.len() - 1;
        assert(o.take(j) =~= d);
        assert(f(o.last()));
        assert(0 <= j < o.len() && is_pending(o[j].entry.status) && pending_rank(o, j) == a);
    }
}

proof fn lemma_batch_entry_source(o: Seq<RecordView>, limit: nat, a: int)
    requires
        0 <= a < pending_batch(o, limit).len(),
    ensures
        exists|k: int|
            0 <= k < o.len() && is_pending(o[k].entry.status) && pending_rank(o, k) == a && pending_batch(o, limit)[a]
                == o[k].entry,
{
    lemma_pending_preimage(o, a);
    let k = choose|k: int| 0 <= k < o.len() && is_pending(o[k].entry.status) && pending_rank(o, k) == a;
    lemma_pending_at_rank(o, k);
}

/// A batch holds as many commands still to be delivered as the limit
/// allows: `limit` of them, or all of them when there are fewer.
pub proof fn law_pending_batch_size(o: Seq<RecordView>, limit: nat)
    ensures
        pending_batch(o, limit).len() == if limit < o.filter(pending_record()).len() {
            limit
        } else {
            o.filter(pending_record()).len()
        },
{
}

/// Commands are handed out oldest first: a command still to be delivered is
/// in the batch exactly when fewer than `limit` such commands precede it in
/// the outbox, and then at its place among them.
pub proof fn law_pending_batch_takes_the_oldest(o: Seq<RecordView>, limit: nat, j: int)
    requires
        0 <= j < o.len(),
        is_pending(o[j].entry.status),
        pending_rank(o, j) < limit,
    ensures
        pending_rank(o, j) < pending_batch(o, limit).len(),
        pending_batch(o, limit)[pending_rank(o, j) as int] == o[j].entry,
{
    lemma_pending_at_rank(o, j);
}

/// Every command in a batch is a command still to be delivered, taken from
/// the outbox.
pub proof fn law_pending_batch_holds_only_pending(o: Seq<RecordView>, limit: nat, a: int)
    requires
        0 <= a < pending_batch(o, limit).len(),
    ensures
        exists|k: int|
            #![trigger o[k]]
            0 <= k < o.len() && is_pending(o[k].entry.status) && pending_batch(o, limit)[a] == o[k].entry,
{
    lemma_batch_entry_source(o, limit, a);
}

/// Under the store's invariant, every command still to be delivered that a
/// batch leaves out is newer (has a larger sequence number) than every
/// command in the batch.
pub proof fn law_pending_batch_leaves_out_only_newer(s: StoreView, limit: nat, j: int, a: int)
    requires
        store_wf(s),
        0 <= j < s.outbox.len(),
        is_pending(s.outbox[j].entry.status),
        pending_rank(s.outbox, j) >= limit,
        0 <= a < pending_batch(s.outbox, limit).len(),
    ensures
        pending_batch(s.outbox, limit)[a].command.event_sequence < s.outbox[j].entry.command.event_sequence,
{
    let o = s.outbox;
    lemma_batch_entry_source(o, limit, a);
    let k = choose|k: int|
        0 <= k < o.len() && is_pending(o[k].entry.status) && pending_rank(o, k) == a && pending_batch(o, limit)[a]
            == o[k].entry;
    assert(a < limit);
    if j <= k {
        lemma_pending_rank_grows(o, j, k);
    }
    assert(k < j);
    assert(o[k].entry.command.event_sequence < o[j].entry.command.event_sequence);
}

} // verus!
