//! Histories of store operations: what any sequence of saves, marks,
//! acknowledgements, rejections and recoveries (reopenings) does to the
//! store, stated over the outcome of each operation.

use vstd::prelude::*;

use crate::warpcore::{
    acknowledge_outcome, count_status, current_version, doc_position, is_first_doc, keeps_log_and_envelopes,
    law_log_and_envelopes_are_append_only, lemma_doc_position, lemma_document_update_keeps_wf,
    lemma_record_position, lemma_record_update_keeps_wf, lemma_same_commands_keeps_wf, lemma_save_keeps_wf,
    mark_outcome, recover_outcome, record_position, reject_outcome, save_outcome, store_wf, stored_document,
    version_exhausted,
    CommandView, DocumentView, IntentView, OutboxStatus, RecordView, SaveOperation, StoreView,
};

verus! {

/// One operation on the store, with the ids, time and reply it was made
/// with. Reopening a store is `Recover`: restoring persisted state gives the
/// recovered state back. A relay pass is a run of marks, acknowledgements
/// and rejections.
pub enum StoreOp {
    Save { intent: IntentView, command_id: u128, event_id: u128, now: i64 },
    Mark { command_id: u128, now: i64 },
    Acknowledge { command_id: u128, base_revision: Option<Seq<char>>, now: i64 },
    Reject { command_id: u128, error: Seq<char>, permanent: bool, now: i64 },
    Recover { now: i64 },
}

/// Whether the store takes `op` at all: a save whose document would need a
/// local version past the largest one is not a call the store accepts.
pub open spec fn accepted(s: StoreView, op: StoreOp) -> bool {
    !(op matches StoreOp::Save { intent, .. } && version_exhausted(s, intent))
}

/// The store after `op`; a refused operation leaves it as it was.
pub open spec fn apply_op(s: StoreView, op: StoreOp) -> StoreView {
    if !accepted(s, op) {
        s
    } else {
        apply_accepted(s, op)
    }
}

/// The store after an accepted `op`.
pub open spec fn apply_accepted(s: StoreView, op: StoreOp) -> StoreView {
    match op {
        StoreOp::Save { intent, command_id, event_id, now } => match save_outcome(
            s,
            intent,
            command_id,
            event_id,
            now,
        ) {
            Ok((ns, _)) => ns,
            Err(_) => s,
        },
        StoreOp::Mark { command_id, now } => match mark_outcome(s, command_id, now) {
            Ok(ns) => ns,
            Err(_) => s,
        },
        StoreOp::Acknowledge { command_id, base_revision, now } => match acknowledge_outcome(
            s,
            command_id,
            base_revision,
            now,
        ) {
            Ok(ns) => ns,
            Err(_) => s,
        },
        StoreOp::Reject { command_id, error, permanent, now } => match reject_outcome(
            s,
            command_id,
            error,
            permanent,
            now,
        ) {
            Ok(ns) => ns,
            Err(_) => s,
        },
        StoreOp::Recover { now } => recover_outcome(s, now),
    }
}

/// The command that `op` queues, when it is an accepted save that succeeds.
pub open spec fn saved_by(s: StoreView, op: StoreOp) -> Option<CommandView> {
    if !accepted(s, op) {
        None
    } else {
        saved_by_accepted(s, op)
    }
}

/// The command that an accepted `op` queues, when it is a save that succeeds.
pub open spec fn saved_by_accepted(s: StoreView, op: StoreOp) -> Option<CommandView> {
    match op {
        StoreOp::Save { intent, command_id, event_id, now } => match save_outcome(
            s,
            intent,
            command_id,
            event_id,
            now,
        ) {
            Ok((_, c)) => Some(c),
            Err(_) => None,
        },
        _ => None,
    }
}

/// The store after the operations `ops`, in order.
pub open spec fn run(s: StoreView, ops: Seq<StoreOp>) -> StoreView
    decreases ops.len(),
{
    if ops.len() == 0 {
        s
    } else {
        apply_op(run(s, ops.drop_last()), ops.last())
    }
}

/// The commands queued by the successful saves among `ops`, in order.
pub open spec fn saved_commands(s: StoreView, ops: Seq<StoreOp>) -> Seq<CommandView>
    decreases ops.len(),
{
    if ops.len() == 0 {
        Seq::empty()
    } else {
        let before = saved_commands(s, ops.drop_last());
        match saved_by(run(s, ops.drop_last()), ops.last()) {
            Some(c) => before.push(c),
            None => before,
        }
    }
}

/// Whether a command is for the document with key (`collection`, `entity_id`).
pub open spec fn for_key(collection: Seq<char>, entity_id: Seq<char>) -> spec_fn(CommandView) -> bool {
    |c: CommandView| c.collection == collection && c.entity_id == entity_id
}

/// An intent that no operation but a save looks at.
spec fn no_intent() -> IntentView {
    IntentView {
        collection: Seq::empty(),
        entity_id: Seq::empty(),
        operation: SaveOperation::Delete,
        document: None,
        expected_local_version: None,
    }
}

/// One operation either queues exactly one command at the ends of the ship
/// log and the outbox, taking the next sequence number and an id no outbox
/// command has, or keeps the log and every command envelope as they were.
proof fn lemma_apply_op_shape(s: StoreView, op: StoreOp)
    ensures
        ({
            let ns = apply_op(s, op);
            match saved_by(s, op) {
                Some(c) => {
                    &&& ns.ship_id == s.ship_id
                    &&& ns.events.len() == s.events.len() + 1
                    &&& ns.events.drop_last() == s.events
                    &&& ns.outbox.len() == s.outbox.len() + 1
                    &&& ns.outbox.drop_last() == s.outbox
                    &&& ns.outbox.last().entry.command == c
                    &&& c.event_sequence == s.next_sequence
                    &&& ns.next_sequence == s.next_sequence + 1
                    &&& forall|j: int| 0 <= j < s.outbox.len() ==> (#[trigger] s.outbox[j]).entry.command.command_id != c.command_id
                },
                None => keeps_log_and_envelopes(s, ns),
            }
        }),
{
    match op {
        StoreOp::Save { intent, command_id, event_id, now } => {
            law_log_and_envelopes_are_append_only(s, intent, command_id, event_id, None, Seq::empty(), false, now);
            lemma_record_position(s.outbox, command_id);
        },
        StoreOp::Mark { command_id, now } => {
            law_log_and_envelopes_are_append_only(s, no_intent(), command_id, 0, None, Seq::empty(), false, now);
        },
        StoreOp::Acknowledge { command_id, base_revision, now } => {
            law_log_and_envelopes_are_append_only(s, no_intent(), command_id, 0, base_revision, Seq::empty(), false, now);
        },
        StoreOp::Reject { command_id, error, permanent, now } => {
            law_log_and_envelopes_are_append_only(s, no_intent(), command_id, 0, None, error, permanent, now);
        },
        StoreOp::Recover { now } => {
            law_log_and_envelopes_are_append_only(s, no_intent(), 0, 0, None, Seq::empty(), false, now);
        },
    }
}

/// Every operation keeps the store's invariant.
proof fn lemma_apply_op_keeps_wf(s: StoreView, op: StoreOp)
    requires
        store_wf(s),
    ensures
        store_wf(apply_op(s, op)),
{
    let ns = apply_op(s, op);
    match op {
        StoreOp::Save { intent, command_id, event_id, now } => {
            if save_outcome(s, intent, command_id, event_id, now) is Ok {
                lemma_save_keeps_wf(s, intent, command_id, event_id, now);
            }
        },
        StoreOp::Mark { command_id, now } => {
            lemma_record_position(s.outbox, command_id);
            if let Some(k) = record_position(s.outbox, command_id) {
                if mark_outcome(s, command_id, now) is Ok {
                    lemma_record_update_keeps_wf(s, k, ns.outbox[k]);
                    assert(ns == StoreView { outbox: s.outbox.update(k, ns.outbox[k]), ..s });
                }
            }
        },
        StoreOp::Reject { command_id, error, permanent, now } => {
            lemma_record_position(s.outbox, command_id);
            if let Some(k) = record_position(s.outbox, command_id) {
                lemma_record_update_keeps_wf(s, k, ns.outbox[k]);
                assert(ns == StoreView { outbox: s.outbox.update(k, ns.outbox[k]), ..s });
            }
        },
        StoreOp::Acknowledge { command_id, base_revision, now } => {
            lemma_record_position(s.outbox, command_id);
            if let Some(k) = record_position(s.outbox, command_id) {
                let c = s.outbox[k].entry.command;
                lemma_record_update_keeps_wf(s, k, ns.outbox[k]);
                let mid = StoreView { outbox: s.outbox.update(k, ns.outbox[k]), ..s };
                lemma_doc_position(s.documents, c.collection, c.entity_id);
                if let Some(p) = doc_position(s.documents, c.collection, c.entity_id) {
                    if s.documents[p].local_version == c.local_version {
                        lemma_document_update_keeps_wf(mid, p, ns.documents[p]);
                        assert(ns == StoreView { documents: mid.documents.update(p, ns.documents[p]), ..mid });
                    } else {
                        assert(ns == mid);
                    }
                } else {
                    assert(ns == mid);
                }
            }
        },
        StoreOp::Recover { now } => {
            lemma_same_commands_keeps_wf(s, ns.outbox);
            assert(ns == StoreView { outbox: ns.outbox, ..s });
        },
    }
}

/// Across any history the outbox keeps every command it had, in place, and
/// gains exactly the commands of the successful saves, at its end and in
/// order, while the ship log grows by as many events. The saved commands take
/// consecutive sequence numbers from the store's next one, so a later save's
/// sequence is always the larger, and each carries an id that no other
/// command in the outbox carries. A store that keeps its invariant keeps it
/// throughout.
pub proof fn law_history_queues_saved_commands(s: StoreView, ops: Seq<StoreOp>)
    ensures
        ({
            let ns = run(s, ops);
            let saved = saved_commands(s, ops);
            &&& ns.ship_id == s.ship_id
            &&& ns.events.len() == s.events.len() + saved.len()
            &&& ns.outbox.len() == s.outbox.len() + saved.len()
            &&& ns.next_sequence == s.next_sequence + saved.len()
            &&& forall|j: int|
                0 <= j < s.outbox.len() ==> (#[trigger] ns.outbox[j]).entry.command == s.outbox[j].entry.command
            &&& forall|k: int| 0 <= k < saved.len() ==> ns.outbox[s.outbox.len() + k].entry.command == #[trigger] saved[k]
            &&& forall|k: int| 0 <= k < saved.len() ==> (#[trigger] saved[k]).event_sequence == s.next_sequence + k
            &&& forall|a: int, b: int|
                0 <= a < b < saved.len() ==> (#[trigger] saved[a]).event_sequence < (#[trigger] saved[b]).event_sequence
                    && saved[a].command_id != saved[b].command_id
            &&& forall|j: int, k: int|
                0 <= j < ns.outbox.len() && 0 <= k < saved.len() && j != s.outbox.len() + k ==> (
                #[trigger] ns.outbox[j]).entry.command.command_id != (#[trigger] saved[k]).command_id
            &&& store_wf(s) ==> store_wf(ns)
        }),
    decreases ops.len(),
{
    if ops.len() > 0 {
        let pre = ops.drop_last();
        let op = ops.last();
        law_history_queues_saved_commands(s, pre);
        let p = run(s, pre);
        let sv = saved_commands(s, pre);
        let ns = run(s, ops);
        let saved = saved_commands(s, ops);
        assert(ns == apply_op(p, op));
        lemma_apply_op_shape(p, op);
        if store_wf(s) {
            lemma_apply_op_keeps_wf(p, op);
        }
        let base = s.outbox.len();
        match saved_by(p, op) {
            Some(c) => {
                assert(saved == sv.push(c));
                assert forall|j: int| 0 <= j < p.outbox.len() implies #[trigger] ns.outbox[j] == p.outbox[j] by {
                    assert(ns.outbox.drop_last()[j] == ns.outbox[j]);
                }
                assert forall|k: int| 0 <= k < saved.len() implies ns.outbox[base + k].entry.command == #[trigger] saved[k] by {
                    if k < sv.len() {
                        assert(ns.outbox[base + k] == p.outbox[base + k]);
                    }
                }
                assert forall|j: int, k: int|
                    0 <= j < ns.outbox.len() && 0 <= k < saved.len() && j != base + k implies (
                    #[trigger] ns.outbox[j]).entry.command.command_id != (#[trigger] saved[k]).command_id by {
                    if k == sv.len() {
                        assert(ns.outbox[j] == p.outbox[j]);
                    } else if j == p.outbox.len() {
                        assert(ns.outbox[base + k] == p.outbox[base + k]);
                        assert(p.outbox[base + k].entry.command == sv[k]);
                    } else {
                        assert(ns.outbox[j] == p.outbox[j]);
                    }
                }
                assert forall|a: int, b: int| 0 <= a < b < saved.len() implies (#[trigger] saved[a]).event_sequence
                    < (#[trigger] saved[b]).event_sequence && saved[a].command_id != saved[b].command_id by {
                    assert(ns.outbox[base + a].entry.command == saved[a]);
                }
            },
            None => {
                assert(saved == sv);
                assert forall|a: int, b: int| 0 <= a < b < saved.len() implies (#[trigger] saved[a]).event_sequence
                    < (#[trigger] saved[b]).event_sequence && saved[a].command_id != saved[b].command_id by {
                    assert(p.outbox[base + a].entry.command == sv[a]);
                }
                assert forall|j: int, k: int|
                    0 <= j < ns.outbox.len() && 0 <= k < saved.len() && j != base + k implies (
                    #[trigger] ns.outbox[j]).entry.command.command_id != (#[trigger] saved[k]).command_id by {
                    assert(ns.outbox[j].entry.command == p.outbox[j].entry.command);
                }
                assert forall|k: int| 0 <= k < saved.len() implies ns.outbox[base + k].entry.command == #[trigger] saved[k] by {
                    assert(ns.outbox[base + k].entry.command == p.outbox[base + k].entry.command);
                }
            },
        }
    }
}

/// The five status counts of an outbox together.
pub open spec fn status_total(o: Seq<RecordView>) -> nat {
    count_status(o, OutboxStatus::Queued) + count_status(o, OutboxStatus::Transmitting) + count_status(
        o,
        OutboxStatus::Retry,
    ) + count_status(o, OutboxStatus::Acknowledged) + count_status(o, OutboxStatus::Rejected)
}

/// Every command has exactly one of the five statuses, so the status counts
/// of any outbox add up to its length.
pub proof fn lemma_status_counts_cover(o: Seq<RecordView>)
    ensures
        status_total(o) == o.len(),
    decreases o.len(),
{
    if o.len() == 0 {
        assert(o.filter(crate::warpcore::has_status(OutboxStatus::Queued)) =~= Seq::<RecordView>::empty()) by {
            reveal(Seq::filter);
        }
        assert(o.filter(crate::warpcore::has_status(OutboxStatus::Transmitting)) =~= Seq::<RecordView>::empty()) by {
            reveal(Seq::filter);
        }
        assert(o.filter(crate::warpcore::has_status(OutboxStatus::Retry)) =~= Seq::<RecordView>::empty()) by {
            reveal(Seq::filter);
        }
        assert(o.filter(crate::warpcore::has_status(OutboxStatus::Acknowledged)) =~= Seq::<RecordView>::empty()) by {
            reveal(Seq::filter);
        }
        assert(o.filter(crate::warpcore::has_status(OutboxStatus::Rejected)) =~= Seq::<RecordView>::empty()) by {
            reveal(Seq::filter);
        }
    } else {
        let d = o.drop_last();
        lemma_status_counts_cover(d);
        assert(o =~= d.push(o.last()));
        d.lemma_filter_push(o.last(), crate::warpcore::has_status(OutboxStatus::Queued));
        d.lemma_filter_push(o.last(), crate::warpcore::has_status(OutboxStatus::Transmitting));
        d.lemma_filter_push(o.last(), crate::warpcore::has_status(OutboxStatus::Retry));
        d.lemma_filter_push(o.last(), crate::warpcore::has_status(OutboxStatus::Acknowledged));
        d.lemma_filter_push(o.last(), crate::warpcore::has_status(OutboxStatus::Rejected));
    }
}

/// In every state a history reaches, the status counts add up to the number
/// of commands in the outbox: those it started with plus one per successful
/// save. No command is lost or counted twice; from a new store the counts
/// add up to the number of successful saves.
pub proof fn law_status_counts_add_up(s: StoreView, ops: Seq<StoreOp>)
    ensures
        status_total(run(s, ops).outbox) == s.outbox.len() + saved_commands(s, ops).len(),
{
    law_history_queues_saved_commands(s, ops);
    lemma_status_counts_cover(run(s, ops).outbox);
}

/// Whether a document carries the key (`collection`, `entity_id`).
pub open spec fn has_key(d: DocumentView, collection: Seq<char>, entity_id: Seq<char>) -> bool {
    d.collection == collection && d.entity_id == entity_id
}

/// Documents that carry a key at the same positions find it at the same
/// position.
proof fn lemma_same_matches_same_position(a: Seq<DocumentView>, b: Seq<DocumentView>, collection: Seq<char>, entity_id: Seq<char>)
    requires
        a.len() <= b.len(),
        forall|i: int| 0 <= i < a.len() ==> (has_key(#[trigger] a[i], collection, entity_id) <==> has_key(b[i], collection, entity_id)),
        forall|i: int| a.len() <= i < b.len() ==> !has_key(#[trigger] b[i], collection, entity_id),
    ensures
        doc_position(a, collection, entity_id) == doc_position(b, collection, entity_id),
{
    lemma_doc_position(a, collection, entity_id);
    lemma_doc_position(b, collection, entity_id);
    match doc_position(a, collection, entity_id) {
        Some(p) => {
            assert forall|j: int| #![trigger b[j]] 0 <= j < p implies !(b[j].collection == collection && b[j].entity_id == entity_id) by {
                assert(!has_key(a[j], collection, entity_id));
            }
            assert(has_key(a[p], collection, entity_id));
            assert(is_first_doc(b, collection, entity_id, p));
        },
        None => {
            if let Some(q) = doc_position(b, collection, entity_id) {
                assert(has_key(b[q], collection, entity_id));
                if q < a.len() {
                    assert(!has_key(a[q], collection, entity_id));
                }
            }
        },
    }
}

/// The document that a save queuing command `c` stores.
pub open spec fn document_of(c: CommandView) -> DocumentView {
    DocumentView {
        collection: c.collection,
        entity_id: c.entity_id,
        document: c.document,
        local_version: c.local_version,
        dirty: true,
        deleted: c.operation == SaveOperation::Delete,
        updated_at_ms: c.occurred_at_ms,
    }
}

/// One operation raises the local version under a key by one when it is a
/// successful save under that key, and leaves it as it was otherwise.
proof fn lemma_apply_op_versions(s: StoreView, op: StoreOp, collection: Seq<char>, entity_id: Seq<char>)
    ensures
        current_version(apply_op(s, op), collection, entity_id) == current_version(s, collection, entity_id) + (
        if saved_by(s, op) matches Some(c) && for_key(collection, entity_id)(c) {
            1int
        } else {
            0int
        }),
        saved_by(s, op) matches Some(c) ==> (for_key(collection, entity_id)(c) ==> stored_document(
            apply_op(s, op),
            collection,
            entity_id,
        ) == Some(document_of(c)) && c.local_version == current_version(s, collection, entity_id) + 1),
        !(saved_by(s, op) matches Some(c) && for_key(collection, entity_id)(c)) && !(op is Acknowledge) ==> stored_document(
            apply_op(s, op),
            collection,
            entity_id,
        ) == stored_document(s, collection, entity_id),
{
    let ns = apply_op(s, op);
    match op {
        StoreOp::Save { intent, command_id, event_id, now } => {
            if let Ok((v, c)) = save_outcome(s, intent, command_id, event_id, now) {
                let kc = intent.collection;
                let ke = intent.entity_id;
                lemma_doc_position(s.documents, kc, ke);
                lemma_doc_position(s.documents, collection, entity_id);
                lemma_doc_position(ns.documents, collection, entity_id);
                let q = match doc_position(s.documents, kc, ke) {
                    Some(q) => q,
                    None => s.documents.len() as int,
                };
                assert(has_key(ns.documents[q], kc, ke));
                if collection == kc && entity_id == ke {
                    assert forall|j: int| #![trigger ns.documents[j]] 0 <= j < q implies !(ns.documents[j].collection == kc
                        && ns.documents[j].entity_id == ke) by {
                        assert(ns.documents[j] == s.documents[j]);
                    }
                    assert(is_first_doc(ns.documents, kc, ke, q));
                } else {
                    assert forall|i: int| 0 <= i < s.documents.len() implies (has_key(#[trigger] s.documents[i], collection, entity_id)
                        <==> has_key(ns.documents[i], collection, entity_id)) by {
                        if i == q {
                            assert(has_key(s.documents[q], kc, ke));
                        } else {
                            assert(ns.documents[i] == s.documents[i]);
                        }
                    }
                    lemma_same_matches_same_position(s.documents, ns.documents, collection, entity_id);
                    if let Some(r) = doc_position(s.documents, collection, entity_id) {
                        assert(has_key(s.documents[r], collection, entity_id));
                        assert(r != q);
                        assert(ns.documents[r] == s.documents[r]);
                    }
                }
            }
        },
        StoreOp::Acknowledge { command_id, base_revision, now } => {
            if let Ok(v) = acknowledge_outcome(s, command_id, base_revision, now) {
                assert forall|i: int| 0 <= i < s.documents.len() implies (has_key(#[trigger] s.documents[i], collection, entity_id)
                    <==> has_key(ns.documents[i], collection, entity_id)) && ns.documents[i].local_version
                    == s.documents[i].local_version by {}
                lemma_same_matches_same_position(s.documents, ns.documents, collection, entity_id);
                lemma_doc_position(s.documents, collection, entity_id);
            }
        },
        StoreOp::Mark { command_id, now } => {
            assert(ns.documents == s.documents);
        },
        StoreOp::Reject { command_id, error, permanent, now } => {
            assert(ns.documents == s.documents);
        },
        StoreOp::Recover { now } => {
            assert(ns.documents == s.documents);
        },
    }
}

/// The number of successful saves under a key among `ops`.
pub open spec fn saves_under(s: StoreView, ops: Seq<StoreOp>, collection: Seq<char>, entity_id: Seq<char>) -> nat {
    saved_commands(s, ops).filter(for_key(collection, entity_id)).len()
}

/// Across any history, a document's local version is its version before the
/// history plus the number of successful saves under its key; from a new
/// store, it is the number of successful saves under its key.
pub proof fn law_history_counts_versions(s: StoreView, ops: Seq<StoreOp>, collection: Seq<char>, entity_id: Seq<char>)
    ensures
        current_version(run(s, ops), collection, entity_id) == current_version(s, collection, entity_id) + saves_under(
            s,
            ops,
            collection,
            entity_id,
        ),
    decreases ops.len(),
{
    if ops.len() == 0 {
        assert(saved_commands(s, ops).filter(for_key(collection, entity_id)) =~= Seq::<CommandView>::empty()) by {
            reveal(Seq::filter);
        }
    } else {
        let pre = ops.drop_last();
        law_history_counts_versions(s, pre, collection, entity_id);
        lemma_apply_op_versions(run(s, pre), ops.last(), collection, entity_id);
        let sv = saved_commands(s, pre);
        match saved_by(run(s, pre), ops.last()) {
            Some(c) => {
                sv.lemma_filter_push(c, for_key(collection, entity_id));
            },
            None => {},
        }
    }
}

/// No command for the key carries a local version newer than the document's.
pub open spec fn versions_bounded(s: StoreView, collection: Seq<char>, entity_id: Seq<char>) -> bool {
    forall|j: int|
        0 <= j < s.outbox.len() && for_key(collection, entity_id)((#[trigger] s.outbox[j]).entry.command)
            ==> s.outbox[j].entry.command.local_version <= current_version(s, collection, entity_id)
}

proof fn lemma_apply_op_keeps_bounded(s: StoreView, op: StoreOp, collection: Seq<char>, entity_id: Seq<char>)
    requires
        versions_bounded(s, collection, entity_id),
    ensures
        versions_bounded(apply_op(s, op), collection, entity_id),
{
    let ns = apply_op(s, op);
    lemma_apply_op_shape(s, op);
    lemma_apply_op_versions(s, op, collection, entity_id);
    assert forall|j: int|
        0 <= j < ns.outbox.len() && for_key(collection, entity_id)((#[trigger] ns.outbox[j]).entry.command) implies
        ns.outbox[j].entry.command.local_version <= current_version(ns, collection, entity_id) by {
        if j < s.outbox.len() {
            if saved_by(s, op) is Some {
                assert(ns.outbox.drop_last()[j] == ns.outbox[j]);
            }
            assert(ns.outbox[j].entry.command == s.outbox[j].entry.command);
        }
    }
}

/// Every state a history reaches from a store whose commands are no newer
/// than their documents has the same property.
proof fn lemma_history_keeps_bounded(s: StoreView, ops: Seq<StoreOp>, collection: Seq<char>, entity_id: Seq<char>)
    requires
        versions_bounded(s, collection, entity_id),
    ensures
        versions_bounded(run(s, ops), collection, entity_id),
    decreases ops.len(),
{
    if ops.len() > 0 {
        lemma_history_keeps_bounded(s, ops.drop_last(), collection, entity_id);
        lemma_apply_op_keeps_bounded(run(s, ops.drop_last()), ops.last(), collection, entity_id);
    }
}

/// Running two histories one after the other is running them joined.
pub proof fn lemma_run_append(s: StoreView, a: Seq<StoreOp>, b: Seq<StoreOp>)
    ensures
        run(s, a + b) == run(run(s, a), b),
        saved_commands(s, a + b) == saved_commands(s, a) + saved_commands(run(s, a), b),
    decreases b.len(),
{
    if b.len() == 0 {
        assert(a + b =~= a);
        assert(saved_commands(s, a) + saved_commands(run(s, a), b) =~= saved_commands(s, a));
    } else {
        lemma_run_append(s, a, b.drop_last());
        assert((a + b).drop_last() =~= a + b.drop_last());
        assert((a + b).last() == b.last());
        let x = saved_commands(s, a);
        let y = saved_commands(run(s, a), b.drop_last());
        match saved_by(run(s, a + b.drop_last()), b.last()) {
            Some(c) => {
                assert((x + y).push(c) =~= x + y.push(c));
            },
            None => {},
        }
    }
}

/// The document under a key is the one the last save under it stored, and
/// every other command for the key is older than that save's.
pub open spec fn holds_last_save(s: StoreView, c: CommandView) -> bool {
    &&& stored_document(s, c.collection, c.entity_id) == Some(document_of(c))
    &&& forall|j: int|
        0 <= j < s.outbox.len() && for_key(c.collection, c.entity_id)((#[trigger] s.outbox[j]).entry.command)
            && s.outbox[j].entry.command.command_id != c.command_id ==> s.outbox[j].entry.command.local_version
            < c.local_version
}

/// An operation that neither saves under the key nor acknowledges `c` keeps
/// the last save's document in place.
proof fn lemma_apply_op_keeps_last_save(s: StoreView, op: StoreOp, c: CommandView)
    requires
        holds_last_save(s, c),
        !(saved_by(s, op) matches Some(d) && for_key(c.collection, c.entity_id)(d)),
        !(op matches StoreOp::Acknowledge { command_id, .. } && command_id == c.command_id),
    ensures
        holds_last_save(apply_op(s, op), c),
{
    let ns = apply_op(s, op);
    let kc = c.collection;
    let ke = c.entity_id;
    lemma_apply_op_shape(s, op);
    lemma_apply_op_versions(s, op, kc, ke);
    assert forall|j: int|
        0 <= j < ns.outbox.len() && for_key(kc, ke)((#[trigger] ns.outbox[j]).entry.command)
            && ns.outbox[j].entry.command.command_id != c.command_id implies ns.outbox[j].entry.command.local_version
        < c.local_version by {
        if j < s.outbox.len() {
            if saved_by(s, op) is Some {
                assert(ns.outbox.drop_last()[j] == ns.outbox[j]);
            }
            assert(ns.outbox[j].entry.command == s.outbox[j].entry.command);
        }
    }
    if let StoreOp::Acknowledge { command_id, base_revision, now } = op {
        if let Ok(v) = acknowledge_outcome(s, command_id, base_revision, now) {
            lemma_record_position(s.outbox, command_id);
            let k = record_position(s.outbox, command_id)->0;
            let cmd = s.outbox[k].entry.command;
            lemma_doc_position(s.documents, cmd.collection, cmd.entity_id);
            lemma_doc_position(s.documents, kc, ke);
            let pk = doc_position(s.documents, kc, ke)->0;
            assert(has_key(s.documents[pk], kc, ke));
            assert forall|i: int| 0 <= i < s.documents.len() implies (has_key(#[trigger] s.documents[i], kc, ke)
                <==> has_key(ns.documents[i], kc, ke)) by {}
            lemma_same_matches_same_position(s.documents, ns.documents, kc, ke);
            if let Some(p) = doc_position(s.documents, cmd.collection, cmd.entity_id) {
                if p == pk {
                    assert(for_key(kc, ke)(cmd));
                    assert(s.documents[p].local_version == c.local_version);
                    assert(cmd.local_version < c.local_version);
                }
            }
        }
    }
}

/// A history with no save under the key and no acknowledgement of `c` keeps
/// the last save's document in place.
proof fn lemma_history_keeps_last_save(s: StoreView, ops: Seq<StoreOp>, c: CommandView)
    requires
        holds_last_save(s, c),
        saves_under(s, ops, c.collection, c.entity_id) == 0,
        forall|k: int|
            0 <= k < ops.len() ==> !(#[trigger] ops[k] matches StoreOp::Acknowledge { command_id, .. } && command_id
                == c.command_id),
    ensures
        holds_last_save(run(s, ops), c),
    decreases ops.len(),
{
    if ops.len() > 0 {
        let pre = ops.drop_last();
        let sv = saved_commands(s, pre);
        let f = for_key(c.collection, c.entity_id);
        match saved_by(run(s, pre), ops.last()) {
            Some(d) => {
                sv.lemma_filter_push(d, f);
                assert(saved_commands(s, ops) == sv.push(d));
            },
            None => {
                assert(saved_commands(s, ops) == sv);
            },
        }
        assert forall|k: int| 0 <= k < pre.len() implies !(#[trigger] pre[k] matches StoreOp::Acknowledge {
            command_id,
            ..
        } && command_id == c.command_id) by {
            assert(pre[k] == ops[k]);
        }
        lemma_history_keeps_last_save(s, pre, c);
        assert(ops.last() == ops[ops.len() - 1]);
        lemma_apply_op_keeps_last_save(run(s, pre), ops.last(), c);
    }
}

/// After a history, the document under a key is exactly what the last
/// successful save under it stored (its document, its local version, dirty,
/// deleted for a delete, and the save's time) as long as that save's command
/// has not been acknowledged since. This holds for every store whose
/// commands are no newer than their documents, a new store among them.
pub proof fn law_document_is_the_last_save(s: StoreView, ops: Seq<StoreOp>, i: int)
    requires
        0 <= i < ops.len(),
        saved_by(run(s, ops.take(i)), ops[i]) is Some,
        ({
            let c = saved_by(run(s, ops.take(i)), ops[i])->0;
            &&& versions_bounded(s, c.collection, c.entity_id)
            &&& saves_under(run(s, ops.take(i + 1)), ops.skip(i + 1), c.collection, c.entity_id) == 0
            &&& forall|k: int|
                i < k < ops.len() ==> !(#[trigger] ops[k] matches StoreOp::Acknowledge { command_id, .. } && command_id
                    == c.command_id)
        }),
    ensures
        ({
            let c = saved_by(run(s, ops.take(i)), ops[i])->0;
            stored_document(run(s, ops), c.collection, c.entity_id) == Some(document_of(c))
        }),
{
    let before = run(s, ops.take(i));
    let c = saved_by(before, ops[i])->0;
    let kc = c.collection;
    let ke = c.entity_id;
    lemma_history_keeps_bounded(s, ops.take(i), kc, ke);
    assert(ops.take(i + 1).drop_last() =~= ops.take(i));
    assert(ops.take(i + 1).last() == ops[i]);
    let mid = run(s, ops.take(i + 1));
    assert(mid == apply_op(before, ops[i]));
    lemma_apply_op_versions(before, ops[i], kc, ke);
    lemma_apply_op_shape(before, ops[i]);
    assert forall|j: int|
        0 <= j < mid.outbox.len() && for_key(kc, ke)((#[trigger] mid.outbox[j]).entry.command)
            && mid.outbox[j].entry.command.command_id != c.command_id implies mid.outbox[j].entry.command.local_version
        < c.local_version by {
        if j < before.outbox.len() {
            assert(mid.outbox.drop_last()[j] == mid.outbox[j]);
            assert(mid.outbox[j] == before.outbox[j]);
        }
    }
    assert(holds_last_save(mid, c));
    let rest = ops.skip(i + 1);
    assert forall|k: int| 0 <= k < rest.len() implies !(#[trigger] rest[k] matches StoreOp::Acknowledge {
        command_id,
        ..
    } && command_id == c.command_id) by {
        assert(rest[k] == ops[i + 1 + k]);
    }
    lemma_history_keeps_last_save(mid, rest, c);
    assert(ops =~= ops.take(i + 1) + rest);
    lemma_run_append(s, ops.take(i + 1), rest);
}

} // verus!
