//! The relay of outbox commands to base, as a sequence of decisions. The
//! caller owns the transport: it asks for the next command, transmits it, and
//! hands the reply back. Queue order, retries and acknowledgement semantics
//! stay here.

use vstd::prelude::*;

use crate::warpcore::{
    acknowledge_outcome, mark_outcome, opt_text, pending_batch, record_position, reject_outcome, store_wf, OutboxStatus,
    CommandView, EntryView, ErrorView, OutboxEntry, ServerSaveCommand, StoreView, WarpCore,
    WarpCoreError,
};

verus! {

/// Counts of one relay pass.
#[derive(Clone, Copy, Debug, PartialEq, Eq)]
pub struct RelayReport {
    pub attempted: u32,
    pub acknowledged: u32,
    pub rejected: u32,
    pub interrupted: bool,
}

impl Default for RelayReport {
    fn default() -> (r: Self)
        ensures
            r == zero_report(),
    {
        RelayReport { attempted: 0, acknowledged: 0, rejected: 0, interrupted: false }
    }
}

/// The report of a pass that has done nothing yet.
pub open spec fn zero_report() -> RelayReport {
    RelayReport { attempted: 0, acknowledged: 0, rejected: 0, interrupted: false }
}

/// Base's reply to a transmitted command.
#[derive(Debug, PartialEq, Eq)]
pub enum BaseResponse {
    Acknowledged { base_revision: Option<String> },
    Rejected { reason: String, permanent: bool },
}

/// A failure to reach base at all.
#[derive(Debug, PartialEq, Eq)]
pub struct TransportError {
    pub message: String,
}

impl TransportError {
    /// The human-readable report of this error.
    pub fn message(&self) -> (r: &str)
        ensures
            r@ == self.message@,
    {
        self.message.as_str()
    }
}

/// What came back from one transmission, as the contracts see it.
pub enum Delivery {
    Acknowledged(Option<Seq<char>>),
    Rejected(Seq<char>, bool),
    TransportFailed(Seq<char>),
}

/// The view of a transmission's result.
pub open spec fn delivery_of(outcome: Result<BaseResponse, TransportError>) -> Delivery {
    match outcome {
        Ok(BaseResponse::Acknowledged { base_revision }) => Delivery::Acknowledged(opt_text(base_revision)),
        Ok(BaseResponse::Rejected { reason, permanent }) => Delivery::Rejected(reason@, permanent),
        Err(e) => Delivery::TransportFailed(e.message@),
    }
}

/// A relay pass as the contracts see it.
pub struct DrainView {
    pub batch: Seq<EntryView>,
    pub position: nat,
    pub in_flight: Option<u128>,
    pub report: RelayReport,
}

/// One relay pass over a bounded batch of pending commands.
pub struct RelayDrain {
    batch: Vec<OutboxEntry>,
    position: usize,
    in_flight: Option<u128>,
    report: RelayReport,
}

impl View for RelayDrain {
    type V = DrainView;

    closed spec fn view(&self) -> DrainView {
        DrainView {
            batch: self.batch@.map_values(|e: OutboxEntry| e@),
            position: self.position as nat,
            in_flight: self.in_flight,
            report: self.report,
        }
    }
}

/// A relay pass's invariant: one attempt per command taken from the batch,
/// at most one answer per attempt, and the command in flight is the last one
/// taken.
pub open spec fn drain_wf(d: DrainView) -> bool {
    &&& d.batch.len() <= u32::MAX
    &&& d.position <= d.batch.len()
    &&& d.report.attempted == d.position
    &&& d.report.acknowledged + d.report.rejected + (if d.in_flight is Some {
        1int
    } else {
        0int
    }) <= d.report.attempted
    &&& d.in_flight is Some ==> d.position >= 1 && d.in_flight->0 == d.batch[d.position - 1].command.command_id
}

/// The pass is over: a transient failure interrupted it, or every command of
/// the batch was attempted.
pub open spec fn drain_finished(d: DrainView) -> bool {
    d.report.interrupted || d.position >= d.batch.len()
}

/// Taking the next command of the pass: it is marked as being transmitted
/// and counted as attempted. A finished pass yields nothing and changes
/// nothing.
pub open spec fn next_step(s: StoreView, d: DrainView, now: i64) -> Result<
    (StoreView, DrainView, Option<CommandView>),
    ErrorView,
> {
    if drain_finished(d) {
        Ok((s, d, None))
    } else {
        let c = d.batch[d.position as int].command;
        match mark_outcome(s, c.command_id, now) {
            Ok(ns) => Ok(
                (
                    ns,
                    DrainView {
                        position: d.position + 1,
                        in_flight: Some(c.command_id),
                        report: RelayReport { attempted: (d.report.attempted + 1) as u32, ..d.report },
                        ..d
                    },
                    Some(c),
                ),
            ),
            Err(e) => Err(e),
        }
    }
}

/// Recording what came back for the command in flight: an acknowledgement is
/// recorded and counted; a rejection is recorded and counted, and a transient
/// one ends the pass; a transport failure requeues the command and ends the
/// pass.
pub open spec fn record_step(s: StoreView, d: DrainView, delivery: Delivery, now: i64) -> Result<
    (StoreView, DrainView),
    ErrorView,
> {
    let id = d.in_flight->0;
    let settled = DrainView { in_flight: None, ..d };
    match delivery {
        Delivery::Acknowledged(base) => match acknowledge_outcome(s, id, base, now) {
            Ok(ns) => Ok(
                (
                    ns,
                    DrainView {
                        report: RelayReport {
                            acknowledged: (d.report.acknowledged + 1) as u32,
                            ..d.report
                        },
                        ..settled
                    },
                ),
            ),
            Err(e) => Err(e),
        },
        Delivery::Rejected(reason, permanent) => match reject_outcome(s, id, reason, permanent, now) {
            Ok(ns) => Ok(
                (
                    ns,
                    DrainView {
                        report: RelayReport {
                            rejected: (d.report.rejected + 1) as u32,
                            interrupted: d.report.interrupted || !permanent,
                            ..d.report
                        },
                        ..settled
                    },
                ),
            ),
            Err(e) => Err(e),
        },
        Delivery::TransportFailed(message) => match reject_outcome(s, id, message, false, now) {
            Ok(ns) => Ok((ns, DrainView { report: RelayReport { interrupted: true, ..d.report }, ..settled })),
            Err(e) => Err(e),
        },
    }
}

impl RelayDrain {
    pub open spec fn wf(&self) -> bool {
        drain_wf(self@)
    }

    /// Whether a command is waiting for its transmission's result.
    pub fn awaiting_delivery(&self) -> (b: bool)
        ensures
            b == self@.in_flight is Some,
    {
        self.in_flight.is_some()
    }

    /// The counts of the pass so far.
    pub fn report(&self) -> (r: RelayReport)
        ensures
            r == self@.report,
    {
        self.report
    }
}

impl WarpCore {
    /// Starts a relay pass over the first `batch_size` pending commands, in
    /// ship-log order.
    pub fn begin_relay(&self, batch_size: u32) -> (r: Result<RelayDrain, WarpCoreError>)
        ensures
            r matches Ok(d) && d.wf() && d@ == (DrainView {
                batch: pending_batch(self@.outbox, batch_size as nat),
                position: 0,
                in_flight: None,
                report: zero_report(),
            }),
    {
        let batch = match self.pending_commands(batch_size) {
            Ok(b) => b,
            Err(e) => return Err(e),
        };
        let d = RelayDrain { batch, position: 0, in_flight: None, report: RelayReport::default() };
        assert(d@.batch.len() <= batch_size);
        Ok(d)
    }

    /// Takes the next command of the pass, marked as being transmitted, for
    /// the caller to send to base; `None` once the pass is over.
    pub fn relay_next(&mut self, drain: &mut RelayDrain) -> (r: Result<Option<ServerSaveCommand>, WarpCoreError>)
        requires
            old(drain).wf(),
            old(drain)@.in_flight is None,
        ensures
            old(self).wf() ==> final(self).wf(),
            final(drain).wf(),
            exists|now: i64|
                match #[trigger] next_step(old(self)@, old(drain)@, now) {
                    Ok((s, d, c)) => {
                        &&& final(self)@ == s
                        &&& final(drain)@ == d
                        &&& match c {
                            Some(cv) => r matches Ok(Some(cmd)) && cmd@ == cv,
                            None => r matches Ok(None),
                        }
                    },
                    Err(e) => r matches Err(x) && x@ == e && final(self)@ == old(self)@ && final(drain)@
                        == old(drain)@,
                },
    {
        if drain.report.interrupted || drain.position >= drain.batch.len() {
            assert(next_step(old(self)@, old(drain)@, 0) == Ok::<(StoreView, DrainView, Option<CommandView>), ErrorView>((old(self)@, old(drain)@, None)));
            return Ok(None);
        }
        let ghost d0 = drain@;
        let p = drain.position;
        assert(drain.batch@[p as int]@ == d0.batch[p as int]);
        let command = drain.batch[p].command.clone();
        let id = command.command_id;
        let now = crate::ids::now_ms();
        match self.mark_transmitting_at(id, now) {
            Err(e) => {
                assert(next_step(old(self)@, d0, now) matches Err(x) && x == e@);
                Err(e)
            },
            Ok(()) => {
                drain.position = p + 1;
                drain.in_flight = Some(id);
                drain.report.attempted = drain.report.attempted + 1;
                assert(next_step(old(self)@, d0, now) matches Ok((s, d, c)) && s == self@ && d == drain@
                    && c == Some(command@));
                Ok(Some(command))
            },
        }
    }

    /// Records what came back for the command in flight.
    pub fn relay_record(
        &mut self,
        drain: &mut RelayDrain,
        outcome: Result<BaseResponse, TransportError>,
    ) -> (r: Result<(), WarpCoreError>)
        requires
            old(drain).wf(),
            old(drain)@.in_flight is Some,
        ensures
            old(self).wf() ==> final(self).wf(),
            final(drain).wf(),
            exists|now: i64|
                match #[trigger] record_step(old(self)@, old(drain)@, delivery_of(outcome), now) {
                    Ok((s, d)) => r is Ok && final(self)@ == s && final(drain)@ == d,
                    Err(e) => r matches Err(x) && x@ == e && final(self)@ == old(self)@ && final(drain)@
                        == old(drain)@,
                },
    {
        let ghost d0 = drain@;
        let ghost delivery = delivery_of(outcome);
        let id = match drain.in_flight {
            Some(id) => id,
            None => 0,
        };
        let now = crate::ids::now_ms();
        match outcome {
            Ok(BaseResponse::Acknowledged { base_revision }) => {
                let base = match &base_revision {
                    Some(b) => Some(b.as_str()),
                    None => None,
                };
                match self.acknowledge_at(id, base, now) {
                    Err(e) => {
                        assert(record_step(old(self)@, d0, delivery, now) matches Err(x) && x == e@);
                        Err(e)
                    },
                    Ok(()) => {
                        drain.in_flight = None;
                        drain.report.acknowledged = drain.report.acknowledged + 1;
                        assert(record_step(old(self)@, d0, delivery, now) matches Ok((s, d)) && s == self@ && d
                            == drain@);
                        Ok(())
                    },
                }
            },
            Ok(BaseResponse::Rejected { reason, permanent }) => {
                match self.reject_at(id, reason.as_str(), permanent, now) {
                    Err(e) => {
                        assert(record_step(old(self)@, d0, delivery, now) matches Err(x) && x == e@);
                        Err(e)
                    },
                    Ok(()) => {
                        drain.in_flight = None;
                        drain.report.rejected = drain.report.rejected + 1;
                        if !permanent {
                            drain.report.interrupted = true;
                        }
                        assert(record_step(old(self)@, d0, delivery, now) matches Ok((s, d)) && s == self@ && d
                            == drain@);
                        Ok(())
                    },
                }
            },
            Err(error) => {
                match self.reject_at(id, error.message.as_str(), false, now) {
                    Err(e) => {
                        assert(record_step(old(self)@, d0, delivery, now) matches Err(x) && x == e@);
                        Err(e)
                    },
                    Ok(()) => {
                        drain.in_flight = None;
                        drain.report.interrupted = true;
                        assert(record_step(old(self)@, d0, delivery, now) matches Ok((s, d)) && s == self@ && d
                            == drain@);
                        Ok(())
                    },
                }
            },
        }
    }
}

} // verus!

verus! {

/// A transport failure, or a transient rejection, requeues the command in
/// flight for a retry and ends the pass: nothing else in the store changes,
/// and the pass then yields no further command and touches nothing, so every
/// later command is left for a future contact.
pub proof fn law_transient_failure_stops_the_drain(s: StoreView, d: DrainView, delivery: Delivery, now: i64, later: i64)
    requires
        store_wf(s),
        drain_wf(d),
        d.in_flight is Some,
        record_position(s.outbox, d.in_flight->0) is Some,
        delivery is TransportFailed || (delivery matches Delivery::Rejected(_, permanent) && !permanent),
    ensures
        ({
            let k = record_position(s.outbox, d.in_flight->0)->0;
            &&& record_step(s, d, delivery, now) is Ok
            &&& record_step(s, d, delivery, now) matches Ok((ns, nd)) && {
                &&& ns.outbox[k].entry.status == OutboxStatus::Retry
                &&& ns.outbox.len() == s.outbox.len()
                &&& forall|j: int| 0 <= j < s.outbox.len() && j != k ==> ns.outbox[j] == s.outbox[j]
                &&& ns.documents == s.documents
                &&& ns.events == s.events
                &&& nd.report.interrupted
                &&& nd.in_flight is None
                &&& next_step(ns, nd, later) == Ok::<(StoreView, DrainView, Option<CommandView>), ErrorView>(
                    (ns, nd, None),
                )
            }
        }),
{
}

/// A permanent rejection is recorded and counted, and the pass goes on to the
/// next command.
pub proof fn law_permanent_rejection_continues_the_drain(s: StoreView, d: DrainView, reason: Seq<char>, now: i64)
    requires
        store_wf(s),
        drain_wf(d),
        d.in_flight is Some,
        !d.report.interrupted,
        record_position(s.outbox, d.in_flight->0) is Some,
    ensures
        record_step(s, d, Delivery::Rejected(reason, true), now) matches Ok((ns, nd)) && {
            &&& ns.outbox[record_position(s.outbox, d.in_flight->0)->0].entry.status == OutboxStatus::Rejected
            &&& nd.report.rejected == d.report.rejected + 1
            &&& !nd.report.interrupted
            &&& nd.position == d.position
        },
{
}

} // verus!
