use std::cell::Cell;

use ncc::relay::{BaseResponse, RelayReport, TransportError};
use ncc::warpcore::{
    OutboxStatus, SaveIntent, SaveOperation, ServerSaveCommand, WarpCore, WarpCoreError,
    WarpCoreStatus,
};

fn reopen(core: &WarpCore) -> Result<WarpCore, WarpCoreError> {
    WarpCore::restore(
        core.ship_id(),
        core.documents().clone(),
        core.ship_events().clone(),
        core.outbox_records().clone(),
        core.next_sequence(),
    )
}

#[test]
fn local_save_and_server_command_commit_together() {
    let mut core = WarpCore::open_in_memory("ship-alpha").unwrap();
    let command = core
        .save(SaveIntent::upsert(
            "missions",
            "mission-1",
            r#"{"title":"Audit the system"}"#,
        ))
        .unwrap();

    let document = core.document("missions", "mission-1").unwrap().unwrap();
    let pending = core.pending_commands(10).unwrap();

    assert_eq!(document.local_version, 1);
    assert!(document.dirty);
    assert_eq!(pending.len(), 1);
    assert_eq!(pending[0].command, command);
}

#[test]
fn interrupted_transmission_recovers_after_restart() {
    let mut core = WarpCore::open_in_memory("ship-alpha").unwrap();
    let command = core
        .save(SaveIntent::upsert("logs", "entry-1", r#"{"text":"hello"}"#))
        .unwrap();
    let command_id = command.command_id;
    core.mark_transmitting(command_id).unwrap();
    assert_eq!(core.status().unwrap().transmitting, 1);

    let recovered = reopen(&core).unwrap();
    assert_eq!(recovered.status().unwrap().queued, 1);
    assert_eq!(recovered.status().unwrap().transmitting, 0);
    assert_eq!(
        recovered.pending_commands(1).unwrap()[0].command.command_id,
        command_id
    );
    assert_eq!(recovered.pending_commands(1).unwrap()[0].attempts, 1);
}

#[test]
fn acknowledging_an_old_command_does_not_clean_a_newer_save() {
    let mut core = WarpCore::open_in_memory("ship-alpha").unwrap();
    let old = core
        .save(SaveIntent::upsert("crew", "data", r#"{"model":"a"}"#))
        .unwrap();
    core.save(SaveIntent::upsert("crew", "data", r#"{"model":"b"}"#))
        .unwrap();

    core.acknowledge(old.command_id, Some("base-revision-1"))
        .unwrap();

    let document = core.document("crew", "data").unwrap().unwrap();
    assert_eq!(document.local_version, 2);
    assert!(document.dirty);
    assert_eq!(document.document.as_deref(), Some(r#"{"model":"b"}"#));
}

#[test]
fn permanent_rejection_does_not_block_later_commands() {
    let mut core = WarpCore::open_in_memory("ship-alpha").unwrap();
    let rejected = core
        .save(SaveIntent::upsert("crew", "worf", r#"{"model":"a"}"#))
        .unwrap();
    let later = core
        .save(SaveIntent::upsert("crew", "data", r#"{"model":"b"}"#))
        .unwrap();

    core.reject(rejected.command_id, "base refused command", true)
        .unwrap();

    let pending = core.pending_commands(10).unwrap();
    assert_eq!(pending.len(), 1);
    assert_eq!(pending[0].command.command_id, later.command_id);
    assert_eq!(core.status().unwrap().rejected, 1);
}

/// Drives one relay pass, handing each command to `transmit`.
fn relay_once(
    core: &mut WarpCore,
    batch_size: u32,
    mut transmit: impl FnMut(&ServerSaveCommand) -> Result<BaseResponse, TransportError>,
) -> Result<RelayReport, WarpCoreError> {
    let mut drain = core.begin_relay(batch_size)?;
    while let Some(command) = core.relay_next(&mut drain)? {
        let outcome = transmit(&command);
        core.relay_record(&mut drain, outcome)?;
    }
    Ok(drain.report())
}

#[test]
fn transport_failure_stops_drain_without_touching_later_commands() {
    let mut core = WarpCore::open_in_memory("ship-alpha").unwrap();
    core.save(SaveIntent::upsert("logs", "one", r#"{"value":1}"#))
        .unwrap();
    core.save(SaveIntent::upsert("logs", "two", r#"{"value":2}"#))
        .unwrap();
    let calls = Cell::new(0usize);

    let report = relay_once(&mut core, 10, |_| {
        calls.set(calls.get() + 1);
        Err(TransportError { message: "subspace unavailable".into() })
    })
    .unwrap();

    assert_eq!(report.attempted, 1);
    assert!(report.interrupted);
    assert_eq!(calls.get(), 1);
    assert_eq!(core.status().unwrap().retry, 1);
    assert_eq!(core.status().unwrap().queued, 1);
    let pending = core.pending_commands(10).unwrap();
    assert_eq!(pending[0].last_error.as_deref(), Some("subspace unavailable"));
    assert_eq!(pending[0].status, OutboxStatus::Retry);
}

#[test]
fn a_successful_relay_acknowledges_every_command_in_order() {
    let mut core = WarpCore::open_in_memory("ship-alpha").unwrap();
    let first = core.save(SaveIntent::upsert("logs", "one", "1")).unwrap();
    let second = core.save(SaveIntent::upsert("logs", "two", "2")).unwrap();
    let mut seen = Vec::new();
    let report = relay_once(&mut core, 10, |command| {
        seen.push(command.command_id);
        Ok(BaseResponse::Acknowledged { base_revision: Some("r".into()) })
    })
    .unwrap();
    assert_eq!(seen, vec![first.command_id, second.command_id]);
    assert_eq!(
        report,
        RelayReport { attempted: 2, acknowledged: 2, rejected: 0, interrupted: false }
    );
    let status = core.status().unwrap();
    assert_eq!(status.acknowledged, 2);
    assert_eq!(status.dirty_documents, 0);
    assert!(core.pending_commands(10).unwrap().is_empty());
    assert_eq!(core.outbox_records()[0].base_revision.as_deref(), Some("r"));
}

#[test]
fn permanent_rejection_continues_and_transient_rejection_stops() {
    let mut core = WarpCore::open_in_memory("ship-alpha").unwrap();
    core.save(SaveIntent::upsert("a", "1", "1")).unwrap();
    core.save(SaveIntent::upsert("a", "2", "2")).unwrap();
    core.save(SaveIntent::upsert("a", "3", "3")).unwrap();
    let mut replies = vec![
        Ok(BaseResponse::Rejected { reason: "no".into(), permanent: true }),
        Ok(BaseResponse::Rejected { reason: "later".into(), permanent: false }),
        Ok(BaseResponse::Acknowledged { base_revision: None }),
    ]
    .into_iter();
    let report = relay_once(&mut core, 10, |_| replies.next().unwrap()).unwrap();
    assert_eq!(
        report,
        RelayReport { attempted: 2, acknowledged: 0, rejected: 2, interrupted: true }
    );
    let status = core.status().unwrap();
    assert_eq!((status.rejected, status.retry, status.queued), (1, 1, 1));
}

#[test]
fn the_batch_size_bounds_a_relay_pass() {
    let mut core = WarpCore::open_in_memory("ship-alpha").unwrap();
    for id in ["1", "2", "3"] {
        core.save(SaveIntent::upsert("a", id, "{}")).unwrap();
    }
    let report = relay_once(&mut core, 2, |_| {
        Ok(BaseResponse::Acknowledged { base_revision: None })
    })
    .unwrap();
    assert_eq!(report.attempted, 2);
    assert_eq!(core.status().unwrap().queued, 1);
    assert!(core.pending_commands(0).unwrap().is_empty());
    assert_eq!(core.pending_commands(1).unwrap().len(), 1);
}

#[test]
fn version_conflicts_are_refused_and_change_nothing() {
    let mut core = WarpCore::open_in_memory("ship-alpha").unwrap();
    core.save(SaveIntent::upsert("crew", "data", "{}")).unwrap();
    let mut intent = SaveIntent::upsert("crew", "data", "[]");
    intent.expected_local_version = Some(0);
    assert_eq!(
        core.save(intent),
        Err(WarpCoreError::VersionConflict { expected: 0, actual: 1 })
    );
    let mut intent = SaveIntent::upsert("crew", "data", "[]");
    intent.expected_local_version = Some(1);
    let command = core.save(intent).unwrap();
    assert_eq!(command.local_version, 2);
    assert_eq!(command.event_sequence, 2);
    assert_eq!(core.ship_events().len(), 2);
    let mut fresh = SaveIntent::upsert("crew", "worf", "{}");
    fresh.expected_local_version = Some(0);
    assert_eq!(core.save(fresh).unwrap().local_version, 1);
}

#[test]
fn invalid_intents_are_refused() {
    let mut core = WarpCore::open_in_memory("ship-alpha").unwrap();
    assert_eq!(
        core.save(SaveIntent::upsert(" ", "x", "{}")),
        Err(WarpCoreError::InvalidIntent("collection must not be empty"))
    );
    assert_eq!(
        core.save(SaveIntent::upsert("c", "", "{}")),
        Err(WarpCoreError::InvalidIntent("entity id must not be empty"))
    );
    let mut upsert = SaveIntent::upsert("c", "x", "{}");
    upsert.document = None;
    assert_eq!(
        core.save(upsert),
        Err(WarpCoreError::InvalidIntent("upsert requires a document"))
    );
    let mut delete = SaveIntent::upsert("c", "x", "{}");
    delete.operation = SaveOperation::Delete;
    assert_eq!(
        core.save(delete),
        Err(WarpCoreError::InvalidIntent("delete must not contain a document"))
    );
    assert_eq!(core.status().unwrap().queued, 0);
    assert!(core.ship_events().is_empty());
}

#[test]
fn deletes_keep_a_dirty_tombstone() {
    let mut core = WarpCore::open_in_memory("ship-alpha").unwrap();
    core.save(SaveIntent::upsert("c", "x", "{}")).unwrap();
    let delete = SaveIntent {
        collection: "c".into(),
        entity_id: "x".into(),
        operation: SaveOperation::Delete,
        document: None,
        expected_local_version: None,
    };
    let command = core.save(delete).unwrap();
    assert_eq!(command.operation, SaveOperation::Delete);
    let document = core.document("c", "x").unwrap().unwrap();
    assert!(document.deleted);
    assert!(document.dirty);
    assert_eq!(document.document, None);
    assert_eq!(document.local_version, 2);
    assert!(core.document("c", "y").unwrap().is_none());
}

#[test]
fn unknown_commands_are_reported_by_their_uuid() {
    let mut core = WarpCore::open_in_memory("ship-alpha").unwrap();
    let id: u128 = 0xa1a2a3a4_b1b2_c1c2_d1d2_d3d4d5d6d7d8;
    let text = "a1a2a3a4-b1b2-c1c2-d1d2-d3d4d5d6d7d8".to_string();
    assert_eq!(uuid::Uuid::from_u128(id).to_string(), text);
    assert_eq!(core.mark_transmitting(id), Err(WarpCoreError::UnknownCommand(text.clone())));
    assert_eq!(core.acknowledge(id, None), Err(WarpCoreError::UnknownCommand(text.clone())));
    assert_eq!(core.reject(id, "x", true), Err(WarpCoreError::UnknownCommand(text)));
    assert_eq!(
        core.mark_transmitting(0),
        Err(WarpCoreError::UnknownCommand("00000000-0000-0000-0000-000000000000".into()))
    );
}

#[test]
fn command_ids_are_version_four_uuids() {
    let mut core = WarpCore::open_in_memory("ship-alpha").unwrap();
    let a = core.save(SaveIntent::upsert("c", "x", "{}")).unwrap();
    let b = core.save(SaveIntent::upsert("c", "y", "{}")).unwrap();
    assert_ne!(a.command_id, b.command_id);
    assert_eq!((a.command_id >> 76) & 0xf, 4);
    assert_eq!((a.command_id >> 62) & 0x3, 2);
    assert_eq!(a.ship_id, "ship-alpha");
    assert!(b.occurred_at_ms >= a.occurred_at_ms);
    assert!(a.occurred_at_ms > 1_600_000_000_000);
}

#[test]
fn ship_ids_must_not_be_blank() {
    assert_eq!(
        WarpCore::open_in_memory(" ").err(),
        Some(WarpCoreError::InvalidIntent("ship id must not be empty"))
    );
    assert_eq!(WarpCore::open_in_memory("ship-alpha").unwrap().ship_id(), "ship-alpha");
}

#[test]
fn persisted_state_opens_as_it_was_stored() {
    let mut core = WarpCore::open_in_memory("ship-alpha").unwrap();
    core.save(SaveIntent::upsert("c", "x", "{}")).unwrap();
    let mut twice = core.documents().clone();
    twice.push(twice[0].clone());
    let mut restored = WarpCore::restore(
        "ship-alpha",
        twice,
        core.ship_events().clone(),
        core.outbox_records().clone(),
        core.next_sequence(),
    )
    .unwrap();
    assert_eq!(restored.documents().len(), 2);
    assert_eq!(restored.document("c", "x").unwrap().unwrap().local_version, 1);
    let command = restored.save(SaveIntent::upsert("c", "x", r#"{"v":2}"#)).unwrap();
    assert_eq!(command.local_version, 2);
    assert_eq!(command.event_sequence, 2);
    assert_eq!(restored.documents()[0].local_version, 2);
    assert_eq!(restored.documents()[1].local_version, 1);
    assert_eq!(restored.status().unwrap().queued, 2);
    assert_eq!(restored.status().unwrap().dirty_documents, 2);
}

#[test]
fn status_names_round_trip() {
    for status in [
        OutboxStatus::Queued,
        OutboxStatus::Transmitting,
        OutboxStatus::Retry,
        OutboxStatus::Acknowledged,
        OutboxStatus::Rejected,
    ] {
        assert_eq!(OutboxStatus::from_name(status.name()), Some(status));
    }
    assert_eq!(OutboxStatus::Retry.name(), "retry");
    assert_eq!(OutboxStatus::from_name("lost"), None);
}

#[test]
fn warp_core_error_reports() {
    assert_eq!(
        WarpCoreError::VersionConflict { expected: 0, actual: 120 }.message(),
        "local version conflict: expected 0, found 120"
    );
    assert_eq!(
        WarpCoreError::VersionConflict { expected: u64::MAX, actual: 9 }.message(),
        "local version conflict: expected 18446744073709551615, found 9"
    );
    assert_eq!(
        WarpCoreError::InvalidIntent("upsert requires a document").message(),
        "invalid save intent: upsert requires a document"
    );
    assert_eq!(
        WarpCoreError::UnknownCommand("x".into()).message(),
        "unknown outbound command: x"
    );
    assert_eq!(WarpCoreError::Poisoned.message(), "Warp Core database lock is poisoned");
    assert_eq!(WarpCoreError::Database("full".into()).message(), "database error: full");
    assert_eq!(
        WarpCoreError::Serialization("bad".into()).message(),
        "serialization error: bad"
    );
    assert_eq!(TransportError { message: "down".into() }.message(), "down");
}

#[test]
fn delivery_state_changes_never_touch_the_command_envelope() {
    let mut core = WarpCore::open_in_memory("ship-alpha").unwrap();
    let command = core.save(SaveIntent::upsert("c", "x", r#"{"a":1}"#)).unwrap();
    let events_before = core.ship_events().clone();
    core.mark_transmitting(command.command_id).unwrap();
    core.reject(command.command_id, "later", false).unwrap();
    core.mark_transmitting(command.command_id).unwrap();
    core.acknowledge(command.command_id, None).unwrap();
    let record = &core.outbox_records()[0];
    assert_eq!(record.entry.command, command);
    assert_eq!(record.entry.attempts, 2);
    assert_eq!(record.entry.status, OutboxStatus::Acknowledged);
    assert_eq!(record.entry.last_error, None);
    assert!(record.acknowledged_at_ms.is_some());
    assert_eq!(core.ship_events(), &events_before);
    assert_eq!(core.ship_events()[0].sequence, command.event_sequence);
    assert!(!core.document("c", "x").unwrap().unwrap().dirty);
}

#[test]
fn default_status_counts_nothing() {
    let status = WarpCoreStatus::default();
    assert_eq!(
        status,
        WarpCoreStatus { queued: 0, transmitting: 0, retry: 0, acknowledged: 0, rejected: 0, dirty_documents: 0 }
    );
    let core = WarpCore::open_in_memory("ship-alpha").unwrap();
    assert_eq!(core.status().unwrap(), status);
}

#[test]
fn a_mixed_history_keeps_sequences_versions_and_counts() {
    let mut core = WarpCore::open_in_memory("ship-alpha").unwrap();
    let first = core.save(SaveIntent::upsert("crew", "data", r#"{"model":"a"}"#)).unwrap();
    let other = core.save(SaveIntent::upsert("crew", "worf", r#"{"model":"b"}"#)).unwrap();
    core.mark_transmitting(first.command_id).unwrap();
    core.reject(first.command_id, "busy", false).unwrap();
    core.acknowledge(other.command_id, Some("rev-1")).unwrap();
    let last = core.save(SaveIntent::upsert("crew", "data", r#"{"model":"c"}"#)).unwrap();
    core.mark_transmitting(last.command_id).unwrap();
    core.acknowledge(first.command_id, None).unwrap();
    let mut core = reopen(&core).unwrap();
    assert!(core.save(SaveIntent::upsert(" ", "x", "{}")).is_err());

    assert_eq!(
        [first.event_sequence, other.event_sequence, last.event_sequence],
        [1, 2, 3]
    );
    assert_ne!(first.command_id, last.command_id);
    assert_eq!(core.next_sequence(), 4);
    assert_eq!(core.ship_events().len(), 3);

    let data = core.document("crew", "data").unwrap().unwrap();
    assert_eq!(data.local_version, 2);
    assert_eq!(data.local_version, last.local_version);
    assert_eq!(data.document.as_deref(), Some(r#"{"model":"c"}"#));
    assert!(data.dirty);
    assert_eq!(data.updated_at_ms, last.occurred_at_ms);
    assert_eq!(core.document("crew", "worf").unwrap().unwrap().local_version, 1);
    assert!(!core.document("crew", "worf").unwrap().unwrap().dirty);

    let status = core.status().unwrap();
    assert_eq!(status.queued, 1);
    assert_eq!(status.acknowledged, 2);
    assert_eq!(
        status.queued + status.transmitting + status.retry + status.acknowledged + status.rejected,
        3
    );
    assert_eq!(status.dirty_documents, 1);
}
