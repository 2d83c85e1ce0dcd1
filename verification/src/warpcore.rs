//! The Warp Core: the endpoint's local-first operating state. A save stores
//! the local document, appends the ship event log and queues an idempotent
//! server-save command, all in one step; delivery to base happens later, in
//! ship-log order, through the outbox.

use vstd::prelude::*;

use crate::ids::{now_ms, random_uuid, uuid_hyphenated, uuid_text};
use crate::text::{blank, decimal, decimal_text, is_blank};

verus! {

/// The text of an optional string.
pub open spec fn opt_text(o: Option<String>) -> Option<Seq<char>> {
    match o {
        Some(s) => Some(s@),
        None => None,
    }
}

fn clone_opt(o: &Option<String>) -> (r: Option<String>)
    ensures
        r == *o,
{
    match o {
        Some(s) => Some(s.clone()),
        None => None,
    }
}

#[derive(Clone, Copy, Debug, PartialEq, Eq, Structural)]
pub enum SaveOperation {
    Upsert,
    Delete,
}

/// A save intent as the contracts see it.
pub struct IntentView {
    pub collection: Seq<char>,
    pub entity_id: Seq<char>,
    pub operation: SaveOperation,
    pub document: Option<Seq<char>>,
    pub expected_local_version: Option<u64>,
}

/// An owner's request to store (or delete) one document. The document is
/// held as its JSON text.
#[derive(Debug, PartialEq)]
pub struct SaveIntent {
    pub collection: String,
    pub entity_id: String,
    pub operation: SaveOperation,
    pub document: Option<String>,
    /// Optimistic local concurrency check. Omit for last-local-writer-wins.
    pub expected_local_version: Option<u64>,
}

impl View for SaveIntent {
    type V = IntentView;

    open spec fn view(&self) -> IntentView {
        IntentView {
            collection: self.collection@,
            entity_id: self.entity_id@,
            operation: self.operation,
            document: opt_text(self.document),
            expected_local_version: self.expected_local_version,
        }
    }
}

impl SaveIntent {
    pub fn upsert(collection: &str, entity_id: &str, document: &str) -> (r: Self)
        ensures
            r@ == (IntentView {
                collection: collection@,
                entity_id: entity_id@,
                operation: SaveOperation::Upsert,
                document: Some(document@),
                expected_local_version: None,
            }),
    {
        SaveIntent {
            collection: collection.to_owned(),
            entity_id: entity_id.to_owned(),
            operation: SaveOperation::Upsert,
            document: Some(document.to_owned()),
            expected_local_version: None,
        }
    }
}

/// A server-save command as the contracts see it.
pub struct CommandView {
    pub command_id: u128,
    pub ship_id: Seq<char>,
    pub event_sequence: u64,
    pub collection: Seq<char>,
    pub entity_id: Seq<char>,
    pub operation: SaveOperation,
    pub document: Option<Seq<char>>,
    pub local_version: u64,
    pub occurred_at_ms: i64,
}

/// The stable command envelope transmitted to base. `command_id` is the
/// 128-bit value of the command's UUID.
#[derive(Debug, PartialEq, Eq)]
pub struct ServerSaveCommand {
    pub command_id: u128,
    pub ship_id: String,
    pub event_sequence: u64,
    pub collection: String,
    pub entity_id: String,
    pub operation: SaveOperation,
    pub document: Option<String>,
    pub local_version: u64,
    pub occurred_at_ms: i64,
}

impl View for ServerSaveCommand {
    type V = CommandView;

    open spec fn view(&self) -> CommandView {
        CommandView {
            command_id: self.command_id,
            ship_id: self.ship_id@,
            event_sequence: self.event_sequence,
            collection: self.collection@,
            entity_id: self.entity_id@,
            operation: self.operation,
            document: opt_text(self.document),
            local_version: self.local_version,
            occurred_at_ms: self.occurred_at_ms,
        }
    }
}

impl Clone for ServerSaveCommand {
    fn clone(&self) -> (r: Self)
        ensures
            r == *self,
    {
        ServerSaveCommand {
            command_id: self.command_id,
            ship_id: self.ship_id.clone(),
            event_sequence: self.event_sequence,
            collection: self.collection.clone(),
            entity_id: self.entity_id.clone(),
            operation: self.operation,
            document: clone_opt(&self.document),
            local_version: self.local_version,
            occurred_at_ms: self.occurred_at_ms,
        }
    }
}

/// A stored document as the contracts see it.
pub struct DocumentView {
    pub collection: Seq<char>,
    pub entity_id: Seq<char>,
    pub document: Option<Seq<char>>,
    pub local_version: u64,
    pub dirty: bool,
    pub deleted: bool,
    pub updated_at_ms: i64,
}

/// The ship's current local copy of one document.
#[derive(Debug, PartialEq, Eq)]
pub struct LocalDocument {
    pub collection: String,
    pub entity_id: String,
    pub document: Option<String>,
    pub local_version: u64,
    pub dirty: bool,
    pub deleted: bool,
    pub updated_at_ms: i64,
}

impl View for LocalDocument {
    type V = DocumentView;

    open spec fn view(&self) -> DocumentView {
        DocumentView {
            collection: self.collection@,
            entity_id: self.entity_id@,
            document: opt_text(self.document),
            local_version: self.local_version,
            dirty: self.dirty,
            deleted: self.deleted,
            updated_at_ms: self.updated_at_ms,
        }
    }
}

impl Clone for LocalDocument {
    fn clone(&self) -> (r: Self)
        ensures
            r == *self,
    {
        LocalDocument {
            collection: self.collection.clone(),
            entity_id: self.entity_id.clone(),
            document: clone_opt(&self.document),
            local_version: self.local_version,
            dirty: self.dirty,
            deleted: self.deleted,
            updated_at_ms: self.updated_at_ms,
        }
    }
}

#[derive(Clone, Copy, Debug, PartialEq, Eq, Structural)]
pub enum OutboxStatus {
    Queued,
    Transmitting,
    Retry,
    Acknowledged,
    Rejected,
}

impl OutboxStatus {
    /// The stored name of this status.
    pub fn name(&self) -> (r: &'static str)
        ensures
            r@ == status_name(*self),
    {
        match self {
            OutboxStatus::Queued => "queued",
            OutboxStatus::Transmitting => "transmitting",
            OutboxStatus::Retry => "retry",
            OutboxStatus::Acknowledged => "acknowledged",
            OutboxStatus::Rejected => "rejected",
        }
    }

    /// The status with stored name `name`, if any.
    pub fn from_name(name: &str) -> (r: Option<OutboxStatus>)
        ensures
            r is Some <==> exists|s: OutboxStatus| status_name(s) == name@,
            r matches Some(s) ==> status_name(s) == name@,
    {
        proof {
            reveal_strlit("queued");
            reveal_strlit("transmitting");
            reveal_strlit("retry");
            reveal_strlit("acknowledged");
            reveal_strlit("rejected");
        }
        let n = name.to_owned();
        if n == String::from_str("queued") {
            assert(status_name(OutboxStatus::Queued) == name@);
            Some(OutboxStatus::Queued)
        } else if n == String::from_str("transmitting") {
            assert(status_name(OutboxStatus::Transmitting) == name@);
            Some(OutboxStatus::Transmitting)
        } else if n == String::from_str("retry") {
            assert(status_name(OutboxStatus::Retry) == name@);
            Some(OutboxStatus::Retry)
        } else if n == String::from_str("acknowledged") {
            assert(status_name(OutboxStatus::Acknowledged) == name@);
            Some(OutboxStatus::Acknowledged)
        } else if n == String::from_str("rejected") {
            assert(status_name(OutboxStatus::Rejected) == name@);
            Some(OutboxStatus::Rejected)
        } else {
            proof {
                assert forall|s: OutboxStatus| status_name(s) != name@ by {
                    match s {
                        OutboxStatus::Queued => {},
                        OutboxStatus::Transmitting => {},
                        OutboxStatus::Retry => {},
                        OutboxStatus::Acknowledged => {},
                        OutboxStatus::Rejected => {},
                    }
                }
            }
            None
        }
    }
}

/// The stored name of a status.
pub open spec fn status_name(s: OutboxStatus) -> Seq<char> {
    match s {
        OutboxStatus::Queued => "queued"@,
        OutboxStatus::Transmitting => "transmitting"@,
        OutboxStatus::Retry => "retry"@,
        OutboxStatus::Acknowledged => "acknowledged"@,
        OutboxStatus::Rejected => "rejected"@,
    }
}

/// An outbox entry as the contracts see it.
pub struct EntryView {
    pub command: CommandView,
    pub status: OutboxStatus,
    pub attempts: u32,
    pub last_error: Option<Seq<char>>,
}

/// One queued server-save command and its delivery state.
#[derive(Debug, PartialEq, Eq)]
pub struct OutboxEntry {
    pub command: ServerSaveCommand,
    pub status: OutboxStatus,
    pub attempts: u32,
    pub last_error: Option<String>,
}

impl View for OutboxEntry {
    type V = EntryView;

    open spec fn view(&self) -> EntryView {
        EntryView {
            command: self.command@,
            status: self.status,
            attempts: self.attempts,
            last_error: opt_text(self.last_error),
        }
    }
}

impl Clone for OutboxEntry {
    fn clone(&self) -> (r: Self)
        ensures
            r == *self,
    {
        OutboxEntry {
            command: self.command.clone(),
            status: self.status,
            attempts: self.attempts,
            last_error: clone_opt(&self.last_error),
        }
    }
}

/// An outbox record as the contracts see it.
pub struct RecordView {
    pub entry: EntryView,
    pub base_revision: Option<Seq<char>>,
    pub created_at_ms: i64,
    pub updated_at_ms: i64,
    pub acknowledged_at_ms: Option<i64>,
}

/// An outbox entry with the bookkeeping the outbox keeps beside it.
#[derive(Clone, Debug, PartialEq, Eq)]
pub struct OutboxRecord {
    pub entry: OutboxEntry,
    pub base_revision: Option<String>,
    pub created_at_ms: i64,
    pub updated_at_ms: i64,
    pub acknowledged_at_ms: Option<i64>,
}

impl View for OutboxRecord {
    type V = RecordView;

    open spec fn view(&self) -> RecordView {
        RecordView {
            entry: self.entry@,
            base_revision: opt_text(self.base_revision),
            created_at_ms: self.created_at_ms,
            updated_at_ms: self.updated_at_ms,
            acknowledged_at_ms: self.acknowledged_at_ms,
        }
    }
}

/// A ship-log event as the contracts see it.
pub struct ShipEventView {
    pub sequence: u64,
    pub event_id: u128,
    pub collection: Seq<char>,
    pub entity_id: Seq<char>,
    pub operation: SaveOperation,
    pub document: Option<Seq<char>>,
    pub local_version: u64,
    pub occurred_at_ms: i64,
}

/// One entry of the append-only ship event log.
#[derive(Clone, Debug, PartialEq, Eq)]
pub struct ShipEvent {
    pub sequence: u64,
    pub event_id: u128,
    pub collection: String,
    pub entity_id: String,
    pub operation: SaveOperation,
    pub document: Option<String>,
    pub local_version: u64,
    pub occurred_at_ms: i64,
}

impl View for ShipEvent {
    type V = ShipEventView;

    open spec fn view(&self) -> ShipEventView {
        ShipEventView {
            sequence: self.sequence,
            event_id: self.event_id,
            collection: self.collection@,
            entity_id: self.entity_id@,
            operation: self.operation,
            document: opt_text(self.document),
            local_version: self.local_version,
            occurred_at_ms: self.occurred_at_ms,
        }
    }
}

/// Counts of outbox entries by status, and of documents not yet
/// acknowledged by base.
#[derive(Clone, Copy, Debug, PartialEq, Eq)]
pub struct WarpCoreStatus {
    pub queued: u64,
    pub transmitting: u64,
    pub retry: u64,
    pub acknowledged: u64,
    pub rejected: u64,
    pub dirty_documents: u64,
}

impl Default for WarpCoreStatus {
    /// No commands and no dirty documents.
    fn default() -> (r: Self)
        ensures
            r.queued == 0,
            r.transmitting == 0,
            r.retry == 0,
            r.acknowledged == 0,
            r.rejected == 0,
            r.dirty_documents == 0,
    {
        WarpCoreStatus { queued: 0, transmitting: 0, retry: 0, acknowledged: 0, rejected: 0, dirty_documents: 0 }
    }
}

/// An error as the contracts see it.
pub enum ErrorView {
    Database(Seq<char>),
    Serialization(Seq<char>),
    Poisoned,
    InvalidIntent(Seq<char>),
    VersionConflict { expected: u64, actual: u64 },
    UnknownCommand(Seq<char>),
}

/// Why a Warp Core operation failed. Storage failures carry the storage
/// engine's report.
#[derive(Debug, PartialEq, Eq)]
pub enum WarpCoreError {
    Database(String),
    Serialization(String),
    Poisoned,
    InvalidIntent(&'static str),
    VersionConflict { expected: u64, actual: u64 },
    UnknownCommand(String),
}

impl View for WarpCoreError {
    type V = ErrorView;

    open spec fn view(&self) -> ErrorView {
        match self {
            WarpCoreError::Database(t) => ErrorView::Database(t@),
            WarpCoreError::Serialization(t) => ErrorView::Serialization(t@),
            WarpCoreError::Poisoned => ErrorView::Poisoned,
            WarpCoreError::InvalidIntent(t) => ErrorView::InvalidIntent(t@),
            WarpCoreError::VersionConflict { expected, actual } => ErrorView::VersionConflict {
                expected: *expected,
                actual: *actual,
            },
            WarpCoreError::UnknownCommand(t) => ErrorView::UnknownCommand(t@),
        }
    }
}

/// The human-readable report of an error.
pub open spec fn error_text(e: ErrorView) -> Seq<char> {
    match e {
        ErrorView::Database(t) => "database error: "@ + t,
        ErrorView::Serialization(t) => "serialization error: "@ + t,
        ErrorView::Poisoned => "Warp Core database lock is poisoned"@,
        ErrorView::InvalidIntent(t) => "invalid save intent: "@ + t,
        ErrorView::VersionConflict { expected, actual } => "local version conflict: expected "@ + decimal_text(
            expected as nat,
        ) + ", found "@ + decimal_text(actual as nat),
        ErrorView::UnknownCommand(t) => "unknown outbound command: "@ + t,
    }
}

impl WarpCoreError {
    /// The human-readable report of this error.
    pub fn message(&self) -> (r: String)
        ensures
            r@ == error_text(self@),
    {
        match self {
            WarpCoreError::Database(t) => {
                let mut r = String::from_str("database error: ");
                r.append(t.as_str());
                r
            },
            WarpCoreError::Serialization(t) => {
                let mut r = String::from_str("serialization error: ");
                r.append(t.as_str());
                r
            },
            WarpCoreError::Poisoned => String::from_str("Warp Core database lock is poisoned"),
            WarpCoreError::InvalidIntent(t) => {
                let mut r = String::from_str("invalid save intent: ");
                r.append(t);
                r
            },
            WarpCoreError::VersionConflict { expected, actual } => {
                let mut r = String::from_str("local version conflict: expected ");
                let e = decimal(*expected);
                r.append(e.as_str());
                r.append(", found ");
                let a = decimal(*actual);
                r.append(a.as_str());
                r
            },
            WarpCoreError::UnknownCommand(t) => {
                let mut r = String::from_str("unknown outbound command: ");
                r.append(t.as_str());
                r
            },
        }
    }
}

/// The whole store as the contracts see it.
pub struct StoreView {
    pub ship_id: Seq<char>,
    pub documents: Seq<DocumentView>,
    pub events: Seq<ShipEventView>,
    pub outbox: Seq<RecordView>,
    pub next_sequence: u64,
}

/// The store's invariant: document keys and command ids are unique, the ship
/// log and the outbox are in strictly increasing sequence order below the
/// next sequence number, and every local version is below it too.
pub open spec fn store_wf(s: StoreView) -> bool {
    &&& 1 <= s.next_sequence <= i64::MAX
    &&& forall|i: int, j: int|
        0 <= i < j < s.documents.len() ==> !same_key(#[trigger] s.documents[i], #[trigger] s.documents[j])
    &&& forall|i: int| 0 <= i < s.documents.len() ==> (#[trigger] s.documents[i]).local_version < s.next_sequence
    &&& forall|i: int, j: int|
        0 <= i < j < s.events.len() ==> (#[trigger] s.events[i]).sequence < (#[trigger] s.events[j]).sequence
    &&& forall|i: int| 0 <= i < s.events.len() ==> (#[trigger] s.events[i]).sequence < s.next_sequence
    &&& forall|i: int, j: int|
        0 <= i < j < s.outbox.len() ==> (#[trigger] s.outbox[i]).entry.command.event_sequence < (
        #[trigger] s.outbox[j]).entry.command.event_sequence && s.outbox[i].entry.command.command_id
            != s.outbox[j].entry.command.command_id
    &&& forall|i: int| 0 <= i < s.outbox.len() ==> (#[trigger] s.outbox[i]).entry.command.event_sequence < s.next_sequence
}

pub open spec fn same_key(a: DocumentView, b: DocumentView) -> bool {
    a.collection == b.collection && a.entity_id == b.entity_id
}

/// Document `i` is the first one stored under (`collection`, `entity_id`).
pub open spec fn is_first_doc(docs: Seq<DocumentView>, collection: Seq<char>, entity_id: Seq<char>, i: int) -> bool {
    &&& 0 <= i < docs.len()
    &&& docs[i].collection == collection
    &&& docs[i].entity_id == entity_id
    &&& forall|j: int| #![trigger docs[j]] 0 <= j < i ==> !(docs[j].collection == collection && docs[j].entity_id == entity_id)
}

/// The position of the document with key (`collection`, `entity_id`): the
/// first one, should the key occur more than once.
pub open spec fn doc_position(docs: Seq<DocumentView>, collection: Seq<char>, entity_id: Seq<char>) -> Option<int> {
    if exists|i: int| is_first_doc(docs, collection, entity_id, i) {
        Some(choose|i: int| is_first_doc(docs, collection, entity_id, i))
    } else {
        None
    }
}

/// Record `i` is the first one that carries `command_id`.
pub open spec fn is_first_record(outbox: Seq<RecordView>, command_id: u128, i: int) -> bool {
    &&& 0 <= i < outbox.len()
    &&& outbox[i].entry.command.command_id == command_id
    &&& forall|j: int| 0 <= j < i ==> (#[trigger] outbox[j]).entry.command.command_id != command_id
}

/// The position of the outbox record for `command_id`: the first one, should
/// the id occur more than once.
pub open spec fn record_position(outbox: Seq<RecordView>, command_id: u128) -> Option<int> {
    if exists|i: int| is_first_record(outbox, command_id, i) {
        Some(choose|i: int| is_first_record(outbox, command_id, i))
    } else {
        None
    }
}

/// `doc_position` finds exactly the first document under a key, and none
/// when no document carries the key.
pub proof fn lemma_doc_position(docs: Seq<DocumentView>, collection: Seq<char>, entity_id: Seq<char>)
    ensures
        match doc_position(docs, collection, entity_id) {
            Some(i) => is_first_doc(docs, collection, entity_id, i),
            None => forall|i: int|
                #![trigger docs[i]]
                0 <= i < docs.len() ==> !(docs[i].collection == collection && docs[i].entity_id == entity_id),
        },
        forall|k: int| #[trigger] is_first_doc(docs, collection, entity_id, k) ==> doc_position(docs, collection, entity_id) == Some(k),
{
    if !(exists|i: int| is_first_doc(docs, collection, entity_id, i)) {
        assert forall|i: int| #![trigger docs[i]] 0 <= i < docs.len() implies !(docs[i].collection == collection
            && docs[i].entity_id == entity_id) by {
            if docs[i].collection == collection && docs[i].entity_id == entity_id {
                lemma_earliest_doc(docs, collection, entity_id, i);
            }
        }
    } else {
        let p = choose|i: int| is_first_doc(docs, collection, entity_id, i);
        assert forall|k: int| #[trigger] is_first_doc(docs, collection, entity_id, k) implies k == p by {
            if k < p {
                assert(!(docs[k].collection == collection && docs[k].entity_id == entity_id));
            } else if p < k {
                assert(!(docs[p].collection == collection && docs[p].entity_id == entity_id));
            }
        }
    }
}

proof fn lemma_earliest_doc(docs: Seq<DocumentView>, collection: Seq<char>, entity_id: Seq<char>, i: int)
    requires
        0 <= i < docs.len(),
        docs[i].collection == collection && docs[i].entity_id == entity_id,
    ensures
        exists|k: int| is_first_doc(docs, collection, entity_id, k),
    decreases i,
{
    if forall|j: int| #![trigger docs[j]] 0 <= j < i ==> !(docs[j].collection == collection && docs[j].entity_id == entity_id) {
        assert(is_first_doc(docs, collection, entity_id, i));
    } else {
        let j = choose|j: int| #![trigger docs[j]] 0 <= j < i && (docs[j].collection == collection && docs[j].entity_id == entity_id);
        lemma_earliest_doc(docs, collection, entity_id, j);
    }
}

/// `record_position` finds exactly the first record with a command id, and
/// none when no record carries it.
pub proof fn lemma_record_position(outbox: Seq<RecordView>, command_id: u128)
    ensures
        match record_position(outbox, command_id) {
            Some(i) => is_first_record(outbox, command_id, i),
            None => forall|i: int| 0 <= i < outbox.len() ==> (#[trigger] outbox[i]).entry.command.command_id != command_id,
        },
        forall|k: int| #[trigger] is_first_record(outbox, command_id, k) ==> record_position(outbox, command_id) == Some(k),
{
    if !(exists|i: int| is_first_record(outbox, command_id, i)) {
        assert forall|i: int| 0 <= i < outbox.len() implies (#[trigger] outbox[i]).entry.command.command_id != command_id by {
            if outbox[i].entry.command.command_id == command_id {
                lemma_earliest_record(outbox, command_id, i);
            }
        }
    } else {
        let p = choose|i: int| is_first_record(outbox, command_id, i);
        assert forall|k: int| #[trigger] is_first_record(outbox, command_id, k) implies k == p by {
            if k < p {
                assert(outbox[k].entry.command.command_id != command_id);
            } else if p < k {
                assert(outbox[p].entry.command.command_id != command_id);
            }
        }
    }
}

proof fn lemma_earliest_record(outbox: Seq<RecordView>, command_id: u128, i: int)
    requires
        0 <= i < outbox.len(),
        outbox[i].entry.command.command_id == command_id,
    ensures
        exists|k: int| is_first_record(outbox, command_id, k),
    decreases i,
{
    if forall|j: int| 0 <= j < i ==> (#[trigger] outbox[j]).entry.command.command_id != command_id {
        assert(is_first_record(outbox, command_id, i));
    } else {
        let j = choose|j: int| 0 <= j < i && (#[trigger] outbox[j]).entry.command.command_id == command_id;
        lemma_earliest_record(outbox, command_id, j);
    }
}

/// The document stored under a key.
pub open spec fn stored_document(s: StoreView, collection: Seq<char>, entity_id: Seq<char>) -> Option<DocumentView> {
    match doc_position(s.documents, collection, entity_id) {
        Some(i) => Some(s.documents[i]),
        None => None,
    }
}

/// The current local version under a key; 0 when nothing was ever saved there.
pub open spec fn current_version(s: StoreView, collection: Seq<char>, entity_id: Seq<char>) -> u64 {
    match stored_document(s, collection, entity_id) {
        Some(d) => d.local_version,
        None => 0,
    }
}

/// What is wrong with a save intent, by the report it is refused with.
pub open spec fn intent_problem(i: IntentView) -> Option<Seq<char>> {
    if is_blank(i.collection) {
        Some("collection must not be empty"@)
    } else if is_blank(i.entity_id) {
        Some("entity id must not be empty"@)
    } else {
        match (i.operation, i.document) {
            (SaveOperation::Upsert, None) => Some("upsert requires a document"@),
            (SaveOperation::Delete, Some(_)) => Some("delete must not contain a document"@),
            _ => None,
        }
    }
}

/// The storage engine's report when the ship log can take no more events.
pub open spec fn log_full_report() -> Seq<char> {
    "database or disk is full"@
}

/// The storage engine's report when an event id is already in the ship log.
pub open spec fn duplicate_event_report() -> Seq<char> {
    "UNIQUE constraint failed: ship_events.event_id"@
}

/// The storage engine's report when a command id is already in the outbox.
pub open spec fn duplicate_command_report() -> Seq<char> {
    "UNIQUE constraint failed: outbox.command_id"@
}

/// The outcome of saving intent `i` with the given command id, event id and
/// time: the new store and the queued command, or the error. On success the
/// document, its ship-log event and its outbound command are all recorded
/// with the next local version and the next sequence number.
pub open spec fn save_outcome(s: StoreView, i: IntentView, command_id: u128, event_id: u128, now: i64) -> Result<
    (StoreView, CommandView),
    ErrorView,
> {
    let current = current_version(s, i.collection, i.entity_id);
    if intent_problem(i) is Some {
        Err(ErrorView::InvalidIntent(intent_problem(i)->0))
    } else if i.expected_local_version is Some && i.expected_local_version->0 != current {
        Err(ErrorView::VersionConflict { expected: i.expected_local_version->0, actual: current })
    } else if s.next_sequence >= i64::MAX {
        Err(ErrorView::Database(log_full_report()))
    } else if exists|k: int| 0 <= k < s.events.len() && s.events[k].event_id == event_id {
        Err(ErrorView::Database(duplicate_event_report()))
    } else if record_position(s.outbox, command_id) is Some {
        Err(ErrorView::Database(duplicate_command_report()))
    } else {
        let version = (current + 1) as u64;
        let sequence = s.next_sequence;
        let doc = DocumentView {
            collection: i.collection,
            entity_id: i.entity_id,
            document: i.document,
            local_version: version,
            dirty: true,
            deleted: i.operation == SaveOperation::Delete,
            updated_at_ms: now,
        };
        let documents = match doc_position(s.documents, i.collection, i.entity_id) {
            Some(p) => s.documents.update(p, doc),
            None => s.documents.push(doc),
        };
        let event = ShipEventView {
            sequence,
            event_id,
            collection: i.collection,
            entity_id: i.entity_id,
            operation: i.operation,
            document: i.document,
            local_version: version,
            occurred_at_ms: now,
        };
        let command = CommandView {
            command_id,
            ship_id: s.ship_id,
            event_sequence: sequence,
            collection: i.collection,
            entity_id: i.entity_id,
            operation: i.operation,
            document: i.document,
            local_version: version,
            occurred_at_ms: now,
        };
        let record = RecordView {
            entry: EntryView { command, status: OutboxStatus::Queued, attempts: 0, last_error: None },
            base_revision: None,
            created_at_ms: now,
            updated_at_ms: now,
            acknowledged_at_ms: None,
        };
        Ok(
            (
                StoreView {
                    ship_id: s.ship_id,
                    documents,
                    events: s.events.push(event),
                    outbox: s.outbox.push(record),
                    next_sequence: (sequence + 1) as u64,
                },
                command,
            ),
        )
    }
}

/// Saving `i` would have to give its document a local version past the
/// largest one a version can hold.
pub open spec fn version_exhausted(s: StoreView, i: IntentView) -> bool {
    let current = current_version(s, i.collection, i.entity_id);
    &&& intent_problem(i) is None
    &&& (i.expected_local_version is None || i.expected_local_version->0 == current)
    &&& current == u64::MAX
}

/// The storage engine's report when an attempt counter can count no further.
pub open spec fn attempts_exhausted_report() -> Seq<char> {
    "attempt counter is exhausted"@
}

/// The error for an id that names no outbox command.
pub open spec fn unknown_command(command_id: u128) -> ErrorView {
    ErrorView::UnknownCommand(uuid_text(command_id))
}

/// Record `r` with its status, last error and update time replaced.
pub open spec fn restatus(r: RecordView, status: OutboxStatus, last_error: Option<Seq<char>>, now: i64) -> RecordView {
    RecordView { entry: EntryView { status, last_error, ..r.entry }, updated_at_ms: now, ..r }
}

/// Marking a command as being transmitted: its status becomes
/// `Transmitting`, its attempt count grows by one and its last error clears.
pub open spec fn mark_outcome(s: StoreView, command_id: u128, now: i64) -> Result<StoreView, ErrorView> {
    match record_position(s.outbox, command_id) {
        None => Err(unknown_command(command_id)),
        Some(k) => {
            let r = s.outbox[k];
            if r.entry.attempts == u32::MAX {
                Err(ErrorView::Database(attempts_exhausted_report()))
            } else {
                let marked = restatus(r, OutboxStatus::Transmitting, None, now);
                let counted = RecordView {
                    entry: EntryView { attempts: (r.entry.attempts + 1) as u32, ..marked.entry },
                    ..marked
                };
                Ok(StoreView { outbox: s.outbox.update(k, counted), ..s })
            }
        },
    }
}

/// Recording base's acknowledgement of a command: the command is
/// acknowledged with base's revision, and its document becomes clean only if
/// no newer local version has been written since the command was created.
pub open spec fn acknowledge_outcome(s: StoreView, command_id: u128, base_revision: Option<Seq<char>>, now: i64) -> Result<
    StoreView,
    ErrorView,
> {
    match record_position(s.outbox, command_id) {
        None => Err(unknown_command(command_id)),
        Some(k) => {
            let r = s.outbox[k];
            let c = r.entry.command;
            let acked = RecordView {
                base_revision,
                acknowledged_at_ms: Some(now),
                ..restatus(r, OutboxStatus::Acknowledged, None, now)
            };
            let documents = match doc_position(s.documents, c.collection, c.entity_id) {
                Some(p) => if s.documents[p].local_version == c.local_version {
                    s.documents.update(p, DocumentView { dirty: false, ..s.documents[p] })
                } else {
                    s.documents
                },
                None => s.documents,
            };
            Ok(StoreView { documents, outbox: s.outbox.update(k, acked), ..s })
        },
    }
}

/// Recording base's (or the transport's) refusal of a command: a permanent
/// rejection is kept as `Rejected`, a transient one returns to the queue as
/// `Retry`; either way the reason is kept.
pub open spec fn reject_outcome(s: StoreView, command_id: u128, error: Seq<char>, permanent: bool, now: i64) -> Result<
    StoreView,
    ErrorView,
> {
    match record_position(s.outbox, command_id) {
        None => Err(unknown_command(command_id)),
        Some(k) => {
            let status = if permanent {
                OutboxStatus::Rejected
            } else {
                OutboxStatus::Retry
            };
            Ok(StoreView { outbox: s.outbox.update(k, restatus(s.outbox[k], status, Some(error), now)), ..s })
        },
    }
}

/// After an unclean shutdown every command left `Transmitting` returns to
/// `Queued`.
pub open spec fn recover_outcome(s: StoreView, now: i64) -> StoreView {
    StoreView {
        outbox: s.outbox.map_values(
            |r: RecordView|
                if r.entry.status == OutboxStatus::Transmitting {
                    RecordView { entry: EntryView { status: OutboxStatus::Queued, ..r.entry }, updated_at_ms: now, ..r }
                } else {
                    r
                },
        ),
        ..s
    }
}

/// A command still to be delivered: queued, or back for a retry.
pub open spec fn is_pending(st: OutboxStatus) -> bool {
    st == OutboxStatus::Queued || st == OutboxStatus::Retry
}

/// Whether a record's command is still to be delivered.
pub open spec fn pending_record() -> spec_fn(RecordView) -> bool {
    |r: RecordView| is_pending(r.entry.status)
}

/// Every command still to be delivered, in outbox (ship-log) order.
pub open spec fn pending_entries(outbox: Seq<RecordView>) -> Seq<EntryView> {
    outbox.filter(pending_record()).map_values(|r: RecordView| r.entry)
}

/// The first `limit` commands still to be delivered.
pub open spec fn pending_batch(outbox: Seq<RecordView>, limit: nat) -> Seq<EntryView> {
    let all = pending_entries(outbox);
    if limit < all.len() {
        all.take(limit as int)
    } else {
        all
    }
}

/// Whether a record has status `st`.
pub open spec fn has_status(st: OutboxStatus) -> spec_fn(RecordView) -> bool {
    |r: RecordView| r.entry.status == st
}

/// Whether a document is not yet acknowledged by base.
pub open spec fn is_dirty() -> spec_fn(DocumentView) -> bool {
    |d: DocumentView| d.dirty
}

/// The number of outbox commands with status `st`.
pub open spec fn count_status(outbox: Seq<RecordView>, st: OutboxStatus) -> nat {
    outbox.filter(has_status(st)).len()
}

/// The number of documents not yet acknowledged by base.
pub open spec fn count_dirty(documents: Seq<DocumentView>) -> nat {
    documents.filter(is_dirty()).len()
}

/// Every document either counts as not yet acknowledged or has its dirty
/// flag clear, whatever else it holds (a deleted one included): the count of
/// dirty documents and the count of clean ones add up to all of them.
pub proof fn law_dirty_count_covers_every_dirty_document(documents: Seq<DocumentView>)
    ensures
        count_dirty(documents) + documents.filter(|d: DocumentView| !d.dirty).len() == documents.len(),
    decreases documents.len(),
{
    let clean = |d: DocumentView| !d.dirty;
    if documents.len() == 0 {
        assert(documents.filter(is_dirty()) =~= Seq::<DocumentView>::empty()) by {
            reveal(Seq::filter);
        }
        assert(documents.filter(clean) =~= Seq::<DocumentView>::empty()) by {
            reveal(Seq::filter);
        }
    } else {
        let d = documents.drop_last();
        law_dirty_count_covers_every_dirty_document(d);
        assert(documents =~= d.push(documents.last()));
        d.lemma_filter_push(documents.last(), is_dirty());
        d.lemma_filter_push(documents.last(), clean);
    }
}

/// `r` and the store after the call `after` are what `outcome` says of the
/// store before the call, `before`.
pub open spec fn follows(
    outcome: Result<StoreView, ErrorView>,
    before: StoreView,
    after: StoreView,
    r: Result<(), WarpCoreError>,
) -> bool {
    match outcome {
        Ok(s) => r is Ok && after == s,
        Err(e) => r matches Err(x) && x@ == e && after == before,
    }
}

/// `r` and the store after the call are what saving says of the store before.
pub open spec fn follows_save(
    outcome: Result<(StoreView, CommandView), ErrorView>,
    before: StoreView,
    after: StoreView,
    r: Result<ServerSaveCommand, WarpCoreError>,
) -> bool {
    match outcome {
        Ok((s, c)) => r matches Ok(cmd) && cmd@ == c && after == s,
        Err(e) => r matches Err(x) && x@ == e && after == before,
    }
}

/// The text of an optional string slice.
pub open spec fn opt_str(o: Option<&str>) -> Option<Seq<char>> {
    match o {
        Some(b) => Some(b@),
        None => None,
    }
}


/// The store that persisted state describes.
pub open spec fn persisted_view(
    ship_id: Seq<char>,
    documents: Seq<LocalDocument>,
    events: Seq<ShipEvent>,
    outbox: Seq<OutboxRecord>,
    next_sequence: u64,
) -> StoreView {
    StoreView {
        ship_id,
        documents: documents.map_values(|d: LocalDocument| d@),
        events: events.map_values(|e: ShipEvent| e@),
        outbox: outbox.map_values(|r: OutboxRecord| r@),
        next_sequence,
    }
}

/// Whether persisted state can be restored: the ship id must not be blank.
pub open spec fn restore_outcome(v: StoreView) -> Result<StoreView, ErrorView> {
    if is_blank(v.ship_id) {
        Err(ErrorView::InvalidIntent("ship id must not be empty"@))
    } else {
        Ok(v)
    }
}

/// Owner of the endpoint's operating state: documents, ship log and outbox.
pub struct WarpCore {
    ship_id: String,
    documents: Vec<LocalDocument>,
    events: Vec<ShipEvent>,
    outbox: Vec<OutboxRecord>,
    next_sequence: u64,
}

impl View for WarpCore {
    type V = StoreView;

    closed spec fn view(&self) -> StoreView {
        StoreView {
            ship_id: self.ship_id@,
            documents: self.documents@.map_values(|d: LocalDocument| d@),
            events: self.events@.map_values(|e: ShipEvent| e@),
            outbox: self.outbox@.map_values(|r: OutboxRecord| r@),
            next_sequence: self.next_sequence,
        }
    }
}

impl WarpCore {
    pub open spec fn wf(&self) -> bool {
        store_wf(self@)
    }

    /// A new, empty store for the ship `ship_id`.
    pub fn open_in_memory(ship_id: &str) -> (r: Result<WarpCore, WarpCoreError>)
        ensures
            is_blank(ship_id@) <==> r is Err,
            r matches Err(e) ==> e@ == ErrorView::InvalidIntent("ship id must not be empty"@),
            r matches Ok(core) ==> core.wf() && core@ == (StoreView {
                ship_id: ship_id@,
                documents: Seq::empty(),
                events: Seq::empty(),
                outbox: Seq::empty(),
                next_sequence: 1,
            }),
    {
        if blank(ship_id) {
            return Err(WarpCoreError::InvalidIntent("ship id must not be empty"));
        }
        let core = WarpCore {
            ship_id: ship_id.to_owned(),
            documents: Vec::new(),
            events: Vec::new(),
            outbox: Vec::new(),
            next_sequence: 1,
        };
        assert(core@.documents =~= Seq::empty());
        assert(core@.events =~= Seq::empty());
        assert(core@.outbox =~= Seq::empty());
        Ok(core)
    }

    pub fn ship_id(&self) -> (r: &str)
        ensures
            r@ == self@.ship_id,
    {
        self.ship_id.as_str()
    }

    fn find_document(&self, collection: &str, entity_id: &str) -> (r: Option<usize>)
        ensures
            match r {
                Some(i) => doc_position(self@.documents, collection@, entity_id@) == Some(i as int),
                None => doc_position(self@.documents, collection@, entity_id@) is None,
            },
    {
        let ghost docs = self@.documents;
        let c = collection.to_owned();
        let e = entity_id.to_owned();
        let n = self.documents.len();
        let mut i: usize = 0;
        while i < n
            invariant
                docs == self@.documents,
                c@ == collection@,
                e@ == entity_id@,
                i <= n == self.documents@.len() == docs.len(),
                forall|j: int| 0 <= j < i ==> !(docs[j].collection == collection@ && docs[j].entity_id == entity_id@),
            decreases n - i,
        {
            let d = &self.documents[i];
            assert(d@ == docs[i as int]);
            if d.collection == c && d.entity_id == e {
                proof {
                    assert(is_first_doc(docs, collection@, entity_id@, i as int));
                    lemma_doc_position(docs, collection@, entity_id@);
                }
                return Some(i);
            }
            i = i + 1;
        }
        proof {
            lemma_doc_position(docs, collection@, entity_id@);
        }
        None
    }

    /// The document stored under (`collection`, `entity_id`), if any.
    pub fn document(&self, collection: &str, entity_id: &str) -> (r: Result<Option<LocalDocument>, WarpCoreError>)
        ensures
            r matches Ok(d) && match stored_document(self@, collection@, entity_id@) {
                Some(v) => d matches Some(doc) && doc@ == v,
                None => d is None,
            },
    {
        match self.find_document(collection, entity_id) {
            Some(i) => Ok(Some(self.documents[i].clone())),
            None => Ok(None),
        }
    }

    fn find_record(&self, command_id: u128) -> (r: Option<usize>)
        ensures
            match r {
                Some(i) => record_position(self@.outbox, command_id) == Some(i as int),
                None => record_position(self@.outbox, command_id) is None,
            },
    {
        let ghost ob = self@.outbox;
        let n = self.outbox.len();
        let mut i: usize = 0;
        while i < n
            invariant
                ob == self@.outbox,
                i <= n == self.outbox@.len() == ob.len(),
                forall|j: int| 0 <= j < i ==> ob[j].entry.command.command_id != command_id,
            decreases n - i,
        {
            assert(self.outbox@[i as int]@ == ob[i as int]);
            if self.outbox[i].entry.command.command_id == command_id {
                proof {
                    assert(is_first_record(ob, command_id, i as int));
                    lemma_record_position(ob, command_id);
                }
                return Some(i);
            }
            i = i + 1;
        }
        proof {
            lemma_record_position(ob, command_id);
        }
        None
    }

    fn has_event_id(&self, event_id: u128) -> (b: bool)
        ensures
            b == exists|k: int| 0 <= k < self@.events.len() && self@.events[k].event_id == event_id,
    {
        let ghost ev = self@.events;
        let n = self.events.len();
        let mut i: usize = 0;
        while i < n
            invariant
                ev == self@.events,
                i <= n == self.events@.len() == ev.len(),
                forall|j: int| 0 <= j < i ==> ev[j].event_id != event_id,
            decreases n - i,
        {
            assert(self.events@[i as int]@ == ev[i as int]);
            if self.events[i].event_id == event_id {
                assert(0 <= i < ev.len() && ev[i as int].event_id == event_id);
                return true;
            }
            i = i + 1;
        }
        false
    }


    /// Atomically stores local truth, appends the ship log, and creates the
    /// idempotent command that will eventually be sent to base. The command
    /// and event ids are fresh random UUIDs and the time is the clock's.
    pub fn save(&mut self, intent: SaveIntent) -> (r: Result<ServerSaveCommand, WarpCoreError>)
        requires
            !version_exhausted(old(self)@, intent@),
        ensures
            old(self).wf() ==> final(self).wf(),
            exists|command_id: u128, event_id: u128, now: i64|
                follows_save(
                    #[trigger] save_outcome(old(self)@, intent@, command_id, event_id, now),
                    old(self)@,
                    final(self)@,
                    r,
                ) && (command_id >> 76u128) & 0xf == 4 && (command_id >> 62u128) & 0x3 == 2,
    {
        let ghost i = intent@;
        let now = now_ms();
        let event_id = random_uuid();
        let command_id = random_uuid();
        let r = self.save_at(intent, command_id, event_id, now);
        assert(follows_save(save_outcome(old(self)@, i, command_id, event_id, now), old(self)@, self@, r));
        r
    }

    /// Marks a command as being transmitted, now.
    pub fn mark_transmitting(&mut self, command_id: u128) -> (r: Result<(), WarpCoreError>)
        ensures
            old(self).wf() ==> final(self).wf(),
            exists|now: i64| follows(#[trigger] mark_outcome(old(self)@, command_id, now), old(self)@, final(self)@, r),
    {
        let now = now_ms();
        let r = self.mark_transmitting_at(command_id, now);
        assert(follows(mark_outcome(old(self)@, command_id, now), old(self)@, self@, r));
        r
    }

    /// Records base acknowledgement, now. The local document becomes clean
    /// only if no newer local version has been written since this command was
    /// created.
    pub fn acknowledge(&mut self, command_id: u128, base_revision: Option<&str>) -> (r: Result<(), WarpCoreError>)
        ensures
            old(self).wf() ==> final(self).wf(),
            exists|now: i64|
                follows(
                    #[trigger] acknowledge_outcome(old(self)@, command_id, opt_str(base_revision), now),
                    old(self)@,
                    final(self)@,
                    r,
                ),
    {
        let now = now_ms();
        let r = self.acknowledge_at(command_id, base_revision, now);
        assert(follows(acknowledge_outcome(old(self)@, command_id, opt_str(base_revision), now), old(self)@, self@, r));
        r
    }

    /// A transient failure returns to the queue. A permanent rejection remains
    /// visible for human remediation but never blocks later commands.
    pub fn reject(&mut self, command_id: u128, error: &str, permanent: bool) -> (r: Result<(), WarpCoreError>)
        ensures
            old(self).wf() ==> final(self).wf(),
            exists|now: i64|
                follows(
                    #[trigger] reject_outcome(old(self)@, command_id, error@, permanent, now),
                    old(self)@,
                    final(self)@,
                    r,
                ),
    {
        let now = now_ms();
        let r = self.reject_at(command_id, error, permanent, now);
        assert(follows(reject_outcome(old(self)@, command_id, error@, permanent, now), old(self)@, self@, r));
        r
    }

    /// Returns commands left `Transmitting` by an unclean shutdown to the
    /// queue, now.
    pub fn recover_interrupted_transmissions(&mut self)
        ensures
            old(self).wf() ==> final(self).wf(),
            exists|now: i64| final(self)@ == #[trigger] recover_outcome(old(self)@, now),
    {
        let now = now_ms();
        self.recover_interrupted_transmissions_at(now);
    }

    /// Marks a command as being transmitted, at time `now`.
    pub fn mark_transmitting_at(&mut self, command_id: u128, now: i64) -> (r: Result<(), WarpCoreError>)
        ensures
            old(self).wf() ==> final(self).wf(),
            follows(mark_outcome(old(self)@, command_id, now), old(self)@, final(self)@, r),
    {
        match self.find_record(command_id) {
            None => Err(WarpCoreError::UnknownCommand(uuid_hyphenated(command_id))),
            Some(k) => {
                assert(self.outbox@[k as int]@ == self@.outbox[k as int]);
                if self.outbox[k].entry.attempts == u32::MAX {
                    return Err(WarpCoreError::Database(String::from_str("attempt counter is exhausted")));
                }
                let ghost before = self@;
                let attempts = self.outbox[k].entry.attempts + 1;
                self.outbox[k].entry.status = OutboxStatus::Transmitting;
                self.outbox[k].entry.attempts = attempts;
                self.outbox[k].entry.last_error = None;
                self.outbox[k].updated_at_ms = now;
                proof {
                    let ns = mark_outcome(before, command_id, now)->Ok_0;
                    assert(self@.outbox =~= ns.outbox);
                    if store_wf(before) {
                        lemma_record_update_keeps_wf(before, k as int, ns.outbox[k as int]);
                    }
                }
                Ok(())
            },
        }
    }

    /// Records base's acknowledgement of a command, at time `now`.
    pub fn acknowledge_at(&mut self, command_id: u128, base_revision: Option<&str>, now: i64) -> (r: Result<
        (),
        WarpCoreError,
    >)
        ensures
            old(self).wf() ==> final(self).wf(),
            follows(
                acknowledge_outcome(old(self)@, command_id, opt_str(base_revision), now),
                old(self)@,
                final(self)@,
                r,
            ),
    {
        let ghost base = opt_str(base_revision);
        match self.find_record(command_id) {
            None => Err(WarpCoreError::UnknownCommand(uuid_hyphenated(command_id))),
            Some(k) => {
                let ghost before = self@;
                assert(self.outbox@[k as int]@ == before.outbox[k as int]);
                let position = self.find_document(
                    self.outbox[k].entry.command.collection.as_str(),
                    self.outbox[k].entry.command.entity_id.as_str(),
                );
                let version = self.outbox[k].entry.command.local_version;
                let revision = match base_revision {
                    Some(b) => Some(b.to_owned()),
                    None => None,
                };
                self.outbox[k].entry.status = OutboxStatus::Acknowledged;
                self.outbox[k].entry.last_error = None;
                self.outbox[k].base_revision = revision;
                self.outbox[k].updated_at_ms = now;
                self.outbox[k].acknowledged_at_ms = Some(now);
                let ghost mid = self@;
                proof {
                    let ns = acknowledge_outcome(before, command_id, base, now)->Ok_0;
                    assert(mid.outbox =~= ns.outbox);
                    if store_wf(before) {
                        lemma_record_update_keeps_wf(before, k as int, ns.outbox[k as int]);
                    }
                    assert(mid.documents == before.documents);
                }
                if let Some(p) = position {
                    assert(self.documents@[p as int]@ == mid.documents[p as int]);
                    if self.documents[p].local_version == version {
                        self.documents[p].dirty = false;
                        proof {
                            let ns = acknowledge_outcome(before, command_id, base, now)->Ok_0;
                            assert(self@.documents =~= ns.documents);
                            if store_wf(mid) {
                                lemma_document_update_keeps_wf(mid, p as int, ns.documents[p as int]);
                            }
                        }
                    }
                }
                Ok(())
            },
        }
    }

    /// Records a refusal of a command, at time `now`: permanent refusals stay
    /// visible as `Rejected`, transient ones return to the queue.
    pub fn reject_at(&mut self, command_id: u128, error: &str, permanent: bool, now: i64) -> (r: Result<
        (),
        WarpCoreError,
    >)
        ensures
            old(self).wf() ==> final(self).wf(),
            follows(reject_outcome(old(self)@, command_id, error@, permanent, now), old(self)@, final(self)@, r),
    {
        match self.find_record(command_id) {
            None => Err(WarpCoreError::UnknownCommand(uuid_hyphenated(command_id))),
            Some(k) => {
                let ghost before = self@;
                let status = if permanent {
                    OutboxStatus::Rejected
                } else {
                    OutboxStatus::Retry
                };
                self.outbox[k].entry.status = status;
                self.outbox[k].entry.last_error = Some(error.to_owned());
                self.outbox[k].updated_at_ms = now;
                proof {
                    let ns = reject_outcome(before, command_id, error@, permanent, now)->Ok_0;
                    assert(self@.outbox =~= ns.outbox);
                    if store_wf(before) {
                        lemma_record_update_keeps_wf(before, k as int, ns.outbox[k as int]);
                    }
                }
                Ok(())
            },
        }
    }


    /// Returns every command left `Transmitting` by an unclean shutdown to the
    /// queue, at time `now`.
    pub fn recover_interrupted_transmissions_at(&mut self, now: i64)
        ensures
            old(self).wf() ==> final(self).wf(),
            final(self)@ == recover_outcome(old(self)@, now),
    {
        let ghost before = self@;
        let ghost target = recover_outcome(before, now);
        let n = self.outbox.len();
        let mut k: usize = 0;
        while k < n
            invariant
                k <= n == self.outbox@.len() == before.outbox.len(),
                target == recover_outcome(before, now),
                self@.ship_id == before.ship_id,
                self@.documents == before.documents,
                self@.events == before.events,
                self@.next_sequence == before.next_sequence,
                forall|j: int| 0 <= j < k ==> self@.outbox[j] == target.outbox[j],
                forall|j: int| k <= j < n ==> self@.outbox[j] == before.outbox[j],
            decreases n - k,
        {
            assert(self.outbox@[k as int]@ == self@.outbox[k as int]);
            if self.outbox[k].entry.status == OutboxStatus::Transmitting {
                let ghost prev = self@.outbox;
                self.outbox[k].entry.status = OutboxStatus::Queued;
                self.outbox[k].updated_at_ms = now;
                assert(self@.outbox =~= prev.update(k as int, target.outbox[k as int]));
            }
            k = k + 1;
        }
        assert(self@.outbox =~= target.outbox);
        proof {
            if store_wf(before) {
                lemma_same_commands_keeps_wf(before, target.outbox);
            }
        }
    }

    /// Counts outbox commands by status, and documents not yet acknowledged.
    pub fn status(&self) -> (r: Result<WarpCoreStatus, WarpCoreError>)
        ensures
            r matches Ok(st) && {
                &&& st.queued == count_status(self@.outbox, OutboxStatus::Queued)
                &&& st.transmitting == count_status(self@.outbox, OutboxStatus::Transmitting)
                &&& st.retry == count_status(self@.outbox, OutboxStatus::Retry)
                &&& st.acknowledged == count_status(self@.outbox, OutboxStatus::Acknowledged)
                &&& st.rejected == count_status(self@.outbox, OutboxStatus::Rejected)
                &&& st.dirty_documents == count_dirty(self@.documents)
            },
    {
        let ghost ob = self@.outbox;
        let ghost docs = self@.documents;
        let n = self.outbox.len();
        let mut queued: u64 = 0;
        let mut transmitting: u64 = 0;
        let mut retry: u64 = 0;
        let mut acknowledged: u64 = 0;
        let mut rejected: u64 = 0;
        let mut k: usize = 0;
        while k < n
            invariant
                ob == self@.outbox,
                k <= n == ob.len() == self.outbox@.len(),
                queued == ob.take(k as int).filter(has_status(OutboxStatus::Queued)).len(),
                transmitting == ob.take(k as int).filter(has_status(OutboxStatus::Transmitting)).len(),
                retry == ob.take(k as int).filter(has_status(OutboxStatus::Retry)).len(),
                acknowledged == ob.take(k as int).filter(has_status(OutboxStatus::Acknowledged)).len(),
                rejected == ob.take(k as int).filter(has_status(OutboxStatus::Rejected)).len(),
            decreases n - k,
        {
            proof {
                assert(ob.take(k + 1) =~= ob.take(k as int).push(ob[k as int]));
                ob.take(k as int).lemma_filter_push(ob[k as int], has_status(OutboxStatus::Queued));
                ob.take(k as int).lemma_filter_push(ob[k as int], has_status(OutboxStatus::Transmitting));
                ob.take(k as int).lemma_filter_push(ob[k as int], has_status(OutboxStatus::Retry));
                ob.take(k as int).lemma_filter_push(ob[k as int], has_status(OutboxStatus::Acknowledged));
                ob.take(k as int).lemma_filter_push(ob[k as int], has_status(OutboxStatus::Rejected));
            }
            assert(self.outbox@[k as int]@ == ob[k as int]);
            match self.outbox[k].entry.status {
                OutboxStatus::Queued => {
                    queued = queued + 1;
                },
                OutboxStatus::Transmitting => {
                    transmitting = transmitting + 1;
                },
                OutboxStatus::Retry => {
                    retry = retry + 1;
                },
                OutboxStatus::Acknowledged => {
                    acknowledged = acknowledged + 1;
                },
                OutboxStatus::Rejected => {
                    rejected = rejected + 1;
                },
            }
            k = k + 1;
        }
        assert(ob.take(n as int) =~= ob);
        let m = self.documents.len();
        let mut dirty: u64 = 0;
        let mut i: usize = 0;
        while i < m
            invariant
                docs == self@.documents,
                i <= m == docs.len() == self.documents@.len(),
                dirty == docs.take(i as int).filter(is_dirty()).len(),
            decreases m - i,
        {
            proof {
                assert(docs.take(i + 1) =~= docs.take(i as int).push(docs[i as int]));
                docs.take(i as int).lemma_filter_push(docs[i as int], is_dirty());
            }
            assert(self.documents@[i as int]@ == docs[i as int]);
            if self.documents[i].dirty {
                dirty = dirty + 1;
            }
            i = i + 1;
        }
        assert(docs.take(m as int) =~= docs);
        Ok(WarpCoreStatus { queued, transmitting, retry, acknowledged, rejected, dirty_documents: dirty })
    }


    /// Returns up to `limit` commands still to be delivered, in ship-log
    /// order. A delivery worker should mark each command transmitting
    /// immediately before making the network request.
    pub fn pending_commands(&self, limit: u32) -> (r: Result<Vec<OutboxEntry>, WarpCoreError>)
        ensures
            r matches Ok(v) && v@.map_values(|e: OutboxEntry| e@) == pending_batch(self@.outbox, limit as nat),
    {
        let ghost ob = self@.outbox;
        let mut res: Vec<OutboxEntry> = Vec::new();
        let n = self.outbox.len();
        let mut k: usize = 0;
        while k < n && res.len() < limit as usize
            invariant
                ob == self@.outbox,
                k <= n == ob.len() == self.outbox@.len(),
                res@.len() <= limit,
                res@.map_values(|e: OutboxEntry| e@) == pending_entries(ob.take(k as int)),
            decreases n - k,
        {
            proof {
                assert(ob.take(k + 1) =~= ob.take(k as int).push(ob[k as int]));
                ob.take(k as int).lemma_filter_push(ob[k as int], pending_record());
            }
            assert(self.outbox@[k as int]@ == ob[k as int]);
            let st = self.outbox[k].entry.status;
            if st == OutboxStatus::Queued || st == OutboxStatus::Retry {
                let ghost before = res@;
                res.push(self.outbox[k].entry.clone());
                assert(res@.map_values(|e: OutboxEntry| e@) =~= before.map_values(|e: OutboxEntry| e@).push(
                    ob[k as int].entry,
                ));
                assert(pending_entries(ob.take(k + 1)) =~= pending_entries(ob.take(k as int)).push(
                    ob[k as int].entry,
                ));
            } else {
                assert(pending_entries(ob.take(k + 1)) =~= pending_entries(ob.take(k as int)));
            }
            k = k + 1;
        }
        proof {
            let all = pending_entries(ob);
            let front = pending_entries(ob.take(k as int));
            assert(ob =~= ob.take(k as int) + ob.skip(k as int));
            Seq::filter_distributes_over_add(ob.take(k as int), ob.skip(k as int), pending_record());
            let back = pending_entries(ob.skip(k as int));
            assert(all =~= front + back);
            if k == n {
                assert(ob.skip(k as int) =~= Seq::<RecordView>::empty());
                assert(ob.skip(k as int).filter(pending_record()) =~= Seq::<RecordView>::empty()) by {
                    reveal(Seq::filter);
                }
                assert(all =~= front);
            } else {
                assert(all.take(limit as int) =~= front);
            }
        }
        Ok(res)
    }


    /// Rebuilds the store from persisted state, then returns commands left
    /// `Transmitting` by an unclean shutdown to the queue, at time `now`.
    /// State that keeps the store's invariant gives a store that keeps it.
    pub fn restore_at(
        ship_id: &str,
        documents: Vec<LocalDocument>,
        events: Vec<ShipEvent>,
        outbox: Vec<OutboxRecord>,
        next_sequence: u64,
        now: i64,
    ) -> (r: Result<WarpCore, WarpCoreError>)
        ensures
            match restore_outcome(persisted_view(ship_id@, documents@, events@, outbox@, next_sequence)) {
                Ok(v) => r matches Ok(c) && c@ == recover_outcome(v, now) && (store_wf(v) ==> c.wf()),
                Err(e) => r matches Err(x) && x@ == e,
            },
    {
        if blank(ship_id) {
            return Err(WarpCoreError::InvalidIntent("ship id must not be empty"));
        }
        let mut core = WarpCore { ship_id: ship_id.to_owned(), documents, events, outbox, next_sequence };
        core.recover_interrupted_transmissions_at(now);
        Ok(core)
    }

    /// Rebuilds the store from persisted state (see `restore_at`), now.
    pub fn restore(
        ship_id: &str,
        documents: Vec<LocalDocument>,
        events: Vec<ShipEvent>,
        outbox: Vec<OutboxRecord>,
        next_sequence: u64,
    ) -> (r: Result<WarpCore, WarpCoreError>)
        ensures
            match restore_outcome(persisted_view(ship_id@, documents@, events@, outbox@, next_sequence)) {
                Ok(v) => exists|now: i64|
                    r matches Ok(c) && c@ == #[trigger] recover_outcome(v, now) && (store_wf(v) ==> c.wf()),
                Err(e) => r matches Err(x) && x@ == e,
            },
    {
        let now = now_ms();
        WarpCore::restore_at(ship_id, documents, events, outbox, next_sequence, now)
    }

    /// The ship event log, oldest first.
    pub fn ship_events(&self) -> (r: &Vec<ShipEvent>)
        ensures
            r@.map_values(|e: ShipEvent| e@) == self@.events,
    {
        &self.events
    }

    /// The outbox records, in ship-log order.
    pub fn outbox_records(&self) -> (r: &Vec<OutboxRecord>)
        ensures
            r@.map_values(|o: OutboxRecord| o@) == self@.outbox,
    {
        &self.outbox
    }

    /// Every stored document.
    pub fn documents(&self) -> (r: &Vec<LocalDocument>)
        ensures
            r@.map_values(|d: LocalDocument| d@) == self@.documents,
    {
        &self.documents
    }

    /// The sequence number the next ship-log event will take.
    pub fn next_sequence(&self) -> (r: u64)
        ensures
            r == self@.next_sequence,
    {
        self.next_sequence
    }

    /// Stores the intent, appends its ship-log event and queues its server-save
    /// command in one step, using the given command id, event id and time.
    /// Nothing changes when it fails.
    pub fn save_at(&mut self, intent: SaveIntent, command_id: u128, event_id: u128, now: i64) -> (r: Result<
        ServerSaveCommand,
        WarpCoreError,
    >)
        requires
            !version_exhausted(old(self)@, intent@),
        ensures
            old(self).wf() ==> final(self).wf(),
            follows_save(save_outcome(old(self)@, intent@, command_id, event_id, now), old(self)@, final(self)@, r),
    {
        let ghost i = intent@;
        if let Err(e) = validate_intent(&intent) {
            return Err(e);
        }
        let position = self.find_document(intent.collection.as_str(), intent.entity_id.as_str());
        let current: u64 = match position {
            Some(p) => self.documents[p].local_version,
            None => 0,
        };
        assert(current == current_version(self@, i.collection, i.entity_id));
        if let Some(expected) = intent.expected_local_version {
            if expected != current {
                return Err(WarpCoreError::VersionConflict { expected, actual: current });
            }
        }
        if self.next_sequence >= 0x7fff_ffff_ffff_ffffu64 {
            return Err(WarpCoreError::Database(String::from_str("database or disk is full")));
        }
        if self.has_event_id(event_id) {
            return Err(WarpCoreError::Database(String::from_str("UNIQUE constraint failed: ship_events.event_id")));
        }
        if self.find_record(command_id).is_some() {
            return Err(WarpCoreError::Database(String::from_str("UNIQUE constraint failed: outbox.command_id")));
        }
        let version = current + 1;
        let sequence = self.next_sequence;
        let ghost old_view = self@;
        let doc = LocalDocument {
            collection: intent.collection.clone(),
            entity_id: intent.entity_id.clone(),
            document: clone_opt(&intent.document),
            local_version: version,
            dirty: true,
            deleted: intent.operation == SaveOperation::Delete,
            updated_at_ms: now,
        };
        match position {
            Some(p) => {
                self.documents.set(p, doc);
            },
            None => {
                self.documents.push(doc);
            },
        }
        let event = ShipEvent {
            sequence,
            event_id,
            collection: intent.collection.clone(),
            entity_id: intent.entity_id.clone(),
            operation: intent.operation,
            document: clone_opt(&intent.document),
            local_version: version,
            occurred_at_ms: now,
        };
        self.events.push(event);
        let command = ServerSaveCommand {
            command_id,
            ship_id: self.ship_id.clone(),
            event_sequence: sequence,
            collection: intent.collection,
            entity_id: intent.entity_id,
            operation: intent.operation,
            document: intent.document,
            local_version: version,
            occurred_at_ms: now,
        };
        let record = OutboxRecord {
            entry: OutboxEntry {
                command: command.clone(),
                status: OutboxStatus::Queued,
                attempts: 0,
                last_error: None,
            },
            base_revision: None,
            created_at_ms: now,
            updated_at_ms: now,
            acknowledged_at_ms: None,
        };
        self.outbox.push(record);
        self.next_sequence = sequence + 1;
        proof {
            let out = save_outcome(old_view, i, command_id, event_id, now);
            let (ns, c) = out->Ok_0;
            assert(command@ == c);
            match position {
                Some(p) => {
                    assert(self@.documents =~= ns.documents);
                },
                None => {
                    assert(self@.documents =~= ns.documents);
                },
            }
            assert(self@.events =~= ns.events);
            assert(self@.outbox =~= ns.outbox);
            assert(self@ == ns);
            if store_wf(old_view) {
                lemma_save_keeps_wf(old_view, i, command_id, event_id, now);
            }
        }
        Ok(command)
    }
}

/// Checks an intent before anything is looked up: keys must not be blank, an
/// upsert carries a document and a delete carries none.
pub fn validate_intent(intent: &SaveIntent) -> (r: Result<(), WarpCoreError>)
    ensures
        match intent_problem(intent@) {
            Some(t) => r matches Err(e) && e@ == ErrorView::InvalidIntent(t),
            None => r is Ok,
        },
{
    if blank(intent.collection.as_str()) {
        return Err(WarpCoreError::InvalidIntent("collection must not be empty"));
    }
    if blank(intent.entity_id.as_str()) {
        return Err(WarpCoreError::InvalidIntent("entity id must not be empty"));
    }
    match (&intent.operation, &intent.document) {
        (SaveOperation::Upsert, None) => Err(WarpCoreError::InvalidIntent("upsert requires a document")),
        (SaveOperation::Delete, Some(_)) => Err(WarpCoreError::InvalidIntent("delete must not contain a document")),
        _ => Ok(()),
    }
}


/// Replacing an outbox record by one that carries the same command keeps the
/// store's invariant.
pub proof fn lemma_record_update_keeps_wf(s: StoreView, k: int, r: RecordView)
    requires
        store_wf(s),
        0 <= k < s.outbox.len(),
        r.entry.command == s.outbox[k].entry.command,
    ensures
        store_wf(StoreView { outbox: s.outbox.update(k, r), ..s }),
{
    let ns = StoreView { outbox: s.outbox.update(k, r), ..s };
    assert forall|a: int, b: int| 0 <= a < b < ns.outbox.len() implies (#[trigger] ns.outbox[a]).entry.command.event_sequence < (
    #[trigger] ns.outbox[b]).entry.command.event_sequence && ns.outbox[a].entry.command.command_id
        != ns.outbox[b].entry.command.command_id by {
        assert(ns.outbox[a].entry.command == s.outbox[a].entry.command);
        assert(ns.outbox[b].entry.command == s.outbox[b].entry.command);
        assert(s.outbox[a].entry.command.event_sequence < s.outbox[b].entry.command.event_sequence);
    }
    assert forall|a: int| 0 <= a < ns.outbox.len() implies (#[trigger] ns.outbox[a]).entry.command.event_sequence < ns.next_sequence by {
        assert(ns.outbox[a].entry.command == s.outbox[a].entry.command);
        assert(s.outbox[a].entry.command.event_sequence < s.next_sequence);
    }
}

/// Replacing a document by one with the same key and version keeps the
/// store's invariant.
pub proof fn lemma_document_update_keeps_wf(s: StoreView, p: int, d: DocumentView)
    requires
        store_wf(s),
        0 <= p < s.documents.len(),
        same_key(d, s.documents[p]),
        d.local_version == s.documents[p].local_version,
    ensures
        store_wf(StoreView { documents: s.documents.update(p, d), ..s }),
{
    let ns = StoreView { documents: s.documents.update(p, d), ..s };
    assert forall|a: int, b: int| 0 <= a < b < ns.documents.len() implies !same_key(
        #[trigger] ns.documents[a],
        #[trigger] ns.documents[b],
    ) by {
        assert(!same_key(s.documents[a], s.documents[b]));
    }
    assert forall|a: int| 0 <= a < ns.documents.len() implies (#[trigger] ns.documents[a]).local_version < ns.next_sequence by {
        assert(s.documents[a].local_version < s.next_sequence);
    }
}


/// An outbox with the same commands, in the same order, keeps the store's
/// invariant.
pub proof fn lemma_same_commands_keeps_wf(s: StoreView, outbox: Seq<RecordView>)
    requires
        store_wf(s),
        outbox.len() == s.outbox.len(),
        forall|k: int| 0 <= k < outbox.len() ==> (#[trigger] outbox[k]).entry.command == s.outbox[k].entry.command,
    ensures
        store_wf(StoreView { outbox, ..s }),
{
    assert forall|a: int, b: int| 0 <= a < b < outbox.len() implies (#[trigger] outbox[a]).entry.command.event_sequence < (
    #[trigger] outbox[b]).entry.command.event_sequence && outbox[a].entry.command.command_id
        != outbox[b].entry.command.command_id by {
        assert(s.outbox[a].entry.command.event_sequence < s.outbox[b].entry.command.event_sequence);
    }
    assert forall|a: int| 0 <= a < outbox.len() implies (#[trigger] outbox[a]).entry.command.event_sequence < s.next_sequence by {
        assert(s.outbox[a].entry.command.event_sequence < s.next_sequence);
    }
}

/// A successful save keeps the store's invariant.
pub proof fn lemma_save_keeps_wf(s: StoreView, i: IntentView, command_id: u128, event_id: u128, now: i64)
    requires
        store_wf(s),
        save_outcome(s, i, command_id, event_id, now) is Ok,
    ensures
        store_wf(save_outcome(s, i, command_id, event_id, now)->Ok_0.0),
{
    let ns = save_outcome(s, i, command_id, event_id, now)->Ok_0.0;
    lemma_doc_position(s.documents, i.collection, i.entity_id);
    lemma_record_position(s.outbox, command_id);
    match doc_position(s.documents, i.collection, i.entity_id) {
        Some(p) => {
            assert(s.documents[p].collection == i.collection && s.documents[p].entity_id == i.entity_id);
            assert forall|a: int, b: int| 0 <= a < b < ns.documents.len() implies !same_key(
                #[trigger] ns.documents[a],
                #[trigger] ns.documents[b],
            ) by {
                if a != p && b != p {
                    assert(!same_key(s.documents[a], s.documents[b]));
                } else if a == p {
                    assert(!same_key(s.documents[p], s.documents[b]));
                } else {
                    assert(!same_key(s.documents[a], s.documents[p]));
                }
            }
            assert(s.documents[p].local_version < s.next_sequence);
        },
        None => {
            assert forall|a: int, b: int| 0 <= a < b < ns.documents.len() implies !same_key(
                #[trigger] ns.documents[a],
                #[trigger] ns.documents[b],
            ) by {
                if b == s.documents.len() {
                    assert(!(s.documents[a].collection == i.collection && s.documents[a].entity_id == i.entity_id));
                } else {
                    assert(!same_key(s.documents[a], s.documents[b]));
                }
            }
        },
    }
    assert forall|a: int| 0 <= a < ns.documents.len() implies (#[trigger] ns.documents[a]).local_version < ns.next_sequence by {
        if a < s.documents.len() {
            assert(s.documents[a].local_version < s.next_sequence);
        }
    }
    assert forall|a: int, b: int| 0 <= a < b < ns.events.len() implies (#[trigger] ns.events[a]).sequence < (
    #[trigger] ns.events[b]).sequence by {
        if b < s.events.len() {
            assert(s.events[a].sequence < s.events[b].sequence);
        } else {
            assert(s.events[a].sequence < s.next_sequence);
        }
    }
    assert forall|a: int| 0 <= a < ns.events.len() implies (#[trigger] ns.events[a]).sequence < ns.next_sequence by {
        if a < s.events.len() {
            assert(s.events[a].sequence < s.next_sequence);
        }
    }
    assert forall|a: int, b: int| 0 <= a < b < ns.outbox.len() implies (#[trigger] ns.outbox[a]).entry.command.event_sequence < (
    #[trigger] ns.outbox[b]).entry.command.event_sequence && ns.outbox[a].entry.command.command_id
        != ns.outbox[b].entry.command.command_id by {
        if b < s.outbox.len() {
            assert(s.outbox[a].entry.command.event_sequence < s.outbox[b].entry.command.event_sequence);
        } else {
            assert(s.outbox[a].entry.command.event_sequence < s.next_sequence);
            assert(!(s.outbox[a].entry.command.command_id == command_id));
        }
    }
    assert forall|a: int| 0 <= a < ns.outbox.len() implies (#[trigger] ns.outbox[a]).entry.command.event_sequence < ns.next_sequence by {
        if a < s.outbox.len() {
            assert(s.outbox[a].entry.command.event_sequence < s.next_sequence);
        }
    }
}

} // verus!

verus! {

/// Under the invariant, the document with a given key is the only one.
pub proof fn lemma_doc_position_unique(docs: Seq<DocumentView>, p: int, s: StoreView)
    requires
        store_wf(s),
        docs == s.documents,
        0 <= p < docs.len(),
    ensures
        doc_position(docs, docs[p].collection, docs[p].entity_id) == Some(p),
{
    let c = docs[p].collection;
    let e = docs[p].entity_id;
    assert forall|j: int| #![trigger docs[j]] 0 <= j < p implies !(docs[j].collection == c && docs[j].entity_id == e) by {
        assert(!same_key(docs[j], docs[p]));
    }
    assert(is_first_doc(docs, c, e, p));
    lemma_doc_position(docs, c, e);
}

/// Under the invariant, the record with a given command id is the only one.
pub proof fn lemma_record_position_unique(s: StoreView, k: int)
    requires
        store_wf(s),
        0 <= k < s.outbox.len(),
    ensures
        record_position(s.outbox, s.outbox[k].entry.command.command_id) == Some(k),
{
    let id = s.outbox[k].entry.command.command_id;
    assert forall|j: int| 0 <= j < k implies (#[trigger] s.outbox[j]).entry.command.command_id != id by {
        assert(s.outbox[j].entry.command.command_id != s.outbox[k].entry.command.command_id);
    }
    assert(is_first_record(s.outbox, id, k));
    lemma_record_position(s.outbox, id);
}

/// A save succeeds as a whole: the document under the intent's key holds the
/// intent's document at the next local version and is dirty, the ship log
/// ends with the matching event, and the outbox ends with the queued command,
/// which is now the last command still to be delivered. Documents under
/// other keys are untouched.
pub proof fn law_save_commits_together(s: StoreView, i: IntentView, command_id: u128, event_id: u128, now: i64)
    requires
        store_wf(s),
        save_outcome(s, i, command_id, event_id, now) is Ok,
    ensures
        ({
            let (ns, c) = save_outcome(s, i, command_id, event_id, now)->Ok_0;
            let version = current_version(s, i.collection, i.entity_id) + 1;
            &&& c.command_id == command_id
            &&& c.local_version == version
            &&& c.event_sequence == s.next_sequence
            &&& c.document == i.document
            &&& stored_document(ns, i.collection, i.entity_id) == Some(
                DocumentView {
                    collection: i.collection,
                    entity_id: i.entity_id,
                    document: i.document,
                    local_version: version as u64,
                    dirty: true,
                    deleted: i.operation == SaveOperation::Delete,
                    updated_at_ms: now,
                },
            )
            &&& ns.events.len() == s.events.len() + 1
            &&& ns.events.last().sequence == c.event_sequence
            &&& ns.events.last().local_version == c.local_version
            &&& ns.events.last().document == i.document
            &&& ns.outbox.len() == s.outbox.len() + 1
            &&& ns.outbox.last().entry == (EntryView {
                command: c,
                status: OutboxStatus::Queued,
                attempts: 0,
                last_error: None,
            })
            &&& pending_entries(ns.outbox) == pending_entries(s.outbox).push(ns.outbox.last().entry)
            &&& forall|col: Seq<char>, ent: Seq<char>|
                !(col == i.collection && ent == i.entity_id) ==> #[trigger] stored_document(ns, col, ent)
                    == stored_document(s, col, ent)
        }),
{
    let (ns, c) = save_outcome(s, i, command_id, event_id, now)->Ok_0;
    lemma_save_keeps_wf(s, i, command_id, event_id, now);
    let p = match doc_position(s.documents, i.collection, i.entity_id) {
        Some(p) => p,
        None => s.documents.len() as int,
    };
    assert(ns.documents[p].collection == i.collection && ns.documents[p].entity_id == i.entity_id);
    lemma_doc_position_unique(ns.documents, p, ns);
    s.outbox.lemma_filter_push(ns.outbox.last(), pending_record());
    assert(ns.outbox =~= s.outbox.push(ns.outbox.last()));
    assert(pending_entries(ns.outbox) =~= pending_entries(s.outbox).push(ns.outbox.last().entry));
    assert forall|col: Seq<char>, ent: Seq<char>|
        !(col == i.collection && ent == i.entity_id) implies #[trigger] stored_document(ns, col, ent)
            == stored_document(s, col, ent) by {
        match doc_position(s.documents, col, ent) {
            Some(q) => {
                assert(s.documents[q].collection == col && s.documents[q].entity_id == ent);
                assert(ns.documents[q] == s.documents[q]);
                lemma_doc_position_unique(ns.documents, q, ns);
            },
            None => {
                lemma_doc_position(s.documents, col, ent);
                lemma_doc_position(ns.documents, col, ent);
                if exists|q: int| 0 <= q < ns.documents.len() && ns.documents[q].collection == col && ns.documents[q].entity_id == ent {
                    let q = choose|q: int| 0 <= q < ns.documents.len() && ns.documents[q].collection == col && ns.documents[q].entity_id == ent;
                    assert(q != p);
                    assert(s.documents[q].collection == col && s.documents[q].entity_id == ent);
                }
            },
        }
    }
}

/// An acknowledgement cleans the command's document only when the document
/// is still at the command's local version; a document saved again since
/// keeps its newer version and stays dirty. The command becomes
/// acknowledged, with base's revision.
pub proof fn law_acknowledgement_cleans_only_the_current_version(
    s: StoreView,
    k: int,
    base_revision: Option<Seq<char>>,
    now: i64,
)
    requires
        store_wf(s),
        0 <= k < s.outbox.len(),
    ensures
        ({
            let c = s.outbox[k].entry.command;
            let ns = acknowledge_outcome(s, c.command_id, base_revision, now)->Ok_0;
            &&& acknowledge_outcome(s, c.command_id, base_revision, now) is Ok
            &&& ns.outbox[k].entry.status == OutboxStatus::Acknowledged
            &&& ns.outbox[k].base_revision == base_revision
            &&& stored_document(ns, c.collection, c.entity_id) == match stored_document(s, c.collection, c.entity_id) {
                Some(d) => Some(
                    if d.local_version == c.local_version {
                        DocumentView { dirty: false, ..d }
                    } else {
                        d
                    },
                ),
                None => None,
            }
        }),
{
    lemma_record_position_unique(s, k);
    let c = s.outbox[k].entry.command;
    let ns = acknowledge_outcome(s, c.command_id, base_revision, now)->Ok_0;
    match doc_position(s.documents, c.collection, c.entity_id) {
        Some(p) => {
            assert(s.documents[p].collection == c.collection && s.documents[p].entity_id == c.entity_id);
            if s.documents[p].local_version == c.local_version {
                lemma_document_update_keeps_wf(s, p, DocumentView { dirty: false, ..s.documents[p] });
                let ws = StoreView { documents: ns.documents, ..s };
                lemma_doc_position_unique(ns.documents, p, ws);
            }
        },
        None => {},
    }
}

/// A permanent rejection keeps the command visible as rejected, takes it out
/// of delivery, and leaves every other command as it was: the commands still
/// to be delivered are those before it and those after it.
pub proof fn law_permanent_rejection_does_not_block_later_commands(s: StoreView, k: int, reason: Seq<char>, now: i64)
    requires
        store_wf(s),
        0 <= k < s.outbox.len(),
    ensures
        ({
            let id = s.outbox[k].entry.command.command_id;
            let ns = reject_outcome(s, id, reason, true, now)->Ok_0;
            &&& reject_outcome(s, id, reason, true, now) is Ok
            &&& ns.outbox[k].entry.status == OutboxStatus::Rejected
            &&& ns.outbox[k].entry.last_error == Some(reason)
            &&& forall|j: int| 0 <= j < s.outbox.len() && j != k ==> ns.outbox[j] == s.outbox[j]
            &&& pending_entries(ns.outbox) == pending_entries(s.outbox.take(k)) + pending_entries(s.outbox.skip(k + 1))
        }),
{
    lemma_record_position_unique(s, k);
    let id = s.outbox[k].entry.command.command_id;
    let ns = reject_outcome(s, id, reason, true, now)->Ok_0;
    let rec = ns.outbox[k];
    assert(ns.outbox =~= s.outbox.take(k) + seq![rec] + s.outbox.skip(k + 1));
    Seq::filter_distributes_over_add(s.outbox.take(k) + seq![rec], s.outbox.skip(k + 1), pending_record());
    Seq::filter_distributes_over_add(s.outbox.take(k), seq![rec], pending_record());
    assert(seq![rec].filter(pending_record()) =~= Seq::<RecordView>::empty()) by {
        assert(Seq::<RecordView>::empty().filter(pending_record()) =~= Seq::<RecordView>::empty()) by {
            reveal(Seq::filter);
        }
        Seq::<RecordView>::empty().lemma_filter_push(rec, pending_record());
        assert(seq![rec] =~= Seq::<RecordView>::empty().push(rec));
        assert(!pending_record()(rec));
    }
    assert(pending_entries(ns.outbox) =~= pending_entries(s.outbox.take(k)) + pending_entries(s.outbox.skip(k + 1)));
}

/// After recovery no command is left `Transmitting`: each such command is
/// queued again, and every other record is unchanged.
pub proof fn law_recovery_leaves_nothing_transmitting(s: StoreView, now: i64)
    ensures
        ({
            let ns = recover_outcome(s, now);
            &&& ns.outbox.len() == s.outbox.len()
            &&& count_status(ns.outbox, OutboxStatus::Transmitting) == 0
            &&& forall|k: int|
                0 <= k < s.outbox.len() ==> (#[trigger] ns.outbox[k]).entry.command == s.outbox[k].entry.command
                    && (if s.outbox[k].entry.status == OutboxStatus::Transmitting {
                    ns.outbox[k].entry.status == OutboxStatus::Queued
                } else {
                    ns.outbox[k] == s.outbox[k]
                })
        }),
{
    let ns = recover_outcome(s, now);
    ns.outbox.lemma_filter_len(has_status(OutboxStatus::Transmitting));
    assert forall|k: int| 0 <= k < ns.outbox.len() implies !has_status(OutboxStatus::Transmitting)(#[trigger] ns.outbox[k]) by {}
    ns.outbox.lemma_all_neg_filter_empty(has_status(OutboxStatus::Transmitting));
}

} // verus!

verus! {

/// Records in strictly increasing ship-log order.
pub open spec fn in_ship_log_order(o: Seq<RecordView>) -> bool {
    forall|a: int, b: int|
        0 <= a < b < o.len() ==> (#[trigger] o[a]).entry.command.event_sequence < (
        #[trigger] o[b]).entry.command.event_sequence
}

proof fn lemma_filter_keeps_order(o: Seq<RecordView>)
    requires
        in_ship_log_order(o),
    ensures
        in_ship_log_order(o.filter(pending_record())),
    decreases o.len(),
{
    reveal(Seq::filter);
    if o.len() > 0 {
        let d = o.drop_last();
        assert forall|a: int, b: int| 0 <= a < b < d.len() implies (#[trigger] d[a]).entry.command.event_sequence < (
        #[trigger] d[b]).entry.command.event_sequence by {
            assert(d[a] == o[a] && d[b] == o[b]);
        }
        lemma_filter_keeps_order(d);
        let fd = d.filter(pending_record());
        if pending_record()(o.last()) {
            let f = fd.push(o.last());
            assert forall|a: int, b: int| 0 <= a < b < f.len() implies (#[trigger] f[a]).entry.command.event_sequence < (
            #[trigger] f[b]).entry.command.event_sequence by {
                if b == fd.len() {
                    assert(fd.contains(fd[a]));
                    d.lemma_filter_contains_rev(pending_record(), fd[a]);
                    let j = choose|j: int| 0 <= j < d.len() && d[j] == fd[a];
                    assert(o[j] == d[j]);
                    assert(o[j].entry.command.event_sequence < o[o.len() - 1].entry.command.event_sequence);
                } else {
                    assert(f[a] == fd[a] && f[b] == fd[b]);
                }
            }
        }
    }
}

/// Commands are handed out for delivery in ship-log order.
pub proof fn law_pending_commands_in_ship_log_order(s: StoreView, limit: nat)
    requires
        store_wf(s),
    ensures
        forall|a: int, b: int|
            0 <= a < b < pending_batch(s.outbox, limit).len() ==> (#[trigger] pending_batch(s.outbox, limit)[a]).command.event_sequence
                < (#[trigger] pending_batch(s.outbox, limit)[b]).command.event_sequence,
{
    assert(in_ship_log_order(s.outbox));
    lemma_filter_keeps_order(s.outbox);
}

/// Outcomes that leave every earlier ship-log event and every outbound
/// command envelope as they were.
pub open spec fn keeps_log_and_envelopes(s: StoreView, ns: StoreView) -> bool {
    &&& ns.ship_id == s.ship_id
    &&& ns.next_sequence == s.next_sequence
    &&& ns.events == s.events
    &&& ns.outbox.len() == s.outbox.len()
    &&& forall|k: int| 0 <= k < s.outbox.len() ==> (#[trigger] ns.outbox[k]).entry.command == s.outbox[k].entry.command
}

/// The ship log and the outbox only grow: a save appends one event and one
/// command at their ends and leaves earlier ones as they were, and marking,
/// acknowledging, rejecting and recovering change delivery state only, never
/// an event or a command envelope (its id, sequence, document or version).
pub proof fn law_log_and_envelopes_are_append_only(
    s: StoreView,
    i: IntentView,
    command_id: u128,
    event_id: u128,
    base_revision: Option<Seq<char>>,
    reason: Seq<char>,
    permanent: bool,
    now: i64,
)
    ensures
        save_outcome(s, i, command_id, event_id, now) matches Ok((ns, c)) ==> {
            &&& ns.events.drop_last() == s.events
            &&& ns.outbox.drop_last() == s.outbox
        },
        mark_outcome(s, command_id, now) matches Ok(ns) ==> keeps_log_and_envelopes(s, ns),
        acknowledge_outcome(s, command_id, base_revision, now) matches Ok(ns) ==> keeps_log_and_envelopes(s, ns),
        reject_outcome(s, command_id, reason, permanent, now) matches Ok(ns) ==> keeps_log_and_envelopes(s, ns),
        keeps_log_and_envelopes(s, recover_outcome(s, now)),
{
    if let Ok((ns, c)) = save_outcome(s, i, command_id, event_id, now) {
        assert(ns.events.drop_last() =~= s.events);
        assert(ns.outbox.drop_last() =~= s.outbox);
    }
}

} // verus!
