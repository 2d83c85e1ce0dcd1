//! Verified core of the NCC-1701-H agent-command harness: the crew
//! vocabulary, the decisions of the command plane, the local-first Warp Core
//! store with its replication outbox, and the checks on owner input.

pub mod text;
pub mod crew;
pub mod orchestrator;
pub mod ids;
pub mod warpcore;
pub mod relay;
pub mod history;
pub mod batch;
pub mod bridge;
