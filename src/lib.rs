//! Per-node barrier checkpoint coordinator for a streaming engine.
//!
//! - `barrier`: epochs, barriers and the inject request.
//! - `managed_state`: the barrier ledger of the node's partial graphs.
//! - `completion`: durability requests, reported in submission order.
//! - `scorer`: picks the root cause among concurrent failures.
//! - `control`: the control-plane protocol and the transport handle.
//! - `worker`: the coordinator, one step function per event.
//!
//! Beside it: row iteration over columnar chunks (`data_chunk`), per-table
//! write throughput samples (`throughput`) and the Postgres sink's defaults
//! (`postgres_config`).
pub mod barrier;
pub mod completion;
pub mod control;
pub mod data_chunk;
pub mod managed_state;
pub mod postgres_config;
pub mod scorer;
pub mod throughput;
pub mod worker;
