//! Supervisor core for per-workbook worker processes.
//!
//! The crate models and verifies the coordination logic of a desktop
//! application that runs one background server process per workbook
//! ("tenant"): port allocation from a fixed range, the stdout handshake by
//! which a freshly spawned worker reports its bound port, an in-memory
//! registry of running workers with window references and bounded automatic
//! restarts, and a job registry fed by a server-push event stream.
//!
//! All blocking work (spawning processes, HTTP calls, timeouts, the event
//! stream connection itself) lives outside this crate; the functions here
//! take the observed outcomes as plain values and decide what happens next.

use vstd::prelude::*;

pub mod events;
pub mod jobs;
pub mod ports;
pub mod registry;
pub mod strutil;
pub mod supervisor;

verus! {

/// First port of the window reserved for workbook runtime servers.
pub const RUNTIME_PORT_START: u16 = 55001;

/// Last port of the window reserved for workbook runtime servers.
pub const RUNTIME_PORT_END: u16 = 55049;

/// Bound on consecutive automatic restarts of a crashed worker.
pub const MAX_RESTARTS: u32 = 5;

/// Fixed delay between detecting a dead worker and re-spawning it.
pub const RESTART_DELAY_MS: u64 = 2000;

/// Terminal jobs older than this (milliseconds) are garbage-collected.
pub const JOB_RETENTION_MS: u64 = 3600000;

} // verus!
