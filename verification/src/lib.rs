//! Decision logic of the AudioLink engine, each part stated over plain integers
//! and proved: adaptive bitrate, scheduled playout and the playout backlog, gain
//! ramps, the session and reconnect state machines, the pairing handshake, clock
//! probes, NACK bookkeeping, jitter control, the playout watchdog, silence and
//! latency measurement, telemetry, the unified device format and sync groups.
//!
//! Time is carried as `u64` microseconds on a monotonic clock (an `Instant`
//! becomes "microseconds since the process origin"), durations likewise.
use vstd::prelude::*;

pub mod adaptive;
pub mod arith;
pub mod backlog;
pub mod clock;
pub mod control;
pub mod dispatch;
pub mod epoch;
pub mod format_guard;
pub mod gain;
pub mod group;
pub mod handshake;
pub mod jitter;
pub mod measure;
pub mod nack;
pub mod payload;
pub mod playout;
pub mod receive;
pub mod reconnect;
pub mod sender;
pub mod session;
pub mod silence;
pub mod stream;
pub mod telemetry;
pub mod tick;
pub mod watchdog;

verus! {

} // verus!
