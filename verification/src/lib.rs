//! Instrumentation for a cooperative task scheduler.
//!
//! An [`InstrumentedRuntime`] stands in for the scheduler it wraps: every
//! lifecycle operation of a task is recorded in an [`EventLog`] and then
//! handed on unchanged. [`instrument`] runs an operation under such a proxy
//! and returns what was recorded.
//!
//! The log is passed to every operation by `&mut`, and a scheduler hands it on
//! to the tasks it runs, so that one log is shared by a whole session and each
//! contract can say exactly which events an operation adds.

pub mod clock;
pub mod log;
pub mod message;
pub mod proxy;
pub mod ring;
pub mod runtime;
pub mod server;
pub mod session;
pub mod trace;

pub use log::EventLog;
pub use message::Message;
pub use ring::{init, recv, send, thread_ring, Pipe, RingTask};
pub use server::{move_out, server, Request};
pub use proxy::{install, uninstall, InstrumentedRuntime};
pub use runtime::{BlockedTask, LocalIo, Runtime, SpawnError, TaskOpts};
pub use session::instrument;
