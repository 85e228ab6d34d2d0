//! A message buffer with at-least-once forwarding.
//!
//! Messages arrive one at a time, are queued in a [`buffer_db::BufferDb`], and
//! are handed to a delivery collaborator in batches. A message leaves the
//! buffer only when it was delivered or when it failed for so long that the
//! janitor discards it.
//!
//! * [`message`] and [`model`] say what a record and a buffer are, and what
//!   each operation makes of them.
//! * [`buffer_db`] is the buffer; [`forwarder`] is the pipeline around it:
//!   ingestion, recovery at startup, and the steps of the delivery, retry,
//!   janitor and statistics tasks.
//! * [`trace`] and [`laws`] state what holds over every sequence of
//!   operations; [`lemmas`] holds the facts that the proofs rest on.
//! * [`clock`] and [`decode`] hold what is taken on trust from the standard
//!   library: reading the time, and decoding bytes permissively.
//! * [`log_types`] and [`view_state`] hold the vocabulary of the logs that
//!   pass through and of the viewer that shows them.
//!
//! The buffer lives in memory. Keeping it on disk, the network and the
//! timers are the business of the program around this library.

pub mod message;
pub mod model;
pub mod trace;
pub mod lemmas;
pub mod laws;
pub mod buffer_db;
pub mod clock;
pub mod decode;
pub mod forwarder;
pub mod log_types;
pub mod view_state;
