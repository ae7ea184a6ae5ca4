//! A structured logging pipeline and its companion dual-mode identifier
//! scheme.
//!
//! - [`unique`] — 128-bit identifiers that are either pure-entropy unique
//!   tokens or entropy + slot-index composites, and a vector addressed by
//!   them with stale-identifier detection.
//! - [`log`] — the structured message records and the cheap, cloneable
//!   logger handle that feeds them into the pipeline's channel.
//! - [`consumer`] — the single background consumer's state machine: it
//!   assigns dense sequence indices, buffers, batches, and decides when the
//!   persistence document must be durably rewritten.
//! - [`codec`] — the serializer and parser for the on-disk persistence
//!   document, with a proved round-trip law.
//!
//! The waiting, the threads, the files and the panic hook live outside the
//! library; every decision they carry out is made by verified code here.

pub mod codec;
pub mod consumer;
pub mod log;
pub mod unique;
