//! An append-only log engine for one topic: records are framed into
//! fixed-capacity segment files with a sidecar index of `(id, offset)`
//! entries.
//!
//! This crate holds the verified core: the on-disk encoding, the appender's
//! bookkeeping of the active segment pair, the reader's stepping rules,
//! recovery of a segment pair after a crash, and the topic configuration.

pub mod consts;
pub mod formats;
pub mod error;
pub mod segment;
pub mod recovery;
pub mod reader;
pub mod config;
