//! Reconstruction of logically-grouped Linux kernel audit events from a
//! stream of `key=value` text lines.
//!
//! The pipeline runs Source -> Parser -> Correlator -> Sink. This crate holds
//! the verified core: the record data model, the line parser, the correlation
//! engine that regroups records sharing an audit id, and the replay schedule
//! used by the deterministic log-replay source. Transport (netlink socket,
//! file reading, threads, sleeps) lives outside the library and hands in
//! plain values.

pub mod correlator;
pub mod parser;
pub mod record;
pub mod replay;
pub mod text;
