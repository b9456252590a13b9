//! A freshness-bounded view of running arena tournaments: decoding of pushed
//! snapshots, a time-bounded cache of the latest snapshot per arena, and the
//! projection of a snapshot into a personalised, paginated view.

pub mod arena;
pub mod client;
pub mod ongoing;
pub mod opt;
pub mod redis;
pub mod repo;
