//! Core of a small HLS media-serving daemon: content addressing for dedup,
//! the session cache with its durable ledger, the job tracker, the
//! conversion-pipeline state machine, and safe artifact resolution.

pub mod ids;
pub mod keys;
pub mod kvmap;
pub mod media;
pub mod pipeline;
pub mod serve;
pub mod session;
pub mod store;
pub mod tracker;
