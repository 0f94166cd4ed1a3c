//! An aggregation engine over append-only, per-session event logs: it
//! scans newline-delimited records, collapses repeated observations of
//! one logical message into a canonical record, folds the canonical
//! records into date-, model- and session-keyed summaries, and serves a
//! persisted summary where one parses, rebuilding from the logs where
//! none does. Scanning, merging and aggregation are verified; calls
//! into outside crates stand behind narrow trusted items.
#![verifier::loop_isolation(false)]

pub mod aggregate;
pub mod cache;
pub mod creds;
pub mod equiv;
pub mod event;
pub mod history;
pub mod json;
pub mod laws;
pub mod merge;
pub mod models;
pub mod stamp;
pub mod stats;
pub mod table;
pub mod today;
pub mod util;
