//! Verified core of a bounce-notification relay.
//!
//! Inbound bounce (DSN) email messages are parsed into structured events,
//! matched against subscriber routes, and queued for signed webhook
//! delivery with exponential backoff and expiry.

use vstd::prelude::*;

pub mod backend;
pub mod columns;
pub mod dsn;
pub mod ingest;
pub mod payload;
pub mod queue;
pub mod retry;
pub mod routes;
pub mod sign;
pub mod text;
pub mod worker;

verus! {

/// Runtime configuration shared by the subcommands.
pub struct AppConfig {
    pub database_url: String,
    pub log_level: String,
    pub recipient_delimiter: char,
    pub worker_max_retries: i32,
    pub worker_max_delay_seconds: i64,
    pub worker_api_timeout_seconds: u64,
    pub worker_interval_seconds: u64,
    pub worker_items_per_iteration: u64,
}

} // verus!
