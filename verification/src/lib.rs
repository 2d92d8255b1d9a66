//! Verified core of the HiGuard error dashboard server: roles and permissions,
//! stack-trace parsing, alert decisions, error aggregation, rate limiting and
//! the other rules the HTTP layer applies.
pub mod role;
pub mod text;
pub mod parse;
pub mod query;
pub mod config;
pub mod errors;
pub mod rate_limit;
pub mod namespace;
pub mod uuid_text;
pub mod alerts;
pub mod mailing;
pub mod aggregate;
pub mod report;
pub mod accounts;
pub mod sessions;
pub mod notifications;
pub mod issues;
