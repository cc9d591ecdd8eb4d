//! Tenant-scoped email engagement tracking: tenants own emails, emails own
//! append-only engagement events (opens and clicks), and per-tenant statistics
//! are aggregated on demand from the event log.

pub mod clock;
pub mod config;
pub mod database;
pub mod encoding;
pub mod error;
pub mod laws;
pub mod text;
pub mod track;
