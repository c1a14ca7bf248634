//! Turns ModSecurity audit logs into one syslog-style line per transaction.
pub mod address;
pub mod datetime;
pub mod entry;
pub mod entry_laws;
pub mod laws;
pub mod lines;
pub mod message;
pub mod pattern;
pub mod proxies;
pub mod section;
pub mod text;
pub mod violation;
pub mod watch;
