//! Batch security-log burst detector.
//!
//! The library normalizes authentication/audit events into per-identity
//! timestamp groups, evaluates burst-detection rules over sliding windows
//! anchored at each group's most recent event, and deduplicates the
//! resulting findings across runs through a TTL-based seen-state cache.

pub mod config;
pub mod detector;
pub mod events;
pub mod findings;
pub mod linux_parser;
pub mod parser;
pub mod state;
pub mod strutil;
pub mod time;

pub use config::DetectorConfig;
