//! Channel tracking and event reconciliation for stream calendars.
//!
//! The library keeps the registry of tracked channels, decides which
//! upstream videos need to be checked on each refresh cycle, keeps the
//! watermark and pending-video bookkeeping, and owns the bounded
//! identifier-resolution cache. Network access, timers and persistence
//! to disk live outside; they hand plain values to the functions here.

pub mod clock;
pub mod events;
pub mod find;
pub mod ident_cache;
pub mod model;
pub mod parts;
pub mod patterns;
pub mod pending;
pub mod platform_b;
pub mod quota;
pub mod registry;
pub mod retry;
pub mod schedule;
pub mod sync;
pub mod text;
