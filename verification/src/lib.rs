//! Core of a personal time tracker: sessions with start/end timestamps,
//! a single-open-session controller, per-day aggregation, and a verified
//! text codec for the persisted session log.

mod clock;
pub mod codec;
pub mod controller;
pub mod format;
pub mod session;
pub mod store;
pub mod strutil;
