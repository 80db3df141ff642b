//! Synchronization core of a per-language "quote of the day" service.
//!
//! A persistent catalog holds quotes; one quote per language is
//! recorded each day and served through a fast cache with a daily
//! expiry. The cache and the persistent record stay consistent under
//! concurrent readers, concurrent rotation triggers and partial
//! failures without any lock: the store's insert-or-ignore record is
//! idempotent, cache writes converge on the recorded quote, and a
//! reader falls back to the store whenever the cache misses or holds
//! a corrupted payload.
//!
//! The components: [`store`] is the catalog and the per-day records,
//! [`cache`] the expiring key-value side, [`selector`] the uniform
//! daily pick, [`resolver`] the cache-aside read path, [`scheduler`]
//! the rotation driver, and [`clock`] the timezone-aware reset-time
//! computation. [`codec`] defines the cached payload form, on the
//! fixed-width numerals of [`digits`].

pub mod cache;
pub mod clock;
pub mod codec;
pub mod date;
pub mod digits;
pub mod errors;
pub mod languages;
pub mod model;
pub mod monitor;
pub mod resolver;
pub mod roles;
pub mod scheduler;
pub mod selector;
pub mod store;
