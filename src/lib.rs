//! Approximate membership and frequency structures: a Bloom filter and a
//! Count-Min sketch that share one double-hashing position scheme.
//!
//! Both structures are plain owned values: mutation takes `&mut self`, so
//! threads that share one instance do so through a lock of their own.
//! Count-Min counters saturate at `u32::MAX` instead of wrapping, so an
//! estimate never falls below the true count (up to that bound).

pub mod bloom;
pub mod cms;
pub mod error;
pub mod traits;
pub mod utils;
