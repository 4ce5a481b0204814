//! Build-dispatch library for a firmware build farm: content fingerprints,
//! a deduplicating job registry, release-version resolution and request
//! statistics.

pub mod display;
pub mod registry;
pub mod request;
pub mod stats;
pub mod text;
pub mod versions;
