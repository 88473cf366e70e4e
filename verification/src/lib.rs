//! The discovery and caching engine of a desktop application launcher.
//!
//! Shortcut files under the platform's shortcut directories are
//! resolved into [`app_info::AppInfo`] records by a scan over a modeled
//! directory tree ([`scanner`]), classified by path markers
//! ([`category`]), served through a two-tier TTL cache ([`cache`])
//! whose disk tier is one JSON snapshot file ([`cachefile`]), and
//! rendered through an icon pipeline with a content-addressed override
//! store ([`icon`]). The platform layer around this crate owns every
//! system call; the rules themselves are stated in the contracts here
//! and verified.

pub mod app_info;
pub mod cache;
pub mod cachefile;
pub mod category;
pub mod icon;
pub mod scanner;
pub mod text;

use vstd::prelude::*;

verus! {

/// Logging sink. The launcher deliberately performs no logging from its core;
/// this keeps the call sites of the surrounding code satisfied.
pub fn log_error(_error: &str) {
}

} // verus!
