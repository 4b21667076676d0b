//! A release-asset publisher: resolves local file patterns to concrete
//! files, derives a deterministic remote key for each, and uploads them in
//! order to a pluggable storage backend, with fail-fast error reporting.

pub mod config;
pub mod keys;
pub mod storage;
pub mod strings;
pub mod uploader;
