//! The storage capability the uploader depends on.
//!
//! The uploader is written against this trait, never against a concrete
//! provider; implementations live outside this crate and own their own
//! connection and session state. Nothing is assumed about the outcome of a
//! call: the uploader's contracts hold whatever a backend returns.

use vstd::prelude::*;

verus! {

/// A pluggable storage provider: it can stream a local file to a remote
/// object and check whether an object already exists.
pub trait StorageBackend {
    /// Streams the bytes of the file at `file_path` to the object addressed
    /// by `key`, labelled with `content_type` when one is given. Returns
    /// `Err` with the provider's description on any non-success outcome.
    fn upload_file(&self, key: &str, file_path: &str, content_type: Option<&str>) -> Result<
        (),
        String,
    >;

    /// Whether an object already exists at `key`; `Err` carries the
    /// provider's description when the check itself failed.
    fn file_exists(&self, key: &str) -> Result<bool, String>;
}

} // verus!
