//! Filesystem resolution: literal paths, directory rejection, globs, and
//! discovery across patterns. These tests run from the crate root, so the
//! crate's own files serve as the filesystem fixtures.

use gold::storage::StorageBackend;
use gold::uploader::{keep_existing_files, ReleaseUploader, UploadError};

struct NullStorage;

impl StorageBackend for NullStorage {
    fn upload_file(
        &self,
        _key: &str,
        _file_path: &str,
        _content_type: Option<&str>,
    ) -> Result<(), String> {
        Ok(())
    }

    fn file_exists(&self, _key: &str) -> Result<bool, String> {
        Ok(false)
    }
}

fn uploader() -> ReleaseUploader<NullStorage> {
    ReleaseUploader::new(NullStorage)
}

#[test]
fn literal_file_path_is_returned_alone() {
    let up = uploader();
    let files = up.find_matching_files("/etc/passwd").unwrap();
    assert_eq!(files, vec!["/etc/passwd".to_string()]);
}

#[test]
fn directory_is_rejected_with_glob_suggestion() {
    let up = uploader();
    match up.find_matching_files("/etc") {
        Err(UploadError::InvalidPattern { message }) => {
            assert!(message.contains("Directory '/etc'"));
            assert!(message.contains("/etc/*"));
            assert!(message.contains("cannot be uploaded directly"));
        }
        other => panic!("expected InvalidPattern, got {:?}", other),
    }
}

#[test]
fn malformed_glob_is_rejected() {
    let up = uploader();
    match up.find_matching_files("[") {
        Err(UploadError::InvalidPattern { message }) => {
            assert!(message.contains("Invalid glob pattern '['"));
        }
        other => panic!("expected InvalidPattern, got {:?}", other),
    }
}

#[test]
fn glob_finds_matching_files() {
    let up = uploader();
    let files = up.find_matching_files("/etc/passw*").unwrap();
    assert!(files.iter().any(|f| f == "/etc/passwd"));
}

#[test]
fn glob_matching_nothing_is_empty_not_an_error() {
    let up = uploader();
    let files = up.find_matching_files("zz_no_such_*_entry").unwrap();
    assert!(files.is_empty());
}

#[test]
fn glob_excludes_directories() {
    let up = uploader();
    let files = up.find_matching_files("/et*").unwrap();
    assert!(!files.iter().any(|f| f == "/etc"));
}

#[test]
fn discovery_combines_patterns_in_order() {
    let up = uploader();
    let patterns = vec![
        "/etc/passwd".to_string(),
        "/etc/group # groups".to_string(),
    ];
    let assets = up.discover_assets("app", "v1", &patterns).unwrap();
    assert_eq!(assets.len(), 2);
    assert_eq!(assets[0].file_path, "/etc/passwd");
    assert_eq!(assets[0].s3_key, "app/v1/passwd");
    assert_eq!(assets[0].display_name, None);
    assert_eq!(assets[1].file_path, "/etc/group");
    assert_eq!(assets[1].s3_key, "app/v1/group");
    assert_eq!(assets[1].display_name, Some("groups".to_string()));
}

#[test]
fn discovery_drops_duplicate_keys_across_patterns() {
    let up = uploader();
    let patterns = vec!["/etc/passwd".to_string(), "/etc/passwd # again".to_string()];
    let assets = up.discover_assets("app", "v1", &patterns).unwrap();
    assert_eq!(assets.len(), 1);
    assert_eq!(assets[0].display_name, None);
}

#[test]
fn discovery_fails_fast_on_a_bad_pattern() {
    let up = uploader();
    let patterns = vec!["/etc/passwd".to_string(), "/etc".to_string()];
    match up.discover_assets("app", "v1", &patterns) {
        Err(UploadError::InvalidPattern { message }) => {
            assert!(message.contains("/etc/*"));
        }
        other => panic!("expected InvalidPattern, got {:?}", other),
    }
}

#[test]
fn filter_keeps_only_regular_files_in_order() {
    let entries = vec![
        Ok("/etc/passwd".to_string()),
        Err("permission denied somewhere".to_string()),
        Ok("/etc".to_string()),
        Ok("/no/such/file_at_all".to_string()),
        Ok("/etc/group".to_string()),
    ];
    let files = keep_existing_files(&entries);
    assert_eq!(files, vec!["/etc/passwd".to_string(), "/etc/group".to_string()]);
}

#[test]
fn discovery_of_no_patterns_is_empty() {
    let up = uploader();
    let patterns: Vec<String> = Vec::new();
    let assets = up.discover_assets("app", "v1", &patterns).unwrap();
    assert!(assets.is_empty());
}
