//! The sequential, fail-fast upload loop, driven by a recording backend.

use std::cell::RefCell;
use std::rc::Rc;

use gold::storage::StorageBackend;
use gold::uploader::{build_catalog, Asset, ReleaseUploader, UploadError};

type CallLog = Rc<RefCell<Vec<(String, String, Option<String>)>>>;

struct RecordingStorage {
    calls: CallLog,
    fail_on_call: Option<usize>,
}

impl StorageBackend for RecordingStorage {
    fn upload_file(
        &self,
        key: &str,
        file_path: &str,
        content_type: Option<&str>,
    ) -> Result<(), String> {
        let call_index = self.calls.borrow().len();
        self.calls.borrow_mut().push((
            key.to_string(),
            file_path.to_string(),
            content_type.map(|c| c.to_string()),
        ));
        if self.fail_on_call == Some(call_index) {
            Err("simulated transfer failure".to_string())
        } else {
            Ok(())
        }
    }

    fn file_exists(&self, _key: &str) -> Result<bool, String> {
        Ok(false)
    }
}

fn recording_uploader(
    fail_on_call: Option<usize>,
) -> (ReleaseUploader<RecordingStorage>, CallLog) {
    let calls: CallLog = Rc::new(RefCell::new(Vec::new()));
    let storage = RecordingStorage { calls: Rc::clone(&calls), fail_on_call };
    (ReleaseUploader::new(storage), calls)
}

fn asset(path: &str, key: &str) -> Asset {
    Asset { file_path: path.to_string(), display_name: None, s3_key: key.to_string() }
}

#[test]
fn uploads_run_in_catalog_order() {
    let (up, calls) = recording_uploader(None);
    let entries = vec![
        ("build/app.zip".to_string(), None),
        ("build/app.sha256".to_string(), Some("checksum".to_string())),
    ];
    let catalog = build_catalog("app", "v2.0.0", &entries);
    assert!(up.upload_assets(&catalog).is_ok());
    let calls = calls.borrow();
    assert_eq!(calls.len(), 2);
    assert_eq!(calls[0].0, "app/v2.0.0/app.zip");
    assert_eq!(calls[0].1, "build/app.zip");
    assert_eq!(calls[0].2, Some("application/zip".to_string()));
    assert_eq!(calls[1].0, "app/v2.0.0/app.sha256");
    assert_eq!(calls[1].1, "build/app.sha256");
    assert_eq!(calls[1].2, Some("application/octet-stream".to_string()));
}

#[test]
fn failure_stops_later_uploads_and_names_the_asset() {
    let (up, calls) = recording_uploader(Some(1));
    let assets = vec![
        asset("a/first.zip", "p/t/first.zip"),
        asset("a/second.zip", "p/t/second.zip"),
        asset("a/third.zip", "p/t/third.zip"),
    ];
    let result = up.upload_assets(&assets);
    match result {
        Err(UploadError::UploadFailed { file_path, message }) => {
            assert_eq!(file_path, "a/second.zip");
            assert!(message.contains("a/second.zip"));
            assert!(message.contains("simulated transfer failure"));
        }
        other => panic!("expected an upload failure, got {:?}", other),
    }
    let calls = calls.borrow();
    assert_eq!(calls.len(), 2, "the third asset must never be attempted");
    assert_eq!(calls[0].0, "p/t/first.zip");
    assert_eq!(calls[1].0, "p/t/second.zip");
}

#[test]
fn failure_on_first_asset_attempts_nothing_else() {
    let (up, calls) = recording_uploader(Some(0));
    let assets = vec![asset("x.txt", "p/t/x.txt"), asset("y.txt", "p/t/y.txt")];
    assert!(up.upload_assets(&assets).is_err());
    assert_eq!(calls.borrow().len(), 1);
}

#[test]
fn empty_pattern_set_reports_no_assets() {
    let (up, calls) = recording_uploader(None);
    let patterns: Vec<String> = Vec::new();
    match up.upload_release("pkg", "v1", &patterns) {
        Err(UploadError::NoAssetsFound { message }) => {
            assert!(message.contains("No assets found matching the specified patterns"));
        }
        other => panic!("expected NoAssetsFound, got {:?}", other),
    }
    assert!(calls.borrow().is_empty());
}

#[test]
fn patterns_matching_nothing_report_no_assets() {
    let (up, calls) = recording_uploader(None);
    let patterns = vec!["no_such_file_anywhere_*".to_string()];
    match up.upload_release("pkg", "v1", &patterns) {
        Err(UploadError::NoAssetsFound { message }) => {
            assert!(message.contains("no_such_file_anywhere_*"));
        }
        other => panic!("expected NoAssetsFound, got {:?}", other),
    }
    assert!(calls.borrow().is_empty());
}

#[test]
fn empty_catalog_is_rejected_with_the_patterns_named() {
    let (up, calls) = recording_uploader(None);
    let assets: Vec<Asset> = Vec::new();
    let patterns = vec!["left.zip".to_string(), "right.zip".to_string()];
    match up.upload_catalog(&assets, &patterns) {
        Err(UploadError::NoAssetsFound { message }) => {
            assert_eq!(
                message,
                "No assets found matching the specified patterns: left.zip, right.zip"
            );
        }
        other => panic!("expected NoAssetsFound, got {:?}", other),
    }
    assert!(calls.borrow().is_empty());
}

#[test]
fn nonempty_catalog_failure_is_never_reported_as_no_assets() {
    let (up, _calls) = recording_uploader(Some(0));
    let assets = vec![asset("x.txt", "p/t/x.txt")];
    let patterns = vec!["x.txt".to_string()];
    match up.upload_catalog(&assets, &patterns) {
        Err(UploadError::UploadFailed { file_path, .. }) => {
            assert_eq!(file_path, "x.txt");
        }
        other => panic!("expected UploadFailed, got {:?}", other),
    }
}

#[test]
fn release_of_an_existing_file_uploads_it() {
    let (up, calls) = recording_uploader(None);
    let patterns = vec!["/etc/passwd".to_string()];
    assert!(up.upload_release("pkg", "v9", &patterns).is_ok());
    let calls = calls.borrow();
    assert_eq!(calls.len(), 1);
    assert_eq!(calls[0].0, "pkg/v9/passwd");
    assert_eq!(calls[0].1, "/etc/passwd");
    assert_eq!(calls[0].2, Some("application/octet-stream".to_string()));
}
