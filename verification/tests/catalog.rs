//! Catalog construction: ordering and key deduplication.

use gold::uploader::build_catalog;

#[test]
fn catalog_keeps_input_order_and_labels() {
    let entries = vec![
        ("build/app.zip".to_string(), None),
        ("build/app.sha256".to_string(), Some("checksum".to_string())),
    ];
    let catalog = build_catalog("app", "v2.0.0", &entries);
    assert_eq!(catalog.len(), 2);
    assert_eq!(catalog[0].s3_key, "app/v2.0.0/app.zip");
    assert_eq!(catalog[0].file_path, "build/app.zip");
    assert_eq!(catalog[0].display_name, None);
    assert_eq!(catalog[1].s3_key, "app/v2.0.0/app.sha256");
    assert_eq!(catalog[1].file_path, "build/app.sha256");
    assert_eq!(catalog[1].display_name, Some("checksum".to_string()));
}

#[test]
fn duplicate_keys_keep_first_entry_only() {
    let entries = vec![
        ("a/f.zip".to_string(), None),
        ("b/f.zip".to_string(), Some("second".to_string())),
    ];
    let catalog = build_catalog("p", "t", &entries);
    assert_eq!(catalog.len(), 1);
    assert_eq!(catalog[0].s3_key, "p/t/f.zip");
    assert_eq!(catalog[0].file_path, "a/f.zip");
    assert_eq!(catalog[0].display_name, None);
}

#[test]
fn duplicate_keeps_first_position_among_others() {
    let entries = vec![
        ("one.txt".to_string(), None),
        ("x/two.txt".to_string(), None),
        ("y/two.txt".to_string(), None),
        ("three.txt".to_string(), None),
    ];
    let catalog = build_catalog("p", "t", &entries);
    let keys: Vec<&str> = catalog.iter().map(|a| a.s3_key.as_str()).collect();
    assert_eq!(keys, vec!["p/t/one.txt", "p/t/two.txt", "p/t/three.txt"]);
    assert_eq!(catalog[1].file_path, "x/two.txt");
}

#[test]
fn identical_path_twice_is_uploaded_once() {
    let entries = vec![
        ("app.zip".to_string(), None),
        ("app.zip".to_string(), None),
    ];
    let catalog = build_catalog("p", "t", &entries);
    assert_eq!(catalog.len(), 1);
}

#[test]
fn empty_entries_give_empty_catalog() {
    let entries: Vec<(String, Option<String>)> = Vec::new();
    let catalog = build_catalog("p", "t", &entries);
    assert!(catalog.is_empty());
}
