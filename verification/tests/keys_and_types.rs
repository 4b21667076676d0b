//! Remote-key derivation and content-type inference.

use gold::keys::generate_key;
use gold::uploader::guess_content_type;

#[test]
fn key_is_package_tag_basename() {
    assert_eq!(generate_key("pkg", "v1", "path/to/foo.zip"), "pkg/v1/foo.zip");
}

#[test]
fn key_of_bare_file_name() {
    assert_eq!(generate_key("app", "v2.0.0", "app.sha256"), "app/v2.0.0/app.sha256");
}

#[test]
fn key_ignores_trailing_slashes() {
    assert_eq!(generate_key("p", "t", "dir/name/"), "p/t/name");
}

#[test]
fn key_falls_back_for_empty_path() {
    assert_eq!(generate_key("p", "t", ""), "p/t/unknown");
}

#[test]
fn key_falls_back_for_dot_dot_and_rootish_paths() {
    assert_eq!(generate_key("p", "t", "a/.."), "p/t/unknown");
    assert_eq!(generate_key("p", "t", "."), "p/t/unknown");
    assert_eq!(generate_key("p", "t", ".."), "p/t/unknown");
    assert_eq!(generate_key("p", "t", "/"), "p/t/unknown");
    assert_eq!(generate_key("p", "t", "/."), "p/t/unknown");
}

#[test]
fn key_skips_trailing_dot_components() {
    assert_eq!(generate_key("p", "t", "a/."), "p/t/a");
    assert_eq!(generate_key("p", "t", "foo.txt/."), "p/t/foo.txt");
    assert_eq!(generate_key("p", "t", "a/././"), "p/t/a");
}

#[test]
fn key_keeps_dotted_file_names() {
    assert_eq!(generate_key("p", "t", "a."), "p/t/a.");
    assert_eq!(generate_key("p", "t", "..."), "p/t/...");
    assert_eq!(generate_key("p", "t", "a/.hidden"), "p/t/.hidden");
}

#[test]
fn content_type_uses_last_extension_component() {
    assert_eq!(guess_content_type("archive.tar.gz"), Some("application/gzip"));
}

#[test]
fn content_type_defaults_without_extension() {
    assert_eq!(guess_content_type("noext"), Some("application/octet-stream"));
}

#[test]
fn content_type_table() {
    assert_eq!(guess_content_type("a.zip"), Some("application/zip"));
    assert_eq!(guess_content_type("a.tar"), Some("application/x-tar"));
    assert_eq!(guess_content_type("a.gz"), Some("application/gzip"));
    assert_eq!(guess_content_type("a.exe"), Some("application/octet-stream"));
    assert_eq!(guess_content_type("a.msi"), Some("application/x-msi"));
    assert_eq!(guess_content_type("a.dmg"), Some("application/x-apple-diskimage"));
    assert_eq!(guess_content_type("a.deb"), Some("application/vnd.debian.binary-package"));
    assert_eq!(guess_content_type("a.rpm"), Some("application/x-rpm"));
    assert_eq!(guess_content_type("a.json"), Some("application/json"));
    assert_eq!(guess_content_type("a.txt"), Some("text/plain"));
    assert_eq!(guess_content_type("a.md"), Some("text/markdown"));
}

#[test]
fn content_type_is_case_sensitive() {
    assert_eq!(guess_content_type("a.ZIP"), Some("application/octet-stream"));
}

#[test]
fn content_type_of_hidden_file_defaults() {
    assert_eq!(guess_content_type(".gitignore"), Some("application/octet-stream"));
}

#[test]
fn content_type_looks_only_at_final_component() {
    assert_eq!(guess_content_type("dir.zip/readme"), Some("application/octet-stream"));
}

#[test]
fn content_type_sees_through_trailing_dot_component() {
    assert_eq!(guess_content_type("dir.zip/."), Some("application/zip"));
}
