//! Asset discovery and the ordered, fail-fast upload pipeline.
//!
//! Discovery turns user-supplied patterns into a deduplicated, ordered list
//! of `Asset` records: each pattern is split into a glob part and an
//! optional display label, the glob part is resolved against the filesystem,
//! and every resolved file gets a remote key; a file whose key was already
//! produced earlier in the same run is dropped. Upload then walks the
//! catalog in order and stops at the first failing transfer.

use vstd::prelude::*;
use vstd::string::*;

use crate::keys::{content_type_spec, extension_str, generate_key, key_spec};
use crate::storage::StorageBackend;
use crate::strings::{find_char, first_index_of, lemma_first_index_of, str_eq, trim, trim_spec};
use std::io::Write;

verus! {

/// One discovered upload unit: an existing local file, the remote key that
/// addresses its destination, and the optional display label of the pattern
/// that produced it.
#[derive(Debug, Clone)]
pub struct Asset {
    pub file_path: String,
    pub display_name: Option<String>,
    pub s3_key: String,
}

/// The mathematical image of an `Asset`: each field as a character
/// sequence.
#[verifier::ext_equal]
pub struct AssetView {
    pub file_path: Seq<char>,
    pub display_name: Option<Seq<char>>,
    pub s3_key: Seq<char>,
}

impl View for Asset {
    type V = AssetView;

    open spec fn view(&self) -> AssetView {
        AssetView {
            file_path: self.file_path@,
            display_name: match self.display_name {
                Some(d) => Some(d@),
                None => None,
            },
            s3_key: self.s3_key@,
        }
    }
}

/// Why a release upload failed.
#[derive(Debug)]
pub enum UploadError {
    /// A malformed glob pattern, or a pattern naming a directory.
    InvalidPattern { message: String },
    /// Every pattern resolved to zero files.
    NoAssetsFound { message: String },
    /// One asset's transfer failed; assets after it were not attempted.
    UploadFailed { file_path: String, message: String },
}

/// Splits a pattern into its glob part and optional display label:
/// everything before the first `#` and everything after it, each trimmed;
/// without a `#`, the whole trimmed pattern and no label.
pub open spec fn parse_pattern_spec(p: Seq<char>) -> (Seq<char>, Option<Seq<char>>) {
    let h = first_index_of(p, '#');
    if h < p.len() {
        (trim_spec(p.subrange(0, h)), Some(trim_spec(p.subrange(h + 1, p.len() as int))))
    } else {
        (trim_spec(p), None)
    }
}

/// Law: a pattern without a `#` separator parses to its trimmed self and no
/// display label.
pub proof fn lemma_parse_pattern_no_separator(p: Seq<char>)
    requires
        forall|i: int| 0 <= i < p.len() ==> p[i] != '#',
    ensures
        parse_pattern_spec(p) == (trim_spec(p), None::<Seq<char>>),
{
    lemma_first_index_of(p, '#');
}

/// Law: a pattern `a#b` whose part `a` holds no `#` parses to the trimmed
/// `a` with the trimmed `b` as display label — only the first `#` acts as
/// the separator, whatever `b` holds.
pub proof fn lemma_parse_pattern_separator(a: Seq<char>, b: Seq<char>)
    requires
        forall|i: int| 0 <= i < a.len() ==> a[i] != '#',
    ensures
        parse_pattern_spec(a + "#"@ + b) == (trim_spec(a), Some(trim_spec(b))),
{
    reveal_strlit("#");
    let p = a + "#"@ + b;
    lemma_first_index_of(p, '#');
    let h = first_index_of(p, '#');
    assert(p[a.len() as int] == '#');
    assert(h <= a.len());
    if h < a.len() {
        assert(p[h] == a[h]);
        assert(false);
    }
    assert(p.subrange(0, a.len() as int) =~= a);
    assert(p.subrange(a.len() as int + 1, p.len() as int) =~= b);
}

/// The MIME type for a path, inferred from its extension; unknown or
/// missing extensions fall back to the generic binary type. Never absent.
pub fn guess_content_type(file_path: &str) -> (r: Option<&'static str>)
    ensures
        match r {
            Some(ct) => ct@ == content_type_spec(file_path@),
            None => false,
        },
{
    match extension_str(file_path) {
        Some(e) => {
            if str_eq(e, "zip") {
                Some("application/zip")
            } else if str_eq(e, "tar") {
                Some("application/x-tar")
            } else if str_eq(e, "gz") {
                Some("application/gzip")
            } else if str_eq(e, "exe") {
                Some("application/octet-stream")
            } else if str_eq(e, "msi") {
                Some("application/x-msi")
            } else if str_eq(e, "dmg") {
                Some("application/x-apple-diskimage")
            } else if str_eq(e, "deb") {
                Some("application/vnd.debian.binary-package")
            } else if str_eq(e, "rpm") {
                Some("application/x-rpm")
            } else if str_eq(e, "json") {
                Some("application/json")
            } else if str_eq(e, "txt") {
                Some("text/plain")
            } else if str_eq(e, "md") {
                Some("text/markdown")
            } else {
                Some("application/octet-stream")
            }
        },
        None => Some("application/octet-stream"),
    }
}

/// The text of the error for a pattern that names a directory: it shows the
/// directory and suggests the equivalent glob form.
pub open spec fn dir_error_message_spec(p: Seq<char>) -> Seq<char> {
    "Directory '"@ + p + "' cannot be uploaded directly. Use a glob pattern like '"@ + p
        + "/*' to upload files from the directory."@
}

/// Law: the directory-rejection message names the rejected directory and
/// carries the `<dir>/*` suggestion.
pub proof fn lemma_dir_error_names_directory(p: Seq<char>)
    ensures
        exists|i: int|
            0 <= i && i + p.len() <= dir_error_message_spec(p).len()
                && #[trigger] dir_error_message_spec(p).subrange(i, i + p.len()) == p,
        exists|i: int|
            0 <= i && i + p.len() + 2 <= dir_error_message_spec(p).len()
                && #[trigger] dir_error_message_spec(p).subrange(i, i + p.len() + 2) == p + "/*"@,
{
    reveal_strlit("Directory '");
    reveal_strlit("' cannot be uploaded directly. Use a glob pattern like '");
    reveal_strlit("/*' to upload files from the directory.");
    reveal_strlit("/*");
    let m = dir_error_message_spec(p);
    let i1 = "Directory '"@.len() as int;
    assert(m.subrange(i1, i1 + p.len()) =~= p);
    let i2 = i1 + p.len() + "' cannot be uploaded directly. Use a glob pattern like '"@.len();
    assert(m.subrange(i2, i2 + p.len() + 2) =~= p + "/*"@);
}

/// The text of the error for a glob pattern the parser refuses; `detail` is
/// the parser's own complaint.
pub open spec fn glob_error_message_spec(p: Seq<char>, detail: Seq<char>) -> Seq<char> {
    "Invalid glob pattern '"@ + p + "': "@ + detail
}

/// The text of the error reported when no pattern resolved to any file: it
/// names every pattern that was tried.
pub open spec fn no_assets_message_spec(ps: Seq<Seq<char>>) -> Seq<char> {
    "No assets found matching the specified patterns: "@ + joined_with_commas(ps)
}

/// The given strings joined by a comma and a space.
pub open spec fn joined_with_commas(ps: Seq<Seq<char>>) -> Seq<char>
    decreases ps.len(),
{
    if ps.len() == 0 {
        Seq::empty()
    } else if ps.len() == 1 {
        ps[0]
    } else {
        joined_with_commas(ps.drop_last()) + ", "@ + ps.last()
    }
}

/// The text of the error for one failed transfer: it names the asset's
/// local path and carries the backend's description.
pub open spec fn upload_failed_message_spec(path: Seq<char>, detail: Seq<char>) -> Seq<char> {
    "Failed to upload asset: "@ + path + ": "@ + detail
}

/// Whether an upload error is a transfer failure that names the local path
/// of one of the given assets, with the message built from that path.
pub open spec fn failure_names_an_asset(assets: Seq<Asset>, e: UploadError) -> bool {
    match e {
        UploadError::UploadFailed { file_path, message } => {
            &&& exists|i: int|
                0 <= i < assets.len() && #[trigger] assets[i].file_path@ == file_path@
            &&& exists|d: Seq<char>| message@ == upload_failed_message_spec(file_path@, d)
        },
        _ => false,
    }
}

/// The glob parser's complaint about a pattern, if it refuses it. The
/// parser reads the pattern alone, so its verdict is a function of the
/// pattern: absent for every pattern it accepts, and present, with the
/// complaint's text, for every pattern it refuses.
pub uninterp spec fn glob_parse_complaint(p: Seq<char>) -> Option<Seq<char>>;

/// The paths of the entries a glob walk yielded without error, in order.
pub open spec fn ok_paths(entries: Seq<Result<String, String>>) -> Seq<Seq<char>>
    decreases entries.len(),
{
    if entries.len() == 0 {
        Seq::empty()
    } else {
        let rest = ok_paths(entries.drop_last());
        match entries.last() {
            Ok(p) => rest.push(p@),
            Err(w) => rest,
        }
    }
}

/// Whether `idx` embeds `sub` into `full` in order: it maps each position
/// of `sub` to a strictly later position of `full` holding the same value.
pub open spec fn embedding_into(idx: Seq<int>, sub: Seq<Seq<char>>, full: Seq<Seq<char>>) -> bool {
    &&& idx.len() == sub.len()
    &&& forall|k: int|
        0 <= k < idx.len() ==> 0 <= #[trigger] idx[k] < full.len() && sub[k] == full[idx[k]]
    &&& forall|k: int| 0 <= k < idx.len() - 1 ==> #[trigger] idx[k] < idx[k + 1]
}

/// Whether `sub` is an order-preserving selection from `full`.
pub open spec fn selected_in_order_from(sub: Seq<Seq<char>>, full: Seq<Seq<char>>) -> bool {
    exists|idx: Seq<int>| embedding_into(idx, sub, full)
}

/// Relies on std::path::Path::is_file: whether the path currently names an
/// existing regular file. The answer depends on the machine's filesystem,
/// so nothing is assumed of it.
#[verifier::external_body]
fn path_is_file(path: &str) -> bool {
    std::path::Path::new(path).is_file()
}

/// Relies on std::path::Path::is_dir: whether the path currently names an
/// existing directory. The answer depends on the machine's filesystem, so
/// nothing is assumed of it.
#[verifier::external_body]
fn path_is_dir(path: &str) -> bool {
    std::path::Path::new(path).is_dir()
}

/// Relies on glob::glob: evaluates a glob pattern against the filesystem.
/// `Err` comes only from the parser and carries its complaint for a
/// syntactically invalid pattern — the parser reads the pattern alone, so
/// that outcome is `glob_parse_complaint` of the pattern. `Ok` holds one
/// entry per match in the order the walk yields them (alphabetical, per
/// the crate's documentation), each either a matched path or the text of
/// the error met while reading it. What is matched depends on the
/// machine's filesystem, so nothing is assumed of the entries.
#[verifier::external_body]
fn glob_entries(pattern: &str) -> (r: Result<Vec<Result<String, String>>, String>)
    ensures
        match r {
            Ok(entries) => glob_parse_complaint(pattern@) is None,
            Err(d) => glob_parse_complaint(pattern@) == Some(d@),
        },
{
    match glob::glob(pattern) {
        Ok(paths) => Ok(
            paths.map(
                |entry| match entry {
                    Ok(p) => Ok(p.to_string_lossy().into_owned()),
                    Err(e) => Err(e.to_string()),
                },
            ).collect(),
        ),
        Err(e) => Err(e.to_string()),
    }
}

/// Relies on std::io::Stdout: writes one line of progress text.
#[verifier::external_body]
fn emit_line(line: &str) {
    let _ = writeln!(std::io::stdout(), "{}", line);
}

/// Relies on std::io::Stderr: writes one line of warning text.
#[verifier::external_body]
fn emit_warning(line: &str) {
    let _ = writeln!(std::io::stderr(), "{}", line);
}

/// Relies on std::io::Stdout: writes the line announcing how many assets
/// were discovered.
#[verifier::external_body]
fn report_asset_count(count: usize) {
    let _ = writeln!(std::io::stdout(), "Found {} assets to upload:", count);
}

/// Builds the no-assets error text, naming every pattern that was tried.
fn no_assets_message(patterns: &[String]) -> (r: String)
    ensures
        r@ == no_assets_message_spec(patterns@.map_values(|p: String| p@)),
{
    let ghost pvs = patterns@.map_values(|p: String| p@);
    let mut m = String::from_str("No assets found matching the specified patterns: ");
    proof {
        assert(m@ =~= "No assets found matching the specified patterns: "@ + joined_with_commas(
            pvs.subrange(0, 0),
        ));
    }
    let mut i: usize = 0;
    while i < patterns.len()
        invariant
            i <= patterns@.len(),
            pvs == patterns@.map_values(|p: String| p@),
            m@ == "No assets found matching the specified patterns: "@ + joined_with_commas(
                pvs.subrange(0, i as int),
            ),
        decreases patterns@.len() - i,
    {
        if i > 0 {
            m.append(", ");
        }
        m.append(patterns[i].as_str());
        proof {
            let sub = pvs.subrange(0, i + 1);
            assert(sub.drop_last() =~= pvs.subrange(0, i as int));
            assert(sub.last() == patterns@[i as int]@);
            assert(m@ =~= "No assets found matching the specified patterns: "@
                + joined_with_commas(sub));
        }
        i = i + 1;
    }
    proof {
        assert(pvs.subrange(0, patterns@.len() as int) =~= pvs);
    }
    m
}

/// Builds the directory-rejection error text.
fn dir_error_message(pattern: &str) -> (r: String)
    ensures
        r@ == dir_error_message_spec(pattern@),
{
    let mut m = String::from_str("Directory '");
    m.append(pattern);
    m.append("' cannot be uploaded directly. Use a glob pattern like '");
    m.append(pattern);
    m.append("/*' to upload files from the directory.");
    proof {
        assert(m@ =~= dir_error_message_spec(pattern@));
    }
    m
}

/// The view of one resolved file before deduplication: its path and the
/// display label of the pattern that matched it.
pub open spec fn entry_view(e: (String, Option<String>)) -> (Seq<char>, Option<Seq<char>>) {
    (
        e.0@,
        match e.1 {
            Some(d) => Some(d@),
            None => None,
        },
    )
}

/// The views of a list of resolved files.
pub open spec fn entries_view(v: Seq<(String, Option<String>)>) -> Seq<
    (Seq<char>, Option<Seq<char>>),
> {
    v.map_values(|e: (String, Option<String>)| entry_view(e))
}

/// The views of a list of assets.
pub open spec fn assets_view(v: Seq<Asset>) -> Seq<AssetView> {
    v.map_values(|a: Asset| a@)
}

/// The asset one resolved file yields for a release.
pub open spec fn asset_of_entry(
    package: Seq<char>,
    tag: Seq<char>,
    e: (Seq<char>, Option<Seq<char>>),
) -> AssetView {
    AssetView { file_path: e.0, display_name: e.1, s3_key: key_spec(package, tag, e.0) }
}

/// Whether some asset of the catalog already claims the key.
pub open spec fn catalog_has_key(c: Seq<AssetView>, k: Seq<char>) -> bool {
    exists|i: int| 0 <= i < c.len() && c[i].s3_key == k
}

/// The catalog a list of resolved files yields: one asset per file, in
/// resolution order, dropping every file whose remote key was already
/// produced by an earlier file.
pub open spec fn catalog_of(
    package: Seq<char>,
    tag: Seq<char>,
    entries: Seq<(Seq<char>, Option<Seq<char>>)>,
) -> Seq<AssetView>
    decreases entries.len(),
{
    if entries.len() == 0 {
        Seq::empty()
    } else {
        let prefix = catalog_of(package, tag, entries.drop_last());
        let a = asset_of_entry(package, tag, entries.last());
        if catalog_has_key(prefix, a.s3_key) {
            prefix
        } else {
            prefix.push(a)
        }
    }
}

/// Law: every asset of a catalog was built from one of the resolved files.
pub proof fn lemma_catalog_assets_from_entries(
    package: Seq<char>,
    tag: Seq<char>,
    entries: Seq<(Seq<char>, Option<Seq<char>>)>,
)
    ensures
        forall|j: int|
            0 <= j < catalog_of(package, tag, entries).len() ==> exists|m: int|
                0 <= m < entries.len() && #[trigger] catalog_of(package, tag, entries)[j]
                    == asset_of_entry(package, tag, entries[m]),
    decreases entries.len(),
{
    if entries.len() > 0 {
        let rest = entries.drop_last();
        let cat = catalog_of(package, tag, entries);
        let prefix = catalog_of(package, tag, rest);
        lemma_catalog_assets_from_entries(package, tag, rest);
        assert forall|j: int| 0 <= j < cat.len() implies exists|m: int|
            0 <= m < entries.len() && #[trigger] cat[j] == asset_of_entry(
                package,
                tag,
                entries[m],
            ) by {
            if j < prefix.len() {
                let m = choose|m: int|
                    0 <= m < rest.len() && #[trigger] prefix[j] == asset_of_entry(
                        package,
                        tag,
                        rest[m],
                    );
                assert(entries[m] == rest[m]);
                assert(cat[j] == asset_of_entry(package, tag, entries[m]));
            } else {
                assert(cat[j] == asset_of_entry(package, tag, entries[entries.len() - 1]));
            }
        }
    }
}

/// Law: the remote keys of a catalog are pairwise distinct — resolved
/// files sharing a key yield exactly one asset.
pub proof fn lemma_catalog_keys_distinct(
    package: Seq<char>,
    tag: Seq<char>,
    entries: Seq<(Seq<char>, Option<Seq<char>>)>,
)
    ensures
        forall|i: int, j: int|
            0 <= i < j < catalog_of(package, tag, entries).len() ==> #[trigger] catalog_of(
                package,
                tag,
                entries,
            )[i].s3_key != #[trigger] catalog_of(package, tag, entries)[j].s3_key,
    decreases entries.len(),
{
    if entries.len() > 0 {
        let rest = entries.drop_last();
        lemma_catalog_keys_distinct(package, tag, rest);
        let cat = catalog_of(package, tag, entries);
        let prefix = catalog_of(package, tag, rest);
        let a = asset_of_entry(package, tag, entries.last());
        if !catalog_has_key(prefix, a.s3_key) {
            assert forall|i: int, j: int| 0 <= i < j < cat.len() implies #[trigger] cat[i].s3_key
                != #[trigger] cat[j].s3_key by {
                if j == cat.len() - 1 {
                    assert(cat[i] == prefix[i]);
                    assert(!(exists|m: int|
                        0 <= m < prefix.len() && #[trigger] prefix[m].s3_key == a.s3_key));
                } else {
                    assert(cat[i] == prefix[i]);
                    assert(cat[j] == prefix[j]);
                }
            }
        }
    }
}

/// Law: every resolved file's remote key is claimed by some asset of the
/// catalog.
pub proof fn lemma_catalog_covers_keys(
    package: Seq<char>,
    tag: Seq<char>,
    entries: Seq<(Seq<char>, Option<Seq<char>>)>,
    i: int,
)
    requires
        0 <= i < entries.len(),
    ensures
        catalog_has_key(catalog_of(package, tag, entries), key_spec(package, tag, entries[i].0)),
    decreases entries.len(),
{
    let rest = entries.drop_last();
    let cat = catalog_of(package, tag, entries);
    let prefix = catalog_of(package, tag, rest);
    let a = asset_of_entry(package, tag, entries.last());
    let k = key_spec(package, tag, entries[i].0);
    if i < entries.len() - 1 {
        lemma_catalog_covers_keys(package, tag, rest, i);
        let m = choose|m: int| 0 <= m < prefix.len() && #[trigger] prefix[m].s3_key == k;
        if catalog_has_key(prefix, a.s3_key) {
            assert(cat[m].s3_key == k);
        } else {
            assert(cat[m].s3_key == k);
        }
    } else {
        if catalog_has_key(prefix, a.s3_key) {
            let m = choose|m: int| 0 <= m < prefix.len() && #[trigger] prefix[m].s3_key == a.s3_key;
            assert(cat[m].s3_key == k);
        } else {
            assert(cat[cat.len() - 1].s3_key == k);
        }
    }
}

/// Law: the earliest resolved file with a given remote key survives
/// deduplication unchanged — the catalog holds exactly its path and
/// display label under that key.
pub proof fn lemma_catalog_first_wins(
    package: Seq<char>,
    tag: Seq<char>,
    entries: Seq<(Seq<char>, Option<Seq<char>>)>,
    i: int,
)
    requires
        0 <= i < entries.len(),
        forall|m: int|
            0 <= m < i ==> key_spec(package, tag, #[trigger] entries[m].0) != key_spec(
                package,
                tag,
                entries[i].0,
            ),
    ensures
        exists|j: int|
            0 <= j < catalog_of(package, tag, entries).len() && #[trigger] catalog_of(
                package,
                tag,
                entries,
            )[j] == asset_of_entry(package, tag, entries[i]),
    decreases entries.len(),
{
    let rest = entries.drop_last();
    let cat = catalog_of(package, tag, entries);
    let prefix = catalog_of(package, tag, rest);
    let a = asset_of_entry(package, tag, entries.last());
    if i < entries.len() - 1 {
        assert(forall|m: int| 0 <= m < i ==> rest[m] == entries[m]);
        assert(rest[i] == entries[i]);
        lemma_catalog_first_wins(package, tag, rest, i);
        let j = choose|j: int|
            0 <= j < prefix.len() && #[trigger] prefix[j] == asset_of_entry(package, tag, rest[i]);
        assert(cat[j] == asset_of_entry(package, tag, entries[i]));
    } else {
        if catalog_has_key(prefix, a.s3_key) {
            let m = choose|m: int| 0 <= m < prefix.len() && #[trigger] prefix[m].s3_key == a.s3_key;
            lemma_catalog_assets_from_entries(package, tag, rest);
            let w = choose|w: int|
                0 <= w < rest.len() && #[trigger] prefix[m] == asset_of_entry(package, tag, rest[w]);
            assert(key_spec(package, tag, entries[w].0) == a.s3_key);
            assert(false);
        } else {
            assert(cat[cat.len() - 1] == a);
        }
    }
}

/// Law: deduplication keeps resolution order — the surviving assets of two
/// first-occurrence entries stand in the catalog in the order the entries
/// were resolved.
pub proof fn lemma_catalog_keeps_order(
    package: Seq<char>,
    tag: Seq<char>,
    entries: Seq<(Seq<char>, Option<Seq<char>>)>,
    i1: int,
    i2: int,
)
    requires
        0 <= i1 < i2 < entries.len(),
        forall|m: int|
            0 <= m < i1 ==> key_spec(package, tag, #[trigger] entries[m].0) != key_spec(
                package,
                tag,
                entries[i1].0,
            ),
        forall|m: int|
            0 <= m < i2 ==> key_spec(package, tag, #[trigger] entries[m].0) != key_spec(
                package,
                tag,
                entries[i2].0,
            ),
    ensures
        exists|j1: int, j2: int|
            0 <= j1 < j2 < catalog_of(package, tag, entries).len() && #[trigger] catalog_of(
                package,
                tag,
                entries,
            )[j1] == asset_of_entry(package, tag, entries[i1]) && #[trigger] catalog_of(
                package,
                tag,
                entries,
            )[j2] == asset_of_entry(package, tag, entries[i2]),
    decreases entries.len(),
{
    let rest = entries.drop_last();
    let cat = catalog_of(package, tag, entries);
    let prefix = catalog_of(package, tag, rest);
    let a = asset_of_entry(package, tag, entries.last());
    if i2 < entries.len() - 1 {
        assert(forall|m: int| 0 <= m < i2 ==> rest[m] == entries[m]);
        lemma_catalog_keeps_order(package, tag, rest, i1, i2);
        let (j1, j2) = choose|j1: int, j2: int|
            0 <= j1 < j2 < prefix.len() && #[trigger] prefix[j1] == asset_of_entry(
                package,
                tag,
                rest[i1],
            ) && #[trigger] prefix[j2] == asset_of_entry(package, tag, rest[i2]);
        assert(cat[j1] == asset_of_entry(package, tag, entries[i1]));
        assert(cat[j2] == asset_of_entry(package, tag, entries[i2]));
    } else {
        assert(forall|m: int| 0 <= m < i1 ==> rest[m] == entries[m]);
        assert(rest[i1] == entries[i1]);
        lemma_catalog_first_wins(package, tag, rest, i1);
        let j1 = choose|j1: int|
            0 <= j1 < prefix.len() && #[trigger] prefix[j1] == asset_of_entry(
                package,
                tag,
                rest[i1],
            );
        if catalog_has_key(prefix, a.s3_key) {
            let m = choose|m: int| 0 <= m < prefix.len() && #[trigger] prefix[m].s3_key == a.s3_key;
            lemma_catalog_assets_from_entries(package, tag, rest);
            let w = choose|w: int|
                0 <= w < rest.len() && #[trigger] prefix[m] == asset_of_entry(package, tag, rest[w]);
            assert(key_spec(package, tag, entries[w].0) == a.s3_key);
            assert(false);
        } else {
            let j2 = prefix.len() as int;
            assert(cat[j1] == asset_of_entry(package, tag, entries[i1]));
            assert(cat[j2] == asset_of_entry(package, tag, entries[i2]));
        }
    }
}

/// Whether some asset of the list already claims the key, executably.
fn contains_key(assets: &Vec<Asset>, key: &String) -> (r: bool)
    ensures
        r == catalog_has_key(assets_view(assets@), key@),
{
    let mut i: usize = 0;
    while i < assets.len()
        invariant
            i <= assets@.len(),
            forall|j: int| 0 <= j < i ==> #[trigger] assets@[j].s3_key@ != key@,
        decreases assets@.len() - i,
    {
        if str_eq(assets[i].s3_key.as_str(), key.as_str()) {
            assert(assets_view(assets@)[i as int].s3_key == key@);
            return true;
        }
        i = i + 1;
    }
    assert forall|j: int| 0 <= j < assets_view(assets@).len() implies #[trigger] assets_view(
        assets@,
    )[j].s3_key != key@ by {
        assert(assets_view(assets@)[j] == assets@[j]@);
    }
    false
}

/// Builds the deduplicated catalog for a release from the resolved files,
/// in resolution order: the first file to claim a remote key keeps it,
/// later files with the same key are dropped.
pub fn build_catalog(
    package_name: &str,
    tag: &str,
    entries: &Vec<(String, Option<String>)>,
) -> (r: Vec<Asset>)
    ensures
        assets_view(r@) == catalog_of(package_name@, tag@, entries_view(entries@)),
{
    let ghost evs = entries_view(entries@);
    let mut assets: Vec<Asset> = Vec::new();
    let mut i: usize = 0;
    while i < entries.len()
        invariant
            i <= entries@.len(),
            evs == entries_view(entries@),
            assets_view(assets@) == catalog_of(package_name@, tag@, evs.subrange(0, i as int)),
        decreases entries@.len() - i,
    {
        let key = generate_key(package_name, tag, entries[i].0.as_str());
        let ghost prev = assets_view(assets@);
        if !contains_key(&assets, &key) {
            let display = match &entries[i].1 {
                Some(d) => Some(d.clone()),
                None => None,
            };
            assets.push(
                Asset { file_path: entries[i].0.clone(), display_name: display, s3_key: key },
            );
            proof {
                assert(assets_view(assets@) =~= prev.push(assets@.last()@));
                assert(assets@.last()@ == asset_of_entry(
                    package_name@,
                    tag@,
                    entry_view(entries@[i as int]),
                ));
            }
        }
        proof {
            let sub = evs.subrange(0, i + 1);
            assert(sub.drop_last() =~= evs.subrange(0, i as int));
            assert(sub.last() == entry_view(entries@[i as int]));
            assert(assets_view(assets@) =~= catalog_of(package_name@, tag@, sub));
        }
        i = i + 1;
    }
    proof {
        assert(evs.subrange(0, entries@.len() as int) =~= evs);
    }
    assets
}

/// Whether `bounds` divides the resolved-file stream into consecutive
/// blocks, one per pattern in input order, every file of block `k`
/// carrying the display label parsed from pattern `k`.
pub open spec fn grouping_bounds(
    bounds: Seq<int>,
    entries: Seq<(Seq<char>, Option<Seq<char>>)>,
    patterns: Seq<Seq<char>>,
) -> bool {
    &&& bounds.len() == patterns.len() + 1
    &&& bounds[0] == 0
    &&& bounds[patterns.len() as int] == entries.len()
    &&& forall|k: int| 0 <= k < patterns.len() ==> #[trigger] bounds[k] <= bounds[k + 1]
    &&& forall|k: int, j: int|
        #![trigger bounds[k], entries[j]]
        0 <= k < patterns.len() && bounds[k] <= j < bounds[k + 1] ==> entries[j].1
            == parse_pattern_spec(patterns[k]).1
}

/// Whether the resolved-file stream divides into consecutive blocks, one
/// per pattern in input order, with each block's display labels parsed
/// from its pattern.
pub open spec fn grouped_by_patterns(
    entries: Seq<(Seq<char>, Option<Seq<char>>)>,
    patterns: Seq<Seq<char>>,
) -> bool {
    exists|bounds: Seq<int>| grouping_bounds(bounds, entries, patterns)
}

proof fn lemma_block_of_index(bounds: Seq<int>, n: int, m: int)
    requires
        1 <= n < bounds.len(),
        bounds[0] == 0,
        forall|k: int| 0 <= k < n ==> #[trigger] bounds[k] <= bounds[k + 1],
        0 <= m < bounds[n],
    ensures
        exists|k: int| 0 <= k < n && #[trigger] bounds[k] <= m && m < bounds[k + 1],
    decreases n,
{
    if bounds[n - 1] <= m {
        assert(bounds[n - 1] <= m && m < bounds[n]);
    } else {
        lemma_block_of_index(bounds, n - 1, m);
    }
}

/// Keeps, in order, those error-free glob matches that currently name a
/// regular file: the result is an order-preserving selection from the
/// walk's error-free paths. Entries that erred while being read are
/// reported as warnings and skipped, never fatal; matches that are not
/// regular files are silently excluded.
pub fn keep_existing_files(entries: &Vec<Result<String, String>>) -> (r: Vec<String>)
    ensures
        selected_in_order_from(r@.map_values(|p: String| p@), ok_paths(entries@)),
{
    let mut files: Vec<String> = Vec::new();
    let ghost mut emb: Seq<int> = Seq::empty();
    let mut i: usize = 0;
    proof {
        assert(entries@.subrange(0, 0) =~= Seq::<Result<String, String>>::empty());
        assert(files@.map_values(|p: String| p@) =~= Seq::<Seq<char>>::empty());
    }
    while i < entries.len()
        invariant
            i <= entries@.len(),
            embedding_into(
                emb,
                files@.map_values(|p: String| p@),
                ok_paths(entries@.subrange(0, i as int)),
            ),
        decreases entries@.len() - i,
    {
        let ghost prev_files = files@.map_values(|p: String| p@);
        let ghost prev_ok = ok_paths(entries@.subrange(0, i as int));
        match &entries[i] {
            Ok(path) => {
                if path_is_file(path.as_str()) {
                    files.push(path.clone());
                    proof {
                        emb = emb.push(prev_ok.len() as int);
                    }
                }
            },
            Err(detail) => {
                let mut w = String::from_str("Warning: Error reading path in glob pattern: ");
                w.append(detail.as_str());
                emit_warning(w.as_str());
            },
        }
        proof {
            let sub = entries@.subrange(0, i + 1);
            assert(sub.drop_last() =~= entries@.subrange(0, i as int));
            assert(sub.last() == entries@[i as int]);
            let new_files = files@.map_values(|p: String| p@);
            let new_ok = ok_paths(sub);
            assert forall|k: int|
                0 <= k < emb.len() implies 0 <= #[trigger] emb[k] < new_ok.len() && new_files[k]
                == new_ok[emb[k]] by {
                if k < prev_files.len() {
                    assert(prev_files[k] == prev_ok[emb[k]]);
                    assert(new_files[k] == prev_files[k]);
                }
            }
            assert(embedding_into(emb, new_files, new_ok));
        }
        i = i + 1;
    }
    proof {
        assert(entries@.subrange(0, entries@.len() as int) =~= entries@);
    }
    files
}

/// Orchestrates discovery then sequential, fail-fast upload against one
/// storage backend.
pub struct ReleaseUploader<B: StorageBackend> {
    pub storage: B,
}

impl<B: StorageBackend> ReleaseUploader<B> {
    /// A release uploader bound to the given storage backend.
    pub fn new(storage: B) -> (r: Self)
        ensures
            r.storage == storage,
    {
        ReleaseUploader { storage }
    }

    /// Splits one pattern into its glob part and optional display label.
    pub fn parse_pattern(&self, pattern: &str) -> (r: (String, Option<String>))
        ensures
            r.0@ == parse_pattern_spec(pattern@).0,
            match r.1 {
                Some(d) => parse_pattern_spec(pattern@).1 == Some(d@),
                None => parse_pattern_spec(pattern@).1 is None,
            },
    {
        match find_char(pattern, '#') {
            Some(h) => {
                let n = pattern.unicode_len();
                let fp = trim(pattern.substring_char(0, h)).to_owned();
                let dn = trim(pattern.substring_char(h + 1, n)).to_owned();
                (fp, Some(dn))
            },
            None => (trim(pattern).to_owned(), None),
        }
    }

    /// Derives the remote key `<package>/<tag>/<basename>` for one file.
    pub fn generate_s3_key(&self, package_name: &str, tag: &str, file_path: &str) -> (r: String)
        ensures
            r@ == key_spec(package_name@, tag@, file_path@),
    {
        generate_key(package_name, tag, file_path)
    }

    /// Resolves one glob part to the ordered list of matching regular
    /// files. An existing regular file named literally is returned alone,
    /// bypassing glob evaluation; an existing directory is rejected;
    /// anything else is evaluated as a glob pattern.
    pub fn find_matching_files(&self, pattern: &str) -> (r: Result<Vec<String>, UploadError>)
        ensures
            match r {
                Ok(files) => (files@.len() == 1 && files@[0]@ == pattern@)
                    || glob_parse_complaint(pattern@) is None,
                Err(e) => e matches UploadError::InvalidPattern { message } && (message@
                    == dir_error_message_spec(pattern@) || (
                match glob_parse_complaint(pattern@) {
                    Some(d) => message@ == glob_error_message_spec(pattern@, d),
                    None => false,
                })),
            },
    {
        if path_is_file(pattern) {
            let mut files: Vec<String> = Vec::new();
            files.push(pattern.to_owned());
            return Ok(files);
        }
        if path_is_dir(pattern) {
            return Err(UploadError::InvalidPattern { message: dir_error_message(pattern) });
        }
        self.match_glob_pattern(pattern)
    }

    /// Resolves every pattern in input order and builds the deduplicated
    /// catalog: each asset's key follows from its path, keys are pairwise
    /// distinct, every display label was parsed from one of the patterns,
    /// the catalog is the first-wins deduplication of a resolved-file
    /// stream grouped by the patterns in input order, and a failure to
    /// resolve any pattern aborts the whole discovery with that pattern's
    /// error.
    #[verifier::rlimit(50)]
    pub fn discover_assets(
        &self,
        package_name: &str,
        tag: &str,
        file_patterns: &[String],
    ) -> (r: Result<Vec<Asset>, UploadError>)
        ensures
            match r {
                Ok(assets) => {
                    &&& forall|i: int, j: int|
                        0 <= i < j < assets@.len() ==> #[trigger] assets@[i].s3_key@
                            != #[trigger] assets@[j].s3_key@
                    &&& forall|i: int|
                        0 <= i < assets@.len() ==> #[trigger] assets@[i].s3_key@ == key_spec(
                            package_name@,
                            tag@,
                            assets@[i].file_path@,
                        )
                    &&& forall|i: int|
                        0 <= i < assets@.len() ==> exists|k: int|
                            0 <= k < file_patterns@.len() && (#[trigger] assets@[i]@).display_name
                                == parse_pattern_spec(file_patterns@[k]@).1
                    &&& exists|entries: Seq<(Seq<char>, Option<Seq<char>>)>|
                        assets_view(assets@) == #[trigger] catalog_of(package_name@, tag@, entries)
                            && grouped_by_patterns(
                            entries,
                            file_patterns@.map_values(|p: String| p@),
                        )
                    &&& file_patterns@.len() == 0 ==> assets@.len() == 0
                },
                Err(e) => e matches UploadError::InvalidPattern { message } && exists|k: int|
                    0 <= k < file_patterns@.len() && (message@ == dir_error_message_spec(
                        parse_pattern_spec(#[trigger] file_patterns@[k]@).0,
                    ) || (match glob_parse_complaint(parse_pattern_spec(file_patterns@[k]@).0) {
                        Some(d) => message@ == glob_error_message_spec(
                            parse_pattern_spec(file_patterns@[k]@).0,
                            d,
                        ),
                        None => false,
                    })),
            },
    {
        let mut resolved: Vec<(String, Option<String>)> = Vec::new();
        let ghost mut bounds: Seq<int> = seq![0];
        let mut pi: usize = 0;
        while pi < file_patterns.len()
            invariant
                pi <= file_patterns@.len(),
                bounds.len() == pi + 1,
                bounds[0] == 0,
                bounds[pi as int] == resolved@.len(),
                forall|k: int| 0 <= k <= pi ==> 0 <= #[trigger] bounds[k] <= resolved@.len(),
                forall|k: int| 0 <= k < pi ==> #[trigger] bounds[k] <= bounds[k + 1],
                forall|k: int, j: int|
                    #![trigger bounds[k], resolved@[j]]
                    0 <= k < pi && bounds[k] <= j < bounds[k + 1] ==> entry_view(resolved@[j]).1
                        == parse_pattern_spec(file_patterns@[k]@).1,
            decreases file_patterns@.len() - pi,
        {
            let parsed = self.parse_pattern(file_patterns[pi].as_str());
            let matched = match self.find_matching_files(parsed.0.as_str()) {
                Ok(m) => m,
                Err(e) => {
                    return Err(e);
                },
            };
            let ghost block_start = resolved@.len() as int;
            let mut mi: usize = 0;
            while mi < matched.len()
                invariant
                    mi <= matched@.len(),
                    pi < file_patterns@.len(),
                    bounds.len() == pi + 1,
                    bounds[0] == 0,
                    bounds[pi as int] == block_start,
                    resolved@.len() == block_start + mi,
                    forall|k: int| 0 <= k <= pi ==> 0 <= #[trigger] bounds[k] <= resolved@.len(),
                    forall|k: int| 0 <= k < pi ==> #[trigger] bounds[k] <= bounds[k + 1],
                    forall|k: int, j: int|
                        #![trigger bounds[k], resolved@[j]]
                        0 <= k < pi && bounds[k] <= j < bounds[k + 1] ==> entry_view(
                            resolved@[j],
                        ).1 == parse_pattern_spec(file_patterns@[k]@).1,
                    forall|j: int|
                        block_start <= j < resolved@.len() ==> entry_view(
                            #[trigger] resolved@[j],
                        ).1 == parse_pattern_spec(file_patterns@[pi as int]@).1,
                    match parsed.1 {
                        Some(d) => parse_pattern_spec(file_patterns@[pi as int]@).1 == Some(d@),
                        None => parse_pattern_spec(file_patterns@[pi as int]@).1 is None,
                    },
                decreases matched@.len() - mi,
            {
                let display = match &parsed.1 {
                    Some(d) => Some(d.clone()),
                    None => None,
                };
                resolved.push((matched[mi].clone(), display));
                mi = mi + 1;
            }
            proof {
                bounds = bounds.push(resolved@.len() as int);
            }
            pi = pi + 1;
        }
        let assets = build_catalog(package_name, tag, &resolved);
        proof {
            let evs = entries_view(resolved@);
            let cat = catalog_of(package_name@, tag@, evs);
            lemma_catalog_keys_distinct(package_name@, tag@, evs);
            lemma_catalog_assets_from_entries(package_name@, tag@, evs);
            assert forall|i: int, j: int| 0 <= i < j < assets@.len() implies #[trigger] assets@[i].s3_key@
                != #[trigger] assets@[j].s3_key@ by {
                assert(assets_view(assets@)[i] == assets@[i]@);
                assert(assets_view(assets@)[j] == assets@[j]@);
                assert(cat[i].s3_key != cat[j].s3_key);
            }
            assert forall|i: int| 0 <= i < assets@.len() implies #[trigger] assets@[i].s3_key@
                == key_spec(package_name@, tag@, assets@[i].file_path@) by {
                assert(assets_view(assets@)[i] == assets@[i]@);
                let m = choose|m: int|
                    0 <= m < evs.len() && #[trigger] cat[i as int] == asset_of_entry(
                        package_name@,
                        tag@,
                        evs[m],
                    );
                assert(cat[i].s3_key == key_spec(package_name@, tag@, cat[i].file_path));
            }
            let pvs = file_patterns@.map_values(|p: String| p@);
            assert forall|k: int, j: int|
                #![trigger bounds[k], evs[j]]
                0 <= k < pvs.len() && bounds[k] <= j < bounds[k + 1] implies evs[j].1
                == parse_pattern_spec(pvs[k]).1 by {
                assert(0 <= j < resolved@.len());
                assert(evs[j] == entry_view(resolved@[j]));
                assert(pvs[k] == file_patterns@[k]@);
            }
            assert(grouping_bounds(bounds, evs, pvs));
            assert(grouped_by_patterns(evs, pvs));
            assert forall|i: int| 0 <= i < assets@.len() implies exists|k: int|
                0 <= k < file_patterns@.len() && (#[trigger] assets@[i]@).display_name
                    == parse_pattern_spec(file_patterns@[k]@).1 by {
                assert(assets_view(assets@)[i] == assets@[i]@);
                let m = choose|m: int|
                    0 <= m < evs.len() && #[trigger] cat[i as int] == asset_of_entry(
                        package_name@,
                        tag@,
                        evs[m],
                    );
                if file_patterns@.len() > 0 {
                    lemma_block_of_index(bounds, file_patterns@.len() as int, m);
                    let k = choose|k: int|
                        0 <= k < file_patterns@.len() && #[trigger] bounds[k] <= m && m < bounds[k
                            + 1];
                    assert(evs[m].1 == parse_pattern_spec(pvs[k]).1);
                    assert(pvs[k] == file_patterns@[k]@);
                    assert(assets@[i]@.display_name == parse_pattern_spec(file_patterns@[k]@).1);
                }
            }
            if file_patterns@.len() == 0 {
                assert(resolved@.len() == 0);
                assert(evs =~= Seq::<(Seq<char>, Option<Seq<char>>)>::empty());
                assert(cat =~= Seq::<AssetView>::empty());
                assert(assets_view(assets@).len() == assets@.len());
            }
        }
        Ok(assets)
    }

    /// Uploads the catalog sequentially, in order, stopping at the first
    /// failing transfer: a failure names the failing asset's local path
    /// and no later asset is attempted.
    pub fn upload_assets(&self, assets: &Vec<Asset>) -> (r: Result<(), UploadError>)
        ensures
            r matches Err(e) ==> failure_names_an_asset(assets@, e),
    {
        let mut i: usize = 0;
        while i < assets.len()
            invariant
                i <= assets@.len(),
            decreases assets@.len() - i,
        {
            let content_type = guess_content_type(assets[i].file_path.as_str());
            match self.storage.upload_file(
                assets[i].s3_key.as_str(),
                assets[i].file_path.as_str(),
                content_type,
            ) {
                Ok(u) => {},
                Err(detail) => {
                    let mut m = String::from_str("Failed to upload asset: ");
                    m.append(assets[i].file_path.as_str());
                    m.append(": ");
                    m.append(detail.as_str());
                    let fp = assets[i].file_path.clone();
                    proof {
                        assert(m@ =~= upload_failed_message_spec(fp@, detail@));
                        assert((i as int) < assets@.len() && assets@[i as int].file_path@ == fp@);
                    }
                    let failure = UploadError::UploadFailed { file_path: fp, message: m };
                    proof {
                        assert(failure->UploadFailed_file_path == fp);
                        assert(failure->UploadFailed_message == m);
                        assert(failure_names_an_asset(assets@, failure));
                    }
                    return Err(failure);
                },
            }
            i = i + 1;
        }
        Ok(())
    }

    /// Uploads one discovered catalog for the given patterns: an empty
    /// catalog — and only an empty catalog — is rejected with the
    /// no-assets error naming the patterns; otherwise the path-to-key
    /// listing is reported and the catalog is uploaded in order,
    /// fail-fast.
    pub fn upload_catalog(
        &self,
        assets: &Vec<Asset>,
        file_patterns: &[String],
    ) -> (r: Result<(), UploadError>)
        ensures
            (assets@.len() == 0) <==> (r matches Err(e) && e is NoAssetsFound),
            match r {
                Ok(u) => true,
                Err(e) => match e {
                    UploadError::NoAssetsFound { message } => assets@.len() == 0 && message@
                        == no_assets_message_spec(file_patterns@.map_values(|p: String| p@)),
                    UploadError::UploadFailed { .. } => failure_names_an_asset(assets@, e),
                    UploadError::InvalidPattern { .. } => false,
                },
            },
    {
        if assets.len() == 0 {
            let m = no_assets_message(file_patterns);
            let failure = UploadError::NoAssetsFound { message: m };
            proof {
                assert(failure is NoAssetsFound);
            }
            return Err(failure);
        }
        report_asset_count(assets.len());
        let mut i: usize = 0;
        while i < assets.len()
            decreases assets@.len() - i,
        {
            let mut line = String::from_str("  ");
            line.append(assets[i].file_path.as_str());
            line.append(" -> ");
            line.append(assets[i].s3_key.as_str());
            emit_line(line.as_str());
            i = i + 1;
        }
        self.upload_assets(assets)
    }

    /// Discovers the release's assets, rejects an empty catalog, reports
    /// the path-to-key listing, then uploads the assets sequentially with
    /// fail-fast semantics. Success means every asset uploaded.
    pub fn upload_release(
        &self,
        package_name: &str,
        tag: &str,
        file_patterns: &[String],
    ) -> (r: Result<(), UploadError>)
        ensures
            file_patterns@.len() == 0 ==> (r matches Err(e) && e is NoAssetsFound),
            match r {
                Ok(u) => true,
                Err(e) => match e {
                    UploadError::InvalidPattern { message } => exists|k: int|
                        0 <= k < file_patterns@.len() && (message@ == dir_error_message_spec(
                            parse_pattern_spec(#[trigger] file_patterns@[k]@).0,
                        ) || (
                        match glob_parse_complaint(parse_pattern_spec(file_patterns@[k]@).0) {
                            Some(d) => message@ == glob_error_message_spec(
                                parse_pattern_spec(file_patterns@[k]@).0,
                                d,
                            ),
                            None => false,
                        })),
                    UploadError::NoAssetsFound { message } => message@ == no_assets_message_spec(
                        file_patterns@.map_values(|p: String| p@),
                    ),
                    UploadError::UploadFailed { file_path, message } => exists|d: Seq<char>|
                        message@ == upload_failed_message_spec(file_path@, d),
                },
            },
    {
        let assets = match self.discover_assets(package_name, tag, file_patterns) {
            Ok(a) => a,
            Err(e) => {
                return Err(e);
            },
        };
        self.upload_catalog(&assets, file_patterns)
    }

    /// Evaluates a glob pattern: entries that error while being read are
    /// reported as warnings and skipped; matches that are not regular
    /// files are silently excluded; a pattern the parser refuses is fatal.
    fn match_glob_pattern(&self, pattern: &str) -> (r: Result<Vec<String>, UploadError>)
        ensures
            r is Err <==> glob_parse_complaint(pattern@) is Some,
            match r {
                Ok(files) => true,
                Err(e) => e matches UploadError::InvalidPattern { message } && (
                match glob_parse_complaint(pattern@) {
                    Some(d) => message@ == glob_error_message_spec(pattern@, d),
                    None => false,
                }),
            },
    {
        match glob_entries(pattern) {
            Ok(entries) => Ok(keep_existing_files(&entries)),
            Err(detail) => {
                let mut m = String::from_str("Invalid glob pattern '");
                m.append(pattern);
                m.append("': ");
                m.append(detail.as_str());
                proof {
                    assert(m@ =~= glob_error_message_spec(pattern@, detail@));
                }
                Err(UploadError::InvalidPattern { message: m })
            },
        }
    }
}

} // verus!
