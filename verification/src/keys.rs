//! Remote-key derivation and content-type inference.
//!
//! A path is modelled as a sequence of characters; its final component is
//! what remains after trailing slashes and trailing `.` components are
//! removed and everything up to the last remaining slash is dropped, the
//! way std's path normalization finds a file name (`a/.` names `a`, while
//! a path ending in `..` has no file name). The remote key for an asset is
//! `<package>/<tag>/<basename>`, where the basename falls back to a fixed
//! placeholder when the path has no usable final component.

use vstd::prelude::*;
use vstd::string::*;

use crate::strings::{last_index_of, rfind_char, str_eq};

verus! {

/// Whether the character ending the prefix `s[..e]` cannot end a path
/// name: a `/`, or a `.` that forms a lone `.` component (it stands at the
/// start or right after a `/`).
pub open spec fn droppable_at_end(s: Seq<char>, e: int) -> bool {
    s[e - 1] == '/' || (s[e - 1] == '.' && (e == 1 || s[e - 2] == '/'))
}

/// A path with its trailing slashes and trailing `.` components removed,
/// as std's path normalization does before naming the final component.
pub open spec fn normalized_for_name(s: Seq<char>) -> Seq<char>
    decreases s.len(),
{
    if s.len() > 0 && droppable_at_end(s, s.len() as int) {
        normalized_for_name(s.drop_last())
    } else {
        s
    }
}

/// The final component of a path: what follows the last slash, once
/// trailing slashes and `.` components are gone.
pub open spec fn final_component(s: Seq<char>) -> Seq<char> {
    let t = normalized_for_name(s);
    t.subrange(last_index_of(t, '/') + 1, t.len() as int)
}

/// The file name used inside a remote key. A path whose final component is
/// empty or `..` has no usable name and falls back to the placeholder; a
/// lone `.` component cannot survive normalization.
pub open spec fn basename_spec(s: Seq<char>) -> Seq<char> {
    let b = final_component(s);
    if b.len() == 0 || b == ".."@ {
        "unknown"@
    } else {
        b
    }
}

/// The remote object key for a file of a release:
/// `<package>/<tag>/<basename>`.
pub open spec fn key_spec(package: Seq<char>, tag: Seq<char>, path: Seq<char>) -> Seq<char> {
    package + "/"@ + tag + "/"@ + basename_spec(path)
}

/// The extension of a path: what follows the last dot of the final
/// component, absent when there is no dot or only a leading one.
pub open spec fn extension_spec(path: Seq<char>) -> Option<Seq<char>> {
    let b = final_component(path);
    let d = last_index_of(b, '.');
    if d <= 0 {
        None
    } else {
        Some(b.subrange(d + 1, b.len() as int))
    }
}

/// The MIME type for one file extension; unknown extensions map to the
/// generic binary type.
pub open spec fn content_type_of_extension(e: Seq<char>) -> Seq<char> {
    if e == "zip"@ {
        "application/zip"@
    } else if e == "tar"@ {
        "application/x-tar"@
    } else if e == "gz"@ {
        "application/gzip"@
    } else if e == "exe"@ {
        "application/octet-stream"@
    } else if e == "msi"@ {
        "application/x-msi"@
    } else if e == "dmg"@ {
        "application/x-apple-diskimage"@
    } else if e == "deb"@ {
        "application/vnd.debian.binary-package"@
    } else if e == "rpm"@ {
        "application/x-rpm"@
    } else if e == "json"@ {
        "application/json"@
    } else if e == "txt"@ {
        "text/plain"@
    } else if e == "md"@ {
        "text/markdown"@
    } else {
        "application/octet-stream"@
    }
}

/// The MIME type inferred for a path from its extension.
pub open spec fn content_type_spec(path: Seq<char>) -> Seq<char> {
    match extension_spec(path) {
        Some(e) => content_type_of_extension(e),
        None => "application/octet-stream"@,
    }
}

/// Whether the prefix of `path` ending at `e` ends in a character that
/// cannot end a path name.
fn droppable_end(path: &str, e: usize) -> (r: bool)
    requires
        1 <= e <= path@.len(),
    ensures
        r == droppable_at_end(path@, e as int),
{
    let c = path.get_char(e - 1);
    if c == '/' {
        true
    } else if c == '.' {
        e == 1 || path.get_char(e - 2) == '/'
    } else {
        false
    }
}

/// The final component of a path, executably.
pub fn final_component_str(path: &str) -> (r: &str)
    ensures
        r@ == final_component(path@),
{
    let n = path.unicode_len();
    let mut e: usize = n;
    proof {
        assert(path@.subrange(0, n as int) =~= path@);
    }
    while e > 0 && droppable_end(path, e)
        invariant
            e <= n,
            n == path@.len(),
            normalized_for_name(path@) == normalized_for_name(path@.subrange(0, e as int)),
        decreases e,
    {
        proof {
            let sub = path@.subrange(0, e as int);
            assert(sub.drop_last() =~= path@.subrange(0, e - 1));
            assert(sub[e - 1] == path@[e - 1]);
            if e >= 2 {
                assert(sub[e - 2] == path@[e - 2]);
            }
            assert(droppable_at_end(sub, e as int));
        }
        e = e - 1;
    }
    proof {
        let sub = path@.subrange(0, e as int);
        if e > 0 {
            assert(sub[e - 1] == path@[e - 1]);
            if e >= 2 {
                assert(sub[e - 2] == path@[e - 2]);
            }
            assert(!droppable_at_end(sub, e as int));
        }
        assert(normalized_for_name(path@) == sub);
    }
    let t = path.substring_char(0, e);
    let start: usize = match rfind_char(t, '/') {
        Some(i) => i + 1,
        None => 0,
    };
    t.substring_char(start, e)
}

/// The file name used inside a remote key, executably; falls back to the
/// placeholder for paths without a usable final component.
pub fn basename(path: &str) -> (r: &str)
    ensures
        r@ == basename_spec(path@),
{
    let b = final_component_str(path);
    if b.unicode_len() == 0 || str_eq(b, "..") {
        "unknown"
    } else {
        b
    }
}

/// Derives the remote key `<package>/<tag>/<basename>` for one file of a
/// release. Total: a path without a usable final component gets the
/// placeholder name rather than failing.
pub fn generate_key(package_name: &str, tag: &str, file_path: &str) -> (r: String)
    ensures
        r@ == key_spec(package_name@, tag@, file_path@),
{
    let b = basename(file_path);
    let mut k = package_name.to_owned();
    k.append("/");
    k.append(tag);
    k.append("/");
    k.append(b);
    proof {
        assert(k@ =~= key_spec(package_name@, tag@, file_path@));
    }
    k
}

/// The extension of a path, executably.
pub fn extension_str(path: &str) -> (r: Option<&str>)
    ensures
        match r {
            Some(e) => extension_spec(path@) == Some(e@),
            None => extension_spec(path@) is None,
        },
{
    let b = final_component_str(path);
    match rfind_char(b, '.') {
        Some(d) => {
            if d == 0 {
                None
            } else {
                let n = b.unicode_len();
                Some(b.substring_char(d + 1, n))
            }
        },
        None => None,
    }
}

} // verus!
