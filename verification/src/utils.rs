//! Path safety rules for the file system operations of the site generator.
//!
//! A path handed to a file operation must not hold backslashes, control
//! characters or `..`; a relative path must not name an existing symbolic
//! link, and its file name must not be a reserved device name.

use crate::text::{find_bytes, find_spec, has_byte, lemma_str_valid, slice_between};
use std::io::Error as IoError;
use vstd::prelude::*;
use vstd::string::StringSliceAdditionalSpecFns;
use vstd::utf8::{decode_utf8, encode_utf8};

verus! {

broadcast use vstd::string::group_string_axioms, vstd::utf8::encode_utf8_decode_utf8;

/// The error type of input and output operations.
#[verifier::external_type_specification]
#[verifier::external_body]
pub struct ExIoError(IoError);

/// Errors of the file system utilities.
#[derive(Debug)]
pub enum UtilsError {
    /// A file system operation failed.
    FileSystem(IoError),
    /// A path failed a safety rule.
    InvalidPath {
        /// The path
        path: String,
        /// Which rule it failed
        details: String,
    },
    /// Permission was denied.
    PermissionDenied(String),
    /// A resource was not found.
    NotFound(String),
    /// An operation was invalid.
    InvalidOperation(String),
}

/// A control character: the Unicode general category `Cc`, that is
/// U+0000 to U+001F and U+007F to U+009F (what `char::is_control` tests).
pub open spec fn is_control(c: char) -> bool {
    (c as u32) < 0x20 || (0x7F <= (c as u32) && (c as u32) <= 0x9F)
}

/// Some character of `s` is a control character.
pub open spec fn has_control(s: Seq<char>) -> bool {
    exists|i: int| 0 <= i < s.len() && is_control(#[trigger] s[i])
}

/// Index of the last `/` in `b`, or -1.
pub open spec fn last_slash(b: Seq<u8>) -> int
    decreases b.len(),
{
    if b.len() == 0 {
        -1
    } else if b.last() == 0x2F {
        b.len() - 1
    } else {
        last_slash(b.drop_last())
    }
}

/// The final component of a relative path without `..`, as
/// `Path::file_name` gives it on Unix: the last piece between slashes
/// that is neither empty nor `.`, if there is one.
pub open spec fn file_name_bytes(b: Seq<u8>) -> Option<Seq<u8>>
    decreases b.len(),
{
    let i = last_slash(b);
    let piece = b.subrange(i + 1, b.len() as int);
    if piece.len() > 0 && piece != seq![0x2Eu8] {
        Some(piece)
    } else if i < 0 || i >= b.len() {
        None
    } else {
        file_name_bytes(b.take(i))
    }
}

/// The lower-case form of a string, as `str::to_lowercase` returns it.
pub uninterp spec fn lowercase(s: Seq<char>) -> Seq<char>;

/// Calls `str::to_lowercase`; its result is named [`lowercase`] of the
/// argument, which the standard library's fixed Unicode tables determine.
#[verifier::external_body]
pub(crate) fn to_lowercase(s: &str) -> (r: String)
    ensures
        r@ == lowercase(s@),
{
    s.to_lowercase()
}

/// Calls `Path::is_symlink`; what it returns depends on the disk.
#[verifier::external_body]
fn path_is_symlink(path: &str) -> bool {
    std::path::Path::new(path).is_symlink()
}

/// A device name that Windows reserves.
pub open spec fn is_reserved_name(s: Seq<char>) -> bool {
    ||| s == "con"@
    ||| s == "prn"@
    ||| s == "aux"@
    ||| s == "nul"@
    ||| s == "com1"@
    ||| s == "lpt1"@
}

/// The first safety rule that a path breaks, or that it is safe.
#[derive(Debug, Clone, Copy, PartialEq, Eq, Structural)]
pub enum PathFinding {
    /// The path holds a backslash.
    Backslash,
    /// The path holds a control character.
    InvalidCharacters,
    /// The path holds `..`.
    Traversal,
    /// The path is absolute.
    Absolute,
    /// The path names a symbolic link.
    Symlink,
    /// The path's file name is a reserved device name.
    Reserved,
    /// The path is safe.
    Safe,
}

/// Which rule `path` breaks first, where `is_symlink` tells whether it
/// names an existing symbolic link.
pub open spec fn path_finding(path: Seq<char>, is_symlink: bool) -> PathFinding {
    let b = encode_utf8(path);
    if has_byte(b, 0x5C) {
        PathFinding::Backslash
    } else if has_control(path) {
        PathFinding::InvalidCharacters
    } else if find_spec(b, seq![0x2Eu8, 0x2E]) is Some {
        PathFinding::Traversal
    } else if b.len() > 0 && b[0] == 0x2F {
        PathFinding::Absolute
    } else if is_symlink {
        PathFinding::Symlink
    } else if file_name_bytes(b) matches Some(n) && is_reserved_name(lowercase(decode_utf8(n))) {
        PathFinding::Reserved
    } else {
        PathFinding::Safe
    }
}

/// The details of the error for a broken rule.
pub open spec fn path_details(f: PathFinding) -> Seq<char> {
    match f {
        PathFinding::Backslash => "Backslashes are not allowed in paths"@,
        PathFinding::InvalidCharacters => "Path contains invalid characters"@,
        PathFinding::Traversal => "Path traversal not allowed"@,
        PathFinding::Absolute => "Absolute paths are not allowed"@,
        PathFinding::Symlink => "Symlinks are not allowed"@,
        PathFinding::Reserved => "Reserved file name not allowed"@,
        _ => Seq::empty(),
    }
}

/// `r` is what checking `path` gives where the finding is `f`: success for
/// a safe path, else an invalid-path error naming the path and the rule.
pub open spec fn path_result_is(r: Result<(), UtilsError>, path: Seq<char>, f: PathFinding) -> bool {
    match f {
        PathFinding::Safe => r is Ok,
        _ => r matches Err(UtilsError::InvalidPath { path: p, details: d }) && p@ == path && d@
            == path_details(f),
    }
}

/// Some character of `s` is a control character.
fn contains_control(s: &str) -> (r: bool)
    ensures
        r == has_control(s@),
{
    let n = s.unicode_len();
    let mut i: usize = 0;
    while i < n
        invariant
            n == s@.len(),
            i <= n,
            forall|j: int| 0 <= j < i ==> !is_control(#[trigger] s@[j]),
        decreases n - i,
    {
        let c = s.get_char(i);
        let u = c as u32;
        if u < 0x20 || (0x7F <= u && u <= 0x9F) {
            return true;
        }
        i = i + 1;
    }
    false
}

/// `last_slash` of a prefix, found by looking back from its end.
proof fn lemma_last_slash(b: Seq<u8>, end: int, j: int)
    requires
        0 <= end <= b.len(),
        -1 <= j < end,
        j >= 0 ==> b[j] == 0x2F,
        forall|k: int| j < k < end ==> b[k] != 0x2F,
    ensures
        last_slash(b.take(end)) == j,
    decreases end - j,
{
    if end - 1 > j {
        assert(b.take(end).drop_last() =~= b.take(end - 1));
        lemma_last_slash(b, end - 1, j);
    } else if end > 0 {
        assert(b.take(end).last() == b[end - 1]);
    }
}

/// The file name of the path in `s`, as [`file_name_bytes`] gives it.
fn file_name(s: &str) -> (r: Option<&str>)
    ensures
        match file_name_bytes(s.spec_bytes()) {
            Some(n) => r matches Some(x) && x.spec_bytes() == n,
            None => r is None,
        },
{
    let b = s.as_bytes();
    proof {
        lemma_str_valid(s);
        assert(b@.take(b@.len() as int) =~= b@);
    }
    let mut end: usize = b.len();
    loop
        invariant
            b@ == s.spec_bytes(),
            end <= b@.len(),
            end == b@.len() || b@[end as int] == 0x2F,
            file_name_bytes(b@) == file_name_bytes(b@.take(end as int)),
        decreases end,
    {
        let mut j: usize = end;
        while j > 0 && b[j - 1] != 0x2F
            invariant
                j <= end <= b@.len(),
                forall|k: int| j <= k < end ==> b@[k] != 0x2F,
            decreases j,
        {
            j = j - 1;
        }
        let ghost t = b@.take(end as int);
        proof {
            lemma_last_slash(b@, end as int, j - 1);
            assert(t.subrange(j as int, t.len() as int) =~= b@.subrange(j as int, end as int));
        }
        let is_dot = end - j == 1 && b[j] == 0x2E;
        proof {
            if end - j == 1 {
                assert(b@.subrange(j as int, end as int) =~= seq![b@[j as int]]);
            }
            if is_dot {
                assert(b@.subrange(j as int, end as int) =~= seq![0x2Eu8]);
            }
            if end - j == 1 && !is_dot {
                assert(b@.subrange(j as int, end as int) != seq![0x2Eu8]) by {
                    assert(b@.subrange(j as int, end as int)[0] == b@[j as int]);
                }
            }
        }
        if end > j && !is_dot {
            return Some(slice_between(s, j, end));
        }
        if j == 0 {
            return None;
        }
        proof {
            assert(t.take(j - 1) =~= b@.take(j - 1));
        }
        end = j - 1;
    }
}

/// Compares a string with a string literal's characters.
fn is_reserved(name: &str) -> (r: bool)
    ensures
        r == is_reserved_name(name@),
{
    let names = ["con", "prn", "aux", "nul", "com1", "lpt1"];
    proof {
        reveal_strlit("con");
        reveal_strlit("prn");
        reveal_strlit("aux");
        reveal_strlit("nul");
        reveal_strlit("com1");
        reveal_strlit("lpt1");
    }
    let mut i: usize = 0;
    while i < 6
        invariant
            i <= 6,
            names@ == seq!["con", "prn", "aux", "nul", "com1", "lpt1"],
            forall|k: int| 0 <= k < i ==> name@ != (#[trigger] names@[k])@,
        decreases 6 - i,
    {
        if crate::text::str_eq(name, names[i]) {
            return true;
        }
        i = i + 1;
    }
    proof {
        assert(name@ != names@[0]@);
        assert(name@ != names@[1]@);
        assert(name@ != names@[2]@);
        assert(name@ != names@[3]@);
        assert(name@ != names@[4]@);
        assert(name@ != names@[5]@);
    }
    false
}

/// The checks that need no disk: which of the first four findings
/// applies, if one does.
fn text_finding(path: &str) -> (r: Option<PathFinding>)
    ensures
        match r {
            Some(f) => f == path_finding(path@, false) && (f is Backslash || f is InvalidCharacters
                || f is Traversal || f is Absolute),
            None => forall|l: bool|
                !(#[trigger] path_finding(path@, l) is Backslash || path_finding(path@, l) is InvalidCharacters
                    || path_finding(path@, l) is Traversal || path_finding(path@, l) is Absolute),
        },
{
    let b = path.as_bytes();
    proof {
        lemma_str_valid(path);
    }
    if crate::text::contains_byte(b, 0x5C) {
        return Some(PathFinding::Backslash);
    }
    if contains_control(path) {
        return Some(PathFinding::InvalidCharacters);
    }
    let dots: [u8; 2] = [0x2E, 0x2E];
    proof {
        assert(dots@ =~= seq![0x2Eu8, 0x2E]);
    }
    if find_bytes(b, vstd::array::array_as_slice(&dots)).is_some() {
        return Some(PathFinding::Traversal);
    }
    if b.len() > 0 && b[0] == 0x2F {
        return Some(PathFinding::Absolute);
    }
    None
}

/// Validates a path against the safety rules, given whether it names an
/// existing symbolic link.
///
/// In order: no backslash, no control character, no `..`, not absolute;
/// then the path must not be a symbolic link, and its file name, in lower
/// case, must not be `con`, `prn`, `aux`, `nul`, `com1` or `lpt1`.
pub fn check_path_safety(path: &str, is_symlink: bool) -> (r: Result<(), UtilsError>)
    ensures
        path_result_is(r, path@, path_finding(path@, is_symlink)),
{
    let f = match text_finding(path) {
        Some(f) => f,
        None => if is_symlink {
            PathFinding::Symlink
        } else {
            match file_name(path) {
                Some(name) => {
                    let lower = to_lowercase(name);
                    proof {
                        lemma_str_valid(name);
                    }
                    if is_reserved(lower.as_str()) {
                        PathFinding::Reserved
                    } else {
                        PathFinding::Safe
                    }
                },
                None => PathFinding::Safe,
            }
        },
    };
    path_error(path, f)
}

/// The result for a finding: success for a safe path, else an
/// invalid-path error naming the path and the rule.
fn path_error(path: &str, f: PathFinding) -> (r: Result<(), UtilsError>)
    ensures
        path_result_is(r, path@, f),
{
    let details = match f {
        PathFinding::Backslash => "Backslashes are not allowed in paths",
        PathFinding::InvalidCharacters => "Path contains invalid characters",
        PathFinding::Traversal => "Path traversal not allowed",
        PathFinding::Absolute => "Absolute paths are not allowed",
        PathFinding::Symlink => "Symlinks are not allowed",
        PathFinding::Reserved => "Reserved file name not allowed",
        _ => {
            return Ok(());
        },
    };
    Err(UtilsError::InvalidPath { path: path.to_string(), details: details.to_string() })
}

/// Checks a path against the safety rules, asking the disk whether a
/// relative path names a symbolic link, dangling or not
/// (`Path::is_symlink`); also gives what the disk was taken to say.
pub(crate) fn check_path_on_disk(path: &str) -> (r: (Result<(), UtilsError>, Ghost<bool>))
    ensures
        path_result_is(r.0, path@, path_finding(path@, r.1@)),
{
    let link = match text_finding(path) {
        Some(_) => false,
        None => path_is_symlink(path),
    };
    (check_path_safety(path, link), Ghost(link))
}

/// Validates a path against the safety rules of [`check_path_safety`],
/// asking the disk whether a relative path names a symbolic link,
/// dangling or not (`Path::is_symlink`).
pub fn validate_path_safety(path: &str) -> (r: Result<(), UtilsError>)
    ensures
        path_result_is(r, path@, path_finding(path@, false)) || path_result_is(
            r,
            path@,
            path_finding(path@, true),
        ),
{
    let (r, _) = check_path_on_disk(path);
    r
}

/// A path with no backslash is refused for invalid characters exactly
/// when it holds a character of the Unicode category Cc: a code point
/// below U+0020 or from U+007F to U+009F. A space, or any other printable
/// character, is never refused as invalid.
pub proof fn law_only_cc_characters_are_invalid(path: Seq<char>, is_symlink: bool)
    requires
        !has_byte(encode_utf8(path), 0x5C),
    ensures
        path_finding(path, is_symlink) is InvalidCharacters <==> exists|i: int|
            0 <= i < path.len() && ((#[trigger] path[i] as u32) < 0x20 || (0x7F <= (path[i] as u32)
                && (path[i] as u32) <= 0x9F)),
{
}

/// Whatever a path holds, it is refused for invalid characters only where
/// one of its characters is of the Unicode category Cc.
pub proof fn law_invalid_characters_are_cc(path: Seq<char>, is_symlink: bool)
    ensures
        path_finding(path, is_symlink) is InvalidCharacters ==> exists|i: int|
            0 <= i < path.len() && ((#[trigger] path[i] as u32) < 0x20 || (0x7F <= (path[i] as u32)
                && (path[i] as u32) <= 0x9F)),
{
}

/// A path that holds `..` is never accepted, whatever the disk holds.
pub proof fn law_traversal_refused(path: Seq<char>, is_symlink: bool)
    requires
        find_spec(encode_utf8(path), seq![0x2Eu8, 0x2E]) is Some,
    ensures
        !(path_finding(path, is_symlink) is Safe),
{
}

/// An absolute path is never accepted, whatever the disk holds.
pub proof fn law_absolute_refused(path: Seq<char>, is_symlink: bool)
    requires
        encode_utf8(path).len() > 0,
        encode_utf8(path)[0] == 0x2F,
    ensures
        !(path_finding(path, is_symlink) is Safe),
{
}

/// A path that names a symbolic link is never accepted.
pub proof fn law_symlink_refused(path: Seq<char>)
    ensures
        !(path_finding(path, true) is Safe),
{
}

/// Whether a path is accepted depends on the disk only where every rule
/// that needs no disk is met, the path being relative among them.
pub proof fn law_disk_matters_only_for_relative_paths(path: Seq<char>)
    ensures
        ({
            let f = path_finding(path, false);
            (f is Backslash || f is InvalidCharacters || f is Traversal || f is Absolute) ==> f
                == path_finding(path, true)
        }),
{
}

} // verus!
