//! Filesystem paths as plain strings (Unix paths: `/` separates components
//! and a path that starts with `/` is absolute). The path algebra itself
//! (`join`, `file_stem`, `extension`, `with_file_name`) is `std::path`'s; each
//! wrapper below makes one such call. `join` is stated; the other results are
//! named.

use vstd::prelude::*;

verus! {

/// What `Path::file_stem` gives for the path `p`, as text.
pub uninterp spec fn spec_file_stem(p: Seq<char>) -> Option<Seq<char>>;

/// What `Path::extension` gives for the path `p`, as text.
pub uninterp spec fn spec_extension(p: Seq<char>) -> Option<Seq<char>>;

/// The path starts at the root: its first character is `/`.
pub open spec fn is_absolute(p: Seq<char>) -> bool {
    p.len() > 0 && p[0] == '/'
}

/// `base` joined with `part` as `Path::join` does on Unix: an absolute `part`
/// replaces `base`; otherwise `part` is appended, after a `/` unless `base` is
/// empty or already ends with one.
pub open spec fn spec_path_join(base: Seq<char>, part: Seq<char>) -> Seq<char> {
    if is_absolute(part) {
        part
    } else if base.len() == 0 || base.last() == '/' {
        base + part
    } else {
        base + "/"@ + part
    }
}

/// Joining a relative part onto an absolute base stays absolute.
pub proof fn lemma_join_keeps_absolute(base: Seq<char>, part: Seq<char>)
    requires
        is_absolute(base),
    ensures
        is_absolute(spec_path_join(base, part)),
{
    reveal_strlit("/");
    if !is_absolute(part) {
        if base.last() == '/' {
            assert((base + part)[0] == base[0]);
        } else {
            assert((base + "/"@ + part)[0] == base[0]);
        }
    }
}

/// Whether `p` is absolute (starts with `/`).
pub fn path_is_absolute(p: &str) -> (r: bool)
    ensures
        r == is_absolute(p@),
{
    let cs = crate::text::chars_of(p);
    cs.len() > 0 && cs[0] == '/'
}

/// What `Path::with_file_name` gives for `p` with its file name replaced by
/// `name`, as text.
pub uninterp spec fn spec_with_file_name(p: Seq<char>, name: Seq<char>) -> Seq<char>;

/// `std::path::Path::file_stem` of `p`: the file name without its final
/// extension. The path comes from UTF-8 text, so the stem is valid UTF-8 too
/// and is returned unchanged as a `String`; the result is named, not described.
#[verifier::external_body]
pub fn file_stem(p: &str) -> (r: Option<String>)
    ensures
        match r {
            Some(s) => spec_file_stem(p@) == Some(s@),
            None => spec_file_stem(p@) is None,
        },
{
    match std::path::Path::new(p).file_stem() {
        Some(s) => Some(s.to_string_lossy().into_owned()),
        None => None,
    }
}

/// `std::path::Path::extension` of `p`, returned as a `String`; the result is
/// named, not described.
#[verifier::external_body]
pub fn extension(p: &str) -> (r: Option<String>)
    ensures
        match r {
            Some(s) => spec_extension(p@) == Some(s@),
            None => spec_extension(p@) is None,
        },
{
    match std::path::Path::new(p).extension() {
        Some(s) => Some(s.to_string_lossy().into_owned()),
        None => None,
    }
}

/// `std::path::Path::join` of `base` and `part`, as text (both come from
/// UTF-8, so the lossless conversion back to text is exact): `PathBuf::push`
/// on Unix, as `spec_path_join` states it.
#[verifier::external_body]
pub fn path_join(base: &str, part: &str) -> (r: String)
    ensures
        r@ == spec_path_join(base@, part@),
{
    std::path::Path::new(base).join(part).to_string_lossy().into_owned()
}

/// `std::path::Path::with_file_name` of `p` and `name`, as text; the result is
/// named, not described.
#[verifier::external_body]
pub fn with_file_name(p: &str, name: &str) -> (r: String)
    ensures
        r@ == spec_with_file_name(p@, name@),
{
    std::path::Path::new(p).with_file_name(name).to_string_lossy().into_owned()
}

} // verus!
