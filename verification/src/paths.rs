//! Paths held as strings, with `/` as the separator. The claims on paths
//! are those of Unix, where `/` separates components and an absolute path
//! starts with `/`.

use crate::chars::{push_char, push_str};
use crate::strs::{ends_with_spec, starts_with_spec};
use std::path::Path;
use vstd::prelude::*;

verus! {

/// Whether a path is absolute: on Unix, whether it starts with the root `/`.
pub open spec fn is_absolute_spec(p: Seq<char>) -> bool {
    p.len() > 0 && p[0] == '/'
}

/// Whether a path is absolute.
pub fn is_absolute(p: &str) -> (r: bool)
    ensures
        r == is_absolute_spec(p@),
{
    if p.is_empty() {
        false
    } else {
        p.get_char(0) == '/'
    }
}

/// `rel` pushed onto `base` as `PathBuf::push` does on Unix: an absolute
/// `rel` replaces `base`; otherwise a `/` goes between them unless `base` is
/// empty or already ends with one.
pub open spec fn join_spec(base: Seq<char>, rel: Seq<char>) -> Seq<char> {
    if is_absolute_spec(rel) {
        rel
    } else if base.len() == 0 || base.last() == '/' {
        base + rel
    } else {
        base + seq!['/'] + rel
    }
}

/// `rel` joined onto `base`.
pub fn join(base: &str, rel: &str) -> (r: String)
    ensures
        r@ == join_spec(base@, rel@),
{
    if is_absolute(rel) {
        return rel.to_string();
    }
    let mut out = base.to_string();
    let n = base.unicode_len();
    if n > 0 && base.get_char(n - 1) != '/' {
        push_char(&mut out, '/');
    }
    push_str(&mut out, rel);
    out
}

/// What `Path::parent` gives for a path.
pub uninterp spec fn std_parent(p: Seq<char>) -> Option<Seq<char>>;

/// Calls `Path::parent`. The claim: the result is the named parent of `p`;
/// how components are cut is left unsaid.
#[verifier::external_body]
pub fn parent(p: &str) -> (r: Option<String>)
    ensures
        match r {
            Some(s) => std_parent(p@) == Some(s@),
            None => std_parent(p@) is None,
        },
{
    Path::new(p).parent().map(|q| q.to_string_lossy().into_owned())
}

/// What `Path::file_name` gives for a path.
pub uninterp spec fn std_file_name(p: Seq<char>) -> Option<Seq<char>>;

/// Calls `Path::file_name`. The claim: the result is the named final
/// component of `p`; how it is found is left unsaid.
#[verifier::external_body]
pub fn file_name(p: &str) -> (r: Option<String>)
    ensures
        match r {
            Some(s) => std_file_name(p@) == Some(s@),
            None => std_file_name(p@) is None,
        },
{
    Path::new(p).file_name().map(|q| q.to_string_lossy().into_owned())
}

/// Whether `Path::starts_with` holds: `base` is a prefix of `p` component by
/// component.
pub uninterp spec fn std_path_starts_with(p: Seq<char>, base: Seq<char>) -> bool;

/// Calls `Path::starts_with`. The claim: the result is the named relation
/// between `p` and `base`.
#[verifier::external_body]
pub fn path_starts_with(p: &str, base: &str) -> (r: bool)
    ensures
        r == std_path_starts_with(p@, base@),
{
    Path::new(p).starts_with(Path::new(base))
}

/// What `Path::with_extension` gives.
pub uninterp spec fn std_with_extension(p: Seq<char>, ext: Seq<char>) -> Seq<char>;

/// Calls `Path::with_extension`. The claim: the result is the named path.
/// The call panics on an extension holding a separator, so `ext` may hold
/// no `/`.
#[verifier::external_body]
pub fn with_extension(p: &str, ext: &str) -> (r: String)
    requires
        forall|i: int| 0 <= i < ext@.len() ==> ext@[i] != '/',
    ensures
        r@ == std_with_extension(p@, ext@),
{
    Path::new(p).with_extension(ext).to_string_lossy().into_owned()
}

/// What `format!("{:?}", Path::new(p))` gives: the path quoted, with
/// quotes, backslashes and control characters escaped.
pub uninterp spec fn std_path_debug(p: Seq<char>) -> Seq<char>;

/// Calls the `Debug` formatting of `Path`. The claim: the result is the
/// named form of `p`; how characters are escaped is left unsaid.
#[verifier::external_body]
pub fn path_debug(p: &str) -> (r: String)
    ensures
        r@ == std_path_debug(p@),
{
    format!("{:?}", Path::new(p))
}

/// What `pathdiff::diff_paths(path, base)` gives: `path` relative to `base`.
pub uninterp spec fn pathdiff_of(path: Seq<char>, base: Seq<char>) -> Option<Seq<char>>;

/// Calls `pathdiff::diff_paths`. The claim: the result is the named relative
/// path; as the crate's source shows, when exactly one of the two paths is
/// absolute, the result is `path` itself if `path` is the absolute one and
/// `None` otherwise. The rest of its algorithm is left unsaid.
#[verifier::external_body]
pub fn diff_paths(path: &str, base: &str) -> (r: Option<String>)
    ensures
        match r {
            Some(s) => pathdiff_of(path@, base@) == Some(s@),
            None => pathdiff_of(path@, base@) is None,
        },
        is_absolute_spec(path@) && !is_absolute_spec(base@) ==> (r is Some && r.unwrap()@ == path@),
        !is_absolute_spec(path@) && is_absolute_spec(base@) ==> r is None,
{
    pathdiff::diff_paths(path, base).map(|q| q.to_string_lossy().into_owned())
}


/// Whether `Path`'s order puts `a` before `b` (component by component).
pub uninterp spec fn std_path_lt(a: Seq<char>, b: Seq<char>) -> bool;

/// Calls `<Path as PartialOrd>::lt`. The claim: the result is the named
/// relation, which is asymmetric (the order of `Path` is a total order, by
/// its `Ord`); how components are compared is left unsaid.
#[verifier::external_body]
pub fn path_less(a: &str, b: &str) -> (r: bool)
    ensures
        r == std_path_lt(a@, b@),
        r ==> !std_path_lt(b@, a@),
{
    Path::new(a) < Path::new(b)
}

} // verus!
