//! File paths, written as the text of the path; what std's `Path` answers
//! about them, and identities derived from them.
use std::hash::{Hash, Hasher};
use vstd::prelude::*;

verus! {

/// What `Path::file_name` answers for the path with this text (as a string).
pub uninterp spec fn file_name_of(p: Seq<char>) -> Option<Seq<char>>;

/// What `Path::extension` answers for the path with this text.
pub uninterp spec fn extension_of(p: Seq<char>) -> Option<Seq<char>>;

/// What `Path::parent` answers for the path with this text.
pub uninterp spec fn parent_of(p: Seq<char>) -> Option<Seq<char>>;

/// The identity std's `DefaultHasher::new()` gives the `Path` with this text.
pub uninterp spec fn path_hash(p: Seq<char>) -> u64;

/// The identity std's `DefaultHasher::new()` gives this string.
pub uninterp spec fn text_hash(s: Seq<char>) -> u64;

/// Calls `Path::file_name` on the path with text `path`, as a string.
///
/// Claims only that the answer is a function of the text, named
/// `file_name_of`; the rules for `..`, trailing separators and roots are
/// std's and are not restated.
#[verifier::external_body]
pub(crate) fn file_name(path: &str) -> (r: Option<String>)
    ensures
        match r {
            Some(s) => file_name_of(path@) == Some(s@),
            None => file_name_of(path@) is None,
        },
{
    std::path::Path::new(path).file_name().and_then(|n| n.to_str()).map(|n| n.to_owned())
}

/// Calls `Path::extension` on the path with text `path`, as a string.
///
/// Claims only that the answer is a function of the text, named
/// `extension_of`.
#[verifier::external_body]
pub(crate) fn extension(path: &str) -> (r: Option<String>)
    ensures
        match r {
            Some(s) => extension_of(path@) == Some(s@),
            None => extension_of(path@) is None,
        },
{
    std::path::Path::new(path).extension().and_then(|n| n.to_str()).map(|n| n.to_owned())
}

/// Calls `Path::parent` on the path with text `path`, as a string.
///
/// Claims that the answer is a function of the text, named `parent_of`, and
/// that a parent is shorter than the path: std returns the slice of the path
/// before its last component, which is not empty.
#[verifier::external_body]
pub(crate) fn parent(path: &str) -> (r: Option<String>)
    ensures
        match r {
            Some(s) => parent_of(path@) == Some(s@) && s@.len() < path@.len(),
            None => parent_of(path@) is None,
        },
{
    std::path::Path::new(path).parent().and_then(|n| n.to_str()).map(|n| n.to_owned())
}

/// Identity of a tree node, derived from its path.
///
/// Calls `Hash::hash` of `Path` on a `DefaultHasher::new()`, whose keys are
/// fixed. Claims that the result is a function of the path's text, named
/// `path_hash`, and that paths with the same components (as `Path::components`
/// lists them) get the same identity, since `Path`'s hash agrees with its
/// equality, which compares components. std does not promise the same value
/// across its releases, and nothing here relies on the value.
#[verifier::external_body]
pub fn id(path: &str) -> (r: u64)
    ensures
        r == path_hash(path@),
        forall|q: Seq<char>| #[trigger] components_of(q) == components_of(path@) ==> path_hash(q) == r,
{
    let mut hasher = std::collections::hash_map::DefaultHasher::new();
    std::path::Path::new(path).hash(&mut hasher);
    hasher.finish()
}

/// Identity of a string, from `Hash::hash` of `str` on a
/// `DefaultHasher::new()`. Claims only that the result is a function of the
/// characters, named `text_hash`.
#[verifier::external_body]
pub(crate) fn text_id(text: &str) -> (r: u64)
    ensures
        r == text_hash(text@),
{
    let mut hasher = std::collections::hash_map::DefaultHasher::new();
    text.hash(&mut hasher);
    hasher.finish()
}

/// What `Path::file_stem` answers for the path with this text.
pub uninterp spec fn file_stem_of(p: Seq<char>) -> Option<Seq<char>>;

/// What `Path::with_file_name` answers for the path `p` and the name `n`.
pub uninterp spec fn with_file_name_of(p: Seq<char>, n: Seq<char>) -> Seq<char>;

/// Whether the path `a` orders before the path `b` in std's order of paths,
/// which compares them component by component.
pub uninterp spec fn path_less(a: Seq<char>, b: Seq<char>) -> bool;

/// Calls `Path::file_stem` on the path with text `path`, as a string.
///
/// Claims only that the answer is a function of the text, named
/// `file_stem_of`.
#[verifier::external_body]
pub(crate) fn file_stem(path: &str) -> (r: Option<String>)
    ensures
        match r {
            Some(s) => file_stem_of(path@) == Some(s@),
            None => file_stem_of(path@) is None,
        },
{
    std::path::Path::new(path).file_stem().and_then(|n| n.to_str()).map(|n| n.to_owned())
}

/// Calls `Path::with_file_name`: the path with its last component replaced
/// by `name`. Claims only that the answer is a function of the two texts,
/// named `with_file_name_of`.
#[verifier::external_body]
pub(crate) fn with_file_name(path: &str, name: &str) -> (r: String)
    ensures
        r@ == with_file_name_of(path@, name@),
{
    std::path::Path::new(path).with_file_name(name).to_string_lossy().into_owned()
}

/// Calls `<Path as PartialOrd>::lt` on the paths with these texts. Claims
/// only that the answer is a function of the two texts, named `path_less`.
#[verifier::external_body]
pub(crate) fn path_lt(a: &str, b: &str) -> (r: bool)
    ensures
        r == path_less(a@, b@),
{
    std::path::Path::new(a) < std::path::Path::new(b)
}

/// What `Path::strip_prefix` answers for the path with text `path` and the
/// base with text `base`: the rest of the path, when `base` begins it.
pub uninterp spec fn stripped_of(path: Seq<char>, base: Seq<char>) -> Option<Seq<char>>;

/// What `Path::components` lists for the path with this text, each
/// component as a string.
pub uninterp spec fn components_of(p: Seq<char>) -> Seq<Seq<char>>;

/// Calls `Path::strip_prefix`.
///
/// Claims only that the answer is a function of the two texts, named
/// `stripped_of`; how components are compared is std's and is not restated.
#[verifier::external_body]
pub(crate) fn strip_prefix(path: &str, base: &str) -> (r: Option<String>)
    ensures
        match r {
            Some(s) => stripped_of(path@, base@) == Some(s@),
            None => stripped_of(path@, base@) is None,
        },
{
    std::path::Path::new(path).strip_prefix(base).ok().and_then(|p| p.to_str()).map(|p| p.to_owned())
}

/// Calls `Path::components`, each component as a string.
///
/// Claims only that the list is a function of the text, named
/// `components_of`; how separators, `.` and roots are read is std's and is
/// not restated.
#[verifier::external_body]
pub(crate) fn components(path: &str) -> (r: Vec<String>)
    ensures
        r@.map_values(|c: String| c@) == components_of(path@),
{
    std::path::Path::new(path).components().map(|c| c.as_os_str().to_string_lossy().into_owned()).collect()
}

/// What `Path::starts_with` answers for the path with text `path` and the
/// base with text `base`.
pub uninterp spec fn path_starts_with(path: Seq<char>, base: Seq<char>) -> bool;

/// Calls `Path::starts_with`.
///
/// Claims only that the answer is a function of the two texts, named
/// `path_starts_with`; the comparison by whole components is std's and is
/// not restated.
#[verifier::external_body]
pub(crate) fn starts_with_path(path: &str, base: &str) -> (r: bool)
    ensures
        r == path_starts_with(path@, base@),
{
    std::path::Path::new(path).starts_with(base)
}

} // verus!
