use vstd::prelude::*;

verus! {

/// The path `rel` joined onto `base`, as `std::path::Path::join` forms it.
pub uninterp spec fn joined(base: Seq<char>, rel: Seq<char>) -> Seq<char>;

/// The parent of a path, as `std::path::Path::parent` gives it.
pub uninterp spec fn parent_of(p: Seq<char>) -> Option<Seq<char>>;

/// The final component of a path, as `std::path::Path::file_name` gives it.
pub uninterp spec fn file_name_of(p: Seq<char>) -> Option<Seq<char>>;

/// The message of the syntax error in a glob pattern, if it has one.
pub uninterp spec fn glob_error_of(p: Seq<char>) -> Option<Seq<char>>;

/// The views of a sequence of strings.
pub open spec fn views(v: Seq<String>) -> Seq<Seq<char>> {
    v.map_values(|s: String| s@)
}

/// Lexicographic order of strings by code point, which is the order `str` compares in
/// (UTF-8 bytes compare in the same order as the code points they encode).
pub open spec fn str_le(a: Seq<char>, b: Seq<char>) -> bool
    decreases a.len(),
{
    if a.len() == 0 {
        true
    } else if b.len() == 0 {
        false
    } else if a[0] != b[0] {
        (a[0] as u32) < (b[0] as u32)
    } else {
        str_le(a.drop_first(), b.drop_first())
    }
}

/// Whether `s` starts with `./`.
pub open spec fn starts_with_dot_slash(s: Seq<char>) -> bool {
    s.len() >= 2 && s[0] == '.' && s[1] == '/'
}

/// Relies on std::path::Path::join; the result depends on the two paths alone.
#[verifier::external_body]
pub(crate) fn path_join(base: &str, rel: &str) -> (r: String)
    ensures
        r@ == joined(base@, rel@),
{
    std::path::Path::new(base).join(rel).to_string_lossy().into_owned()
}

/// Relies on std::path::Path::parent: the path without its final component, which is
/// strictly shorter than the path itself.
#[verifier::external_body]
pub(crate) fn path_parent(p: &str) -> (r: Option<String>)
    ensures
        match r {
            Some(s) => parent_of(p@) == Some(s@) && s@.len() < p@.len(),
            None => parent_of(p@) is None,
        },
{
    std::path::Path::new(p).parent().map(|q| q.to_string_lossy().into_owned())
}

/// Relies on std::path::Path::file_name for the final component of a path.
#[verifier::external_body]
pub(crate) fn path_file_name(p: &str) -> (r: Option<String>)
    ensures
        match r {
            Some(s) => file_name_of(p@) == Some(s@),
            None => file_name_of(p@) is None,
        },
{
    std::path::Path::new(p).file_name().and_then(|n| n.to_str()).map(|n| n.to_string())
}

/// Relies on str::contains to find the glob wildcard `*`.
#[verifier::external_body]
pub(crate) fn has_wildcard(s: &str) -> (r: bool)
    ensures
        r == s@.contains('*'),
{
    s.contains('*')
}

/// Relies on str::strip_prefix to remove a leading `./`.
#[verifier::external_body]
pub(crate) fn strip_dot_slash(s: &str) -> (r: Option<String>)
    ensures
        match r {
            Some(t) => starts_with_dot_slash(s@) && t@ == s@.subrange(2, s@.len() as int),
            None => !starts_with_dot_slash(s@),
        },
{
    s.strip_prefix("./").map(|t| t.to_string())
}

/// Relies on glob::Pattern::new to check a pattern's syntax; its error message
/// depends on the pattern alone.
#[verifier::external_body]
pub(crate) fn glob_pattern_error(p: &str) -> (r: Option<String>)
    ensures
        match r {
            Some(e) => glob_error_of(p@) == Some(e@),
            None => glob_error_of(p@) is None,
        },
{
    match glob::Pattern::new(p) {
        Ok(_) => None,
        Err(e) => Some(e.to_string()),
    }
}

/// Relies on slice::sort: a permutation, in ascending order of `str`.
#[verifier::external_body]
pub(crate) fn sort_strings(v: &mut Vec<String>)
    ensures
        views(final(v)@).to_multiset() == views(old(v)@).to_multiset(),
        forall|i: int, j: int|
            0 <= i < j < final(v)@.len() ==> str_le(#[trigger] final(v)@[i]@, #[trigger] final(v)@[j]@),
{
    v.sort();
}

} // verus!
