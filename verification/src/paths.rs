//! File paths, as std's `Path` reads them.

use vstd::prelude::*;

verus! {

/// The extension of a path as `Path::extension` finds it (the part of the
/// file name after its last `.`, if any).
pub uninterp spec fn path_ext(path: Seq<char>) -> Option<Seq<char>>;

pub open spec fn opt_chars(o: Option<String>) -> Option<Seq<char>> {
    match o {
        Some(s) => Some(s@),
        None => None,
    }
}

/// `std::path::Path::extension` of a path given as text. Its result is a
/// fixed function of the text, named `path_ext`.
#[verifier::external_body]
pub(crate) fn path_extension(path: &str) -> (r: Option<String>)
    ensures
        opt_chars(r) == path_ext(path@),
{
    match std::path::Path::new(path).extension() {
        Some(e) => Some(e.to_string_lossy().into_owned()),
        None => None,
    }
}

/// The path that `Path::join` makes of a base and a relative or absolute path.
pub uninterp spec fn joined_path(base: Seq<char>, name: Seq<char>) -> Seq<char>;

/// `std::path::Path::join` on paths given as text. Its result is a fixed
/// function of the two texts, named `joined_path`.
#[verifier::external_body]
pub(crate) fn path_join(base: &str, name: &str) -> (r: String)
    ensures
        r@ == joined_path(base@, name@),
{
    std::path::Path::new(base).join(name).to_string_lossy().into_owned()
}

} // verus!
