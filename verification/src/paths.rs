//! File paths, held as their text. All paths of the editor are made from texts,
//! so none is ever anything but a text.
//!
//! What a path means is a matter of the platform that the library is built
//! for, and of `std::path`, which every function here calls.

use vstd::prelude::*;

verus! {

/// The path that `std::path::Path::join` makes of `base` and `name`.
pub uninterp spec fn joined_path(base: Seq<char>, name: Seq<char>) -> Seq<char>;

/// The path without its last part, as `std::path::Path::parent` gives it.
pub uninterp spec fn parent_path(path: Seq<char>) -> Option<Seq<char>>;

/// The extension of the file name, as `std::path::Path::extension` gives it.
pub uninterp spec fn path_extension(path: Seq<char>) -> Option<Seq<char>>;

/// `a` and `b` are equal as `std::path::Path`s.
pub uninterp spec fn same_path(a: Seq<char>, b: Seq<char>) -> bool;

/// The extension of the file at `path`; empty when it has none.
pub open spec fn extension(path: Seq<char>) -> Seq<char> {
    match path_extension(path) {
        Some(ext) => ext,
        None => Seq::empty(),
    }
}

/// `std::path::Path::join` puts `name` behind `base`, with a separator between
/// them where one is needed; an absolute `name` takes the place of `base`. The
/// result is a function of the two texts.
#[verifier::external_body]
pub(crate) fn join_path(base: &str, name: &str) -> (r: String)
    ensures
        r@ == joined_path(base@, name@),
{
    std::path::Path::new(base).join(name).to_string_lossy().into_owned()
}

/// `std::path::Path::parent` takes the last part off a path, or gives nothing
/// for a root, a prefix or an empty path. The result is a function of the text.
#[verifier::external_body]
pub(crate) fn parent_of(path: &str) -> (r: Option<String>)
    ensures
        match r {
            Some(parent) => parent_path(path@) == Some(parent@),
            None => parent_path(path@) is None,
        },
{
    std::path::Path::new(path).parent().map(|p| p.to_string_lossy().into_owned())
}

/// `std::path::Path::extension` gives what follows the last dot of the file
/// name, unless that dot starts the name. The result is a function of the text.
#[verifier::external_body]
fn extension_of_path(path: &str) -> (r: Option<String>)
    ensures
        match r {
            Some(ext) => path_extension(path@) == Some(ext@),
            None => path_extension(path@) is None,
        },
{
    std::path::Path::new(path).extension().map(|e| e.to_string_lossy().into_owned())
}

/// `==` of `std::path::Path` compares two paths part by part. The result is a
/// function of the two texts, and a path equals itself.
#[verifier::external_body]
pub(crate) fn equal_paths(a: &str, b: &str) -> (r: bool)
    ensures
        r == same_path(a@, b@),
        a@ == b@ ==> r,
{
    std::path::Path::new(a) == std::path::Path::new(b)
}

/// The extension of the file at `path`; empty when it has none.
pub(crate) fn extension_of(path: &str) -> (r: String)
    ensures
        r@ == extension(path@),
{
    match extension_of_path(path) {
        Some(ext) => ext,
        None => String::new(),
    }
}

} // verus!
