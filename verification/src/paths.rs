use vstd::prelude::*;

verus! {

/// The last component of a path as `std::path::Path::file_name` gives it,
/// `None` when the path has none (it is empty, is a root, or ends in `..`).
pub uninterp spec fn path_file_name(path: Seq<char>) -> Option<Seq<char>>;

/// The path that `std::path::Path::with_file_name` builds from `path` and a
/// new last component.
pub uninterp spec fn path_with_file_name(path: Seq<char>, file_name: Seq<char>) -> Seq<char>;

/// Calls `std::path::Path::file_name` on `path`. The name of a path given as
/// text is text too, so the conversion back to a `String` loses nothing.
/// Claimed: the result is `path_file_name` of the path.
#[verifier::external_body]
pub(crate) fn file_name_of(path: &str) -> (name: Option<String>)
    ensures
        match name {
            Some(name) => path_file_name(path@) == Some(name@),
            None => path_file_name(path@) is None,
        },
{
    std::path::Path::new(path).file_name().map(|name| name.to_string_lossy().into_owned())
}

/// Calls `std::path::Path::with_file_name`, which joins text to text.
/// Claimed: the result is `path_with_file_name` of the arguments.
#[verifier::external_body]
pub(crate) fn with_file_name(path: &str, file_name: &str) -> (joined: String)
    ensures
        joined@ == path_with_file_name(path@, file_name@),
{
    std::path::Path::new(path).with_file_name(file_name).to_string_lossy().into_owned()
}

} // verus!
