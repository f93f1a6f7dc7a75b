//! File-system paths, held as their text. What the platform's path rules
//! compute is left to `std::path` and named here.

use vstd::prelude::*;

verus! {

/// What `Path::join` gives for a base path and a path to adjoin.
pub uninterp spec fn joined_path(base: Seq<char>, rest: Seq<char>) -> Seq<char>;

/// What `Path::extension` gives for a path, as text.
pub uninterp spec fn path_extension(p: Seq<char>) -> Option<Seq<char>>;

/// What `Path::file_stem` gives for a path, as text.
pub uninterp spec fn path_file_stem(p: Seq<char>) -> Option<Seq<char>>;

/// What `Path::parent` gives for a path, as text.
pub uninterp spec fn path_parent(p: Seq<char>) -> Option<Seq<char>>;

/// What `Path::is_absolute` says of a path.
pub uninterp spec fn path_is_absolute(p: Seq<char>) -> bool;

/// `Path::is_absolute`: whether the path is independent of the current
/// directory (on Unix, whether it starts with the root); named, not spelled
/// out.
#[verifier::external_body]
pub(crate) fn is_absolute(p: &str) -> (r: bool)
    ensures
        r == path_is_absolute(p@),
{
    std::path::Path::new(p).is_absolute()
}

/// `Path::join`: `rest` adjoined to `base` by the platform's path rules.
/// Its documentation says that an absolute `rest` replaces `base`; that is
/// stated, and the rest of the result is named, not spelled out (the
/// separator and what counts as absolute differ between platforms). Both
/// inputs are UTF-8, so the joined path is too.
#[verifier::external_body]
pub(crate) fn join_path(base: &str, rest: &str) -> (r: String)
    ensures
        r@ == joined_path(base@, rest@),
        path_is_absolute(rest@) ==> r@ == rest@,
{
    std::path::Path::new(base).join(rest).to_string_lossy().into_owned()
}

/// `Path::extension`: the text after the last `.` of the file name, if any
/// (named, not spelled out).
#[verifier::external_body]
pub(crate) fn extension_of(p: &str) -> (r: Option<String>)
    ensures
        r matches Some(e) ==> path_extension(p@) == Some(e@),
        r is None ==> path_extension(p@) is None,
{
    std::path::Path::new(p).extension().map(std::path::Path::new).and_then(std::path::Path::to_str).map(String::from)
}

/// `Path::file_stem`: the file name without its extension, if there is a
/// file name (named, not spelled out).
#[verifier::external_body]
pub(crate) fn file_stem_of(p: &str) -> (r: Option<String>)
    ensures
        r matches Some(e) ==> path_file_stem(p@) == Some(e@),
        r is None ==> path_file_stem(p@) is None,
{
    std::path::Path::new(p).file_stem().map(std::path::Path::new).and_then(std::path::Path::to_str).map(String::from)
}

/// `Path::parent`: the path without its last component, or none when it
/// ends in a root or prefix or is empty (named, not spelled out).
#[verifier::external_body]
pub(crate) fn parent_of(p: &str) -> (r: Option<String>)
    ensures
        r matches Some(e) ==> path_parent(p@) == Some(e@),
        r is None ==> path_parent(p@) is None,
{
    std::path::Path::new(p).parent().and_then(std::path::Path::to_str).map(String::from)
}

/// `Path::exists`: whether the file system holds something at the path
/// now. Nothing is promised of the answer: it depends on the disk.
#[verifier::external_body]
pub(crate) fn path_exists(p: &str) -> (r: bool) {
    std::path::Path::new(p).exists()
}

} // verus!
