use vstd::prelude::*;

verus! {

/// Why a store path cannot be used as it is.
#[derive(Debug, PartialEq, Eq)]
pub enum FileError {
    /// The path is the empty string.
    NameIsEmpty,
    /// The path is not empty but names no file extension.
    InvalidExtension,
    /// The path has an extension but no file exists there.
    NotExists,
}

/// Whether `std::path::Path::extension` finds an extension in the path.
pub uninterp spec fn has_extension(path: Seq<char>) -> bool;

/// Whether `p` holds a `.` anywhere.
pub open spec fn has_dot(p: Seq<char>) -> bool {
    exists|i: int| 0 <= i < p.len() && #[trigger] p[i] == '.'
}

/// Whether `p` holds a `.` after its first character.
pub open spec fn has_inner_dot(p: Seq<char>) -> bool {
    exists|i: int| 0 < i < p.len() && #[trigger] p[i] == '.'
}

/// Whether `p` is a bare file name: no separator or drive character, and not
/// the parent directory `..`.
pub open spec fn bare_file_name(p: Seq<char>) -> bool {
    &&& forall|i: int| 0 <= i < p.len() ==> #[trigger] p[i] != '/' && p[i] != '\\' && p[i] != ':'
    &&& p != seq!['.', '.']
}

/// Relies on `std::path::Path::extension`: `None` when the path has no file
/// name or the file name has no `.` but at its start, else the part after the
/// last `.`. So a path with no `.` has no extension, and a bare file name
/// with a `.` after its first character has one.
#[verifier::external_body]
fn path_has_extension(path: &str) -> (r: bool)
    ensures
        r == has_extension(path@),
        !has_dot(path@) ==> !r,
        bare_file_name(path@) && has_inner_dot(path@) ==> r,
{
    std::path::Path::new(path).extension().is_some()
}

/// Classifies a store path. `exists` tells whether a file is found at the
/// path. An extension is looked for before existence; a path without one is
/// told apart as empty or not. `Ok(true)` when the store can be used as it is.
pub fn check_file_exists(filepath: &str, exists: bool) -> (r: Result<bool, FileError>)
    ensures
        filepath@.len() == 0 ==> r == Err::<bool, FileError>(FileError::NameIsEmpty),
        filepath@.len() > 0 && !has_dot(filepath@) ==> r == Err::<bool, FileError>(
            FileError::InvalidExtension,
        ),
        bare_file_name(filepath@) && has_inner_dot(filepath@) && exists ==> r == Ok::<
            bool,
            FileError,
        >(true),
        bare_file_name(filepath@) && has_inner_dot(filepath@) && !exists ==> r == Err::<
            bool,
            FileError,
        >(FileError::NotExists),
        !has_extension(filepath@) && filepath@.len() > 0 ==> r == Err::<bool, FileError>(
            FileError::InvalidExtension,
        ),
        has_extension(filepath@) && exists ==> r == Ok::<bool, FileError>(true),
        has_extension(filepath@) && !exists ==> r == Err::<bool, FileError>(FileError::NotExists),
{
    if !path_has_extension(filepath) {
        if filepath.is_empty() {
            Err(FileError::NameIsEmpty)
        } else {
            Err(FileError::InvalidExtension)
        }
    } else if exists {
        Ok(true)
    } else {
        Err(FileError::NotExists)
    }
}

} // verus!
