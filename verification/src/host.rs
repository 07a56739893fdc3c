//! What the library takes from the machine it runs on.
//!
//! Nothing in this file is proved. Each item states what the library relies
//! on when it asks the host for a program on the search path, for the number
//! of processors, or for an unused random file name, and declares the types
//! of other crates that travel through the library unopened.

use vstd::prelude::*;

verus! {

/// `secstr::SecUtf8`, a string kept in locked memory and wiped when dropped.
/// The library stores and hands out the password in this form and never
/// looks inside.
#[verifier::external_type_specification]
#[verifier::external_body]
pub struct ExSecUtf8(secstr::SecUtf8);

/// `std::io::Error`, carried from the host to the caller unopened.
#[verifier::external_type_specification]
#[verifier::external_body]
pub struct ExIoError(std::io::Error);

/// A character that separates the components of a path on some host.
pub open spec fn is_separator(c: char) -> bool {
    c == '/' || c == '\\'
}

/// Calls `which::which` and tells whether it found an executable of that
/// name. The answer depends on the search path and on the disk, so nothing
/// is claimed of it.
#[verifier::external_body]
pub(crate) fn on_search_path(program: &str) -> (found: bool) {
    which::which(program).is_ok()
}

/// `num_cpus::get`: the number of logical processors available to this
/// process, which its documentation promises to be at least one.
pub assume_specification[ num_cpus::get ]() -> (n: usize)
    ensures
        n >= 1,
;

/// Has `tempfile::Builder` create a named temporary file with the given
/// suffix and returns the file's name, without its directory; the file is
/// gone again when this returns. The name is the default prefix `.tmp`, six
/// random characters and the suffix, so it ends in the suffix and is longer
/// than it. `None` stands for a path without a final component.
#[verifier::external_body]
pub(crate) fn fresh_name(suffix: &str) -> (made: Result<Option<String>, std::io::Error>)
    requires
        forall|i: int| 0 <= i < suffix@.len() ==> !is_separator(#[trigger] suffix@[i]),
    ensures
        match made {
            Ok(Some(name)) => name@.len() > suffix@.len() && name@.subrange(
                name@.len() - suffix@.len(),
                name@.len() as int,
            ) == suffix@,
            _ => true,
        },
{
    let file = tempfile::Builder::new().suffix(suffix).tempfile()?;
    Ok(file.path().file_name().map(|name| name.to_string_lossy().into_owned()))
}

} // verus!
