//! Where the artifact of a bundle goes and what it is called.

use vstd::prelude::*;
use crate::entry::{archive_name, with_suffix};

verus! {

/// Why no output path could be named for a bundle.
#[derive(Clone, Copy, Debug, PartialEq, Eq)]
pub enum PackPathError {
    /// The bundle's first file has no file name.
    NoFileName,
    /// No temporary file could be created to take a random name from.
    NoTempFile,
    /// The temporary file's path has no file name.
    NoTempName,
    /// The bundle's first file has no parent directory.
    NoParent,
}

/// Where a bundle's artifact goes: a file name inside a directory.
#[derive(Debug)]
pub struct PackPath {
    pub directory: String,
    pub file_name: String,
}

/// The output name of a bundle whose first file is called `name`, when
/// names are kept.
pub fn kept_name(name: Option<&str>) -> (named: Result<String, PackPathError>)
    ensures
        match named {
            Ok(output) => name.is_some() && output@ == archive_name(name.unwrap()@),
            Err(e) => name.is_none() && e == PackPathError::NoFileName,
        },
{
    match name {
        Some(n) => Ok(with_suffix(n)),
        None => Err(PackPathError::NoFileName),
    }
}

/// The output name of a bundle when names are hidden, from what the host
/// made of the request for a fresh name.
pub fn random_name(made: Result<Option<String>, std::io::Error>) -> (named: Result<
    String,
    PackPathError,
>)
    ensures
        match made {
            Ok(Some(fresh)) => named == Ok::<String, PackPathError>(fresh),
            Ok(None) => named == Err::<String, PackPathError>(PackPathError::NoTempName),
            Err(_) => named == Err::<String, PackPathError>(PackPathError::NoTempFile),
        },
{
    match made {
        Ok(Some(fresh)) => Ok(fresh),
        Ok(None) => Err(PackPathError::NoTempName),
        Err(_) => Err(PackPathError::NoTempFile),
    }
}

/// Puts an output name, if there is one, into the directory of the
/// bundle's first file, if it has one. A missing name is reported before a
/// missing directory.
pub fn beside(named: Result<String, PackPathError>, parent: Option<&str>) -> (placed: Result<
    PackPath,
    PackPathError,
>)
    ensures
        match named {
            Err(e) => placed.is_err() && placed.unwrap_err() == e,
            Ok(output) => match parent {
                None => placed.is_err() && placed.unwrap_err() == PackPathError::NoParent,
                Some(directory) => placed.is_ok() && placed.unwrap().directory@ == directory@
                    && placed.unwrap().file_name == output,
            },
        },
{
    let file_name = match named {
        Ok(output) => output,
        Err(e) => {
            return Err(e);
        },
    };
    match parent {
        Some(directory) => Ok(PackPath { directory: String::from_str(directory), file_name }),
        None => Err(PackPathError::NoParent),
    }
}

} // verus!
