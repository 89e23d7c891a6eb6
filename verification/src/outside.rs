//! Declarations of std types that the library carries through its logic
//! without looking inside them.

use vstd::prelude::*;

verus! {

/// `std::path::PathBuf`: asset and platform paths are carried as opaque values.
#[verifier::external_type_specification]
#[verifier::external_body]
pub struct ExPathBuf(std::path::PathBuf);

/// `std::io::Error`: the engine's open/read errors carry the error that reading failed with.
#[verifier::external_type_specification]
#[verifier::external_body]
pub struct ExIoError(std::io::Error);

/// `<PathBuf as Clone>::clone`: a clone of a path is the same path.
pub assume_specification[ <std::path::PathBuf as Clone>::clone ](path: &std::path::PathBuf) -> (copy: std::path::PathBuf)
    ensures
        copy == *path,
;

} // verus!
