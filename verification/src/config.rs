//! Pre-flight validation of input paths.
//!
//! An input path must name an existing file and end in `.gz`. Whether the
//! file exists is established by the caller (it is a filesystem question);
//! the rule itself is verified here.

use vstd::prelude::*;
use vstd::string::StringSliceAdditionalSpecFns;

verus! {

/// Why a path was rejected before any work started.
#[derive(Clone, Copy, Debug, PartialEq, Eq, Structural)]
pub enum ConfigError {
    /// The path does not name an existing file.
    NotFound,
    /// The path does not end in `.gz`, so it is not a gzip input.
    NotGzipped,
}

/// The UTF-8 bytes of a path end in `.gz`.
pub open spec fn spec_ends_with_gz(bytes: Seq<u8>) -> bool {
    &&& bytes.len() >= 3
    &&& bytes[bytes.len() - 3] == 46u8
    &&& bytes[bytes.len() - 2] == 103u8
    &&& bytes[bytes.len() - 1] == 122u8
}

/// Accepts a path only if it exists (as reported by the caller) and ends in
/// `.gz`; missing paths are reported before the suffix is looked at.
pub fn validate_file_path(path: &str, exists: bool) -> (r: Result<String, ConfigError>)
    ensures
        !exists ==> r == Result::<String, ConfigError>::Err(ConfigError::NotFound),
        exists && !spec_ends_with_gz(path.spec_bytes()) ==> r == Result::<
            String,
            ConfigError,
        >::Err(ConfigError::NotGzipped),
        exists && spec_ends_with_gz(path.spec_bytes()) ==> (r matches Ok(s) && s@ == path@),
{
    if !exists {
        return Err(ConfigError::NotFound);
    }
    let bytes = path.as_bytes();
    let n = bytes.len();
    if n < 3 || bytes[n - 3] != 46u8 || bytes[n - 2] != 103u8 || bytes[n - 1] != 122u8 {
        return Err(ConfigError::NotGzipped);
    }
    Ok(path.to_owned())
}

} // verus!
