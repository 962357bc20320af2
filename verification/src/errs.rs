//! The crate's error kinds.

use vstd::prelude::*;

verus! {

/// What can go wrong while converting a recipe or managing a repository.
#[derive(Clone, Copy, Debug, PartialEq, Eq, Structural)]
pub enum RookError {
    /// A file or directory could not be read or written.
    Io,
    /// A remote endpoint could not be reached or answered badly.
    Network,
    /// A recipe could not be parsed.
    Parse,
    /// A signature did not verify.
    Signature,
    /// The package refuses conversion.
    SkipList,
    /// No signing key is available.
    MissingKey,
    /// The repository already exists.
    AlreadyExists,
    /// A TOML or JSON document is malformed.
    MalformedInput,
    /// The path does not hold a repository.
    NotARepository,
}

impl RookError {
    /// A short description of the error kind.
    pub fn describe(&self) -> (r: &'static str)
        ensures
            r@.len() > 0,
    {
        let r = match self {
            RookError::Io => "input or output failed",
            RookError::Network => "network request failed",
            RookError::Parse => "recipe could not be parsed",
            RookError::Signature => "signature verification failed",
            RookError::SkipList => "package is in the skip list",
            RookError::MissingKey => "no signing key available",
            RookError::AlreadyExists => "repository already exists",
            RookError::MalformedInput => "malformed TOML or JSON input",
            RookError::NotARepository => "not a repository",
        };
        proof {
            reveal_strlit("input or output failed");
            reveal_strlit("network request failed");
            reveal_strlit("recipe could not be parsed");
            reveal_strlit("signature verification failed");
            reveal_strlit("package is in the skip list");
            reveal_strlit("no signing key available");
            reveal_strlit("repository already exists");
            reveal_strlit("malformed TOML or JSON input");
            reveal_strlit("not a repository");
        }
        r
    }
}

} // verus!
