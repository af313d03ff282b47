//! The ways a changelog run can fail.

use vstd::prelude::*;

verus! {

/// Why a step of a changelog run failed.
#[derive(Clone, Copy, Debug, PartialEq, Eq, Structural)]
pub enum ErrorKind {
    /// The package has no tag that carries a semantic version.
    NoTags,
    /// A tag that bounds a range does not resolve to a commit.
    AmbiguousBoundary,
    /// A commit inside a range could not be read.
    RepositoryRead,
    /// An author has no resolved identity.
    ExternalService,
}

} // verus!
