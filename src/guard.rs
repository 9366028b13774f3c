use vstd::prelude::*;

use crate::path::SanitizedPath;
use crate::Rejection;

verus! {

/// What a metadata lookup that follows symlinks reports for an existing path.
#[derive(Clone, Copy, Debug, PartialEq, Eq, Structural)]
pub enum FsKind {
    Directory,
    File,
    Other,
}

/// The filesystem state a path must be in before an operation may run.
#[derive(Clone, Copy, Debug, PartialEq, Eq, Structural)]
pub enum Guard {
    MustBeExistingDirectory,
    MustNotExist,
    MustBeExistingFile,
    MustExist,
}

impl Guard {
    /// Whether a lookup that found `observed` (`None`: nothing there) lets
    /// the path through.
    pub open spec fn admits_spec(self, observed: Option<FsKind>) -> bool {
        match self {
            Guard::MustBeExistingDirectory => observed == Some(FsKind::Directory),
            Guard::MustNotExist => observed is None,
            Guard::MustBeExistingFile => observed == Some(FsKind::File),
            Guard::MustExist => observed is Some,
        }
    }

    pub fn admits(self, observed: Option<FsKind>) -> (r: bool)
        ensures
            r == self.admits_spec(observed),
    {
        match self {
            Guard::MustBeExistingDirectory => match observed {
                Some(FsKind::Directory) => true,
                _ => false,
            },
            Guard::MustNotExist => observed.is_none(),
            Guard::MustBeExistingFile => match observed {
                Some(FsKind::File) => true,
                _ => false,
            },
            Guard::MustExist => observed.is_some(),
        }
    }
}

/// A sanitized path together with the guard it passed.
#[derive(Debug)]
pub struct CheckedPath {
    pub path: SanitizedPath,
    pub guard: Guard,
}

/// Lets `path` through `guard`, given what the lookup of it found; every
/// refusal is `NotFound`.
pub fn check(path: SanitizedPath, guard: Guard, observed: Option<FsKind>) -> (r: Result<
    CheckedPath,
    Rejection,
>)
    ensures
        (r is Ok) == guard.admits_spec(observed),
        r is Ok ==> r->Ok_0.path@ == path@ && r->Ok_0.guard == guard,
        r is Err ==> r->Err_0 == Rejection::NotFound,
{
    if guard.admits(observed) {
        Ok(CheckedPath { path, guard })
    } else {
        Err(Rejection::NotFound)
    }
}

} // verus!
