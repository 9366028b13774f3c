use vstd::prelude::*;

use crate::entry::{listing, list_entries, Child, Entry};
use crate::guard::{check, CheckedPath, FsKind, Guard};
use crate::path::SanitizedPath;
use crate::upload::{admit_body, body_verdict, UploadSession};
use crate::Rejection;

verus! {

/// Lists a checked directory from its enumerated children. The entries keep
/// the enumeration order, with paths relative to the base; a child that
/// cannot be classified fails the whole listing.
pub fn ls_dir(dir: &CheckedPath, children: &Vec<Child>) -> (r: Result<Vec<Entry>, Rejection>)
    requires
        dir.guard == Guard::MustBeExistingDirectory,
    ensures
        (r is Ok) == (listing(dir.path@.0, children@) is Some),
        r is Ok ==> r->Ok_0@.map_values(|e: Entry| e@) == listing(dir.path@.0, children@)->0,
        r is Err ==> r->Err_0 == Rejection::NotFound,
{
    match list_entries(dir.path.base.as_str(), children) {
        Some(v) => Ok(v),
        None => Err(Rejection::NotFound),
    }
}

/// Admits a directory to be listed: it must exist and be a directory.
pub fn ls_dir_target(path: SanitizedPath, observed: Option<FsKind>) -> (r: Result<
    CheckedPath,
    Rejection,
>)
    ensures
        (r is Ok) == (observed == Some(FsKind::Directory)),
        r is Ok ==> r->Ok_0.path@ == path@ && r->Ok_0.guard == Guard::MustBeExistingDirectory,
        r is Err ==> r->Err_0 == Rejection::NotFound,
{
    check(path, Guard::MustBeExistingDirectory, observed)
}

/// Admits a directory to be created: nothing may exist at the path.
pub fn mk_dir(path: SanitizedPath, observed: Option<FsKind>) -> (r: Result<CheckedPath, Rejection>)
    ensures
        (r is Ok) == (observed is None),
        r is Ok ==> r->Ok_0.path@ == path@ && r->Ok_0.guard == Guard::MustNotExist,
        r is Err ==> r->Err_0 == Rejection::NotFound,
{
    check(path, Guard::MustNotExist, observed)
}

/// Admits a directory to be removed with all it holds: it must exist and be
/// a directory.
pub fn rm_dir(path: SanitizedPath, observed: Option<FsKind>) -> (r: Result<CheckedPath, Rejection>)
    ensures
        (r is Ok) == (observed == Some(FsKind::Directory)),
        r is Ok ==> r->Ok_0.path@ == path@ && r->Ok_0.guard == Guard::MustBeExistingDirectory,
        r is Err ==> r->Err_0 == Rejection::NotFound,
{
    check(path, Guard::MustBeExistingDirectory, observed)
}

/// Admits a file to be removed: it must exist and be a regular file.
pub fn rm_file(path: SanitizedPath, observed: Option<FsKind>) -> (r: Result<CheckedPath, Rejection>)
    ensures
        (r is Ok) == (observed == Some(FsKind::File)),
        r is Ok ==> r->Ok_0.path@ == path@ && r->Ok_0.guard == Guard::MustBeExistingFile,
        r is Err ==> r->Err_0 == Rejection::NotFound,
{
    check(path, Guard::MustBeExistingFile, observed)
}

/// Admits an upload: first the body by its declared length against the
/// ceiling, then the target, which must be an existing directory; on success
/// the session starts with the names `existing` in use.
pub fn up_file(
    path: SanitizedPath,
    observed: Option<FsKind>,
    content_length: Option<u64>,
    byte_limit: u64,
    existing: Vec<String>,
) -> (r: Result<UploadSession, Rejection>)
    ensures
        body_verdict(content_length, byte_limit) is Err ==> r == Err::<UploadSession, Rejection>(
            body_verdict(content_length, byte_limit)->Err_0,
        ),
        body_verdict(content_length, byte_limit) is Ok && observed != Some(FsKind::Directory)
            ==> r == Err::<UploadSession, Rejection>(Rejection::NotFound),
        (r is Ok) == (body_verdict(content_length, byte_limit) is Ok && observed == Some(
            FsKind::Directory,
        )),
        r is Ok ==> r->Ok_0.dir.path@ == path@ && r->Ok_0.dir.guard
            == Guard::MustBeExistingDirectory && r->Ok_0.taken_view() == existing@.map_values(
            |s: String| s@,
        ),
{
    match admit_body(content_length, byte_limit) {
        Err(e) => return Err(e),
        Ok(()) => {},
    }
    match check(path, Guard::MustBeExistingDirectory, observed) {
        Ok(dir) => Ok(UploadSession::new(dir, existing)),
        Err(e) => Err(e),
    }
}

/// Admits a move: the source must exist, and the destination (the `to`
/// query, `None` where it did not sanitize) must not.
pub fn mv_path(
    source: SanitizedPath,
    source_observed: Option<FsKind>,
    dest: Option<SanitizedPath>,
    dest_observed: Option<FsKind>,
) -> (r: Result<(CheckedPath, CheckedPath), Rejection>)
    ensures
        (r is Ok) == (source_observed is Some && dest is Some && dest_observed is None),
        r is Ok ==> r->Ok_0.0.path@ == source@ && r->Ok_0.0.guard == Guard::MustExist
            && r->Ok_0.1.path@ == dest->0@ && r->Ok_0.1.guard == Guard::MustNotExist,
        r is Err ==> r->Err_0 == Rejection::NotFound,
{
    let from = match check(source, Guard::MustExist, source_observed) {
        Ok(c) => c,
        Err(e) => return Err(e),
    };
    let to = match dest {
        Some(d) => d,
        None => return Err(Rejection::NotFound),
    };
    match check(to, Guard::MustNotExist, dest_observed) {
        Ok(c) => Ok((from, c)),
        Err(e) => Err(e),
    }
}

/// What a filesystem call's success or failure becomes: every failure is
/// `NotFound`.
pub fn fs_outcome(succeeded: bool) -> (r: Result<(), Rejection>)
    ensures
        r == (if succeeded {
            Ok::<(), Rejection>(())
        } else {
            Err(Rejection::NotFound)
        }),
{
    if succeeded {
        Ok(())
    } else {
        Err(Rejection::NotFound)
    }
}

} // verus!
