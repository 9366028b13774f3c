use warp_fs::entry::{Child, ChildKind, ChildMeta, Entry};
use warp_fs::guard::{check, FsKind, Guard};
use warp_fs::ops::{fs_outcome, ls_dir, ls_dir_target, mk_dir, mv_path, rm_dir, rm_file, up_file};
use warp_fs::path::{sanitize, SanitizedPath};
use warp_fs::upload::{admit_body, upload_name_allowed};
use warp_fs::Rejection;

fn path(tail: &str) -> SanitizedPath {
    sanitize("/srv", tail).unwrap()
}

#[test]
fn mkdir_on_existing_path_is_refused() {
    assert_eq!(mk_dir(path("x"), Some(FsKind::Directory)).unwrap_err(), Rejection::NotFound);
    assert_eq!(mk_dir(path("x"), Some(FsKind::File)).unwrap_err(), Rejection::NotFound);
}

#[test]
fn mkdir_on_fresh_path_then_listed() {
    let made = mk_dir(path("new"), None).unwrap();
    assert_eq!(made.guard, Guard::MustNotExist);
    let target = made.path.resolved();
    assert_eq!(target, "/srv/new");
    let parent = ls_dir_target(path(""), Some(FsKind::Directory)).unwrap();
    let children = vec![Child {
        path: target,
        meta: Some(ChildMeta { kind: ChildKind::Directory, len: 0 }),
        target: None,
    }];
    let entries = ls_dir(&parent, &children).unwrap();
    assert!(matches!(&entries[0], Entry::Directory { path } if path == "new"));
}

#[test]
fn listing_needs_a_directory() {
    assert!(ls_dir_target(path("f"), Some(FsKind::File)).is_err());
    assert!(ls_dir_target(path("f"), None).is_err());
}

#[test]
fn rmdir_needs_a_directory() {
    assert!(rm_dir(path("d"), Some(FsKind::Directory)).is_ok());
    assert_eq!(rm_dir(path("d"), Some(FsKind::File)).unwrap_err(), Rejection::NotFound);
    assert_eq!(rm_dir(path("d"), None).unwrap_err(), Rejection::NotFound);
}

#[test]
fn rm_needs_a_regular_file() {
    assert!(rm_file(path("f"), Some(FsKind::File)).is_ok());
    assert_eq!(rm_file(path("f"), Some(FsKind::Directory)).unwrap_err(), Rejection::NotFound);
    assert_eq!(rm_file(path("f"), Some(FsKind::Other)).unwrap_err(), Rejection::NotFound);
    assert_eq!(rm_file(path("f"), None).unwrap_err(), Rejection::NotFound);
}

#[test]
fn mv_to_existing_destination_is_refused() {
    let r = mv_path(path("a"), Some(FsKind::File), sanitize("/srv", "b"), Some(FsKind::File));
    assert_eq!(r.unwrap_err(), Rejection::NotFound);
}

#[test]
fn mv_to_fresh_destination_is_admitted() {
    let (from, to) = mv_path(path("a"), Some(FsKind::File), sanitize("/srv", "c/d"), None).unwrap();
    assert_eq!(from.path.resolved(), "/srv/a");
    assert_eq!(from.guard, Guard::MustExist);
    assert_eq!(to.path.resolved(), "/srv/c/d");
    assert_eq!(to.guard, Guard::MustNotExist);
    // after the rename, the source no longer passes an existence check and
    // the destination does
    assert!(check(path("a"), Guard::MustExist, None).is_err());
    assert!(check(path("c/d"), Guard::MustExist, Some(FsKind::File)).is_ok());
}

#[test]
fn mv_with_missing_source_or_bad_destination_is_refused() {
    assert!(mv_path(path("a"), None, sanitize("/srv", "b"), None).is_err());
    assert!(mv_path(path("a"), Some(FsKind::File), sanitize("/srv", "../b"), None).is_err());
}

#[test]
fn body_over_ceiling_is_refused_first() {
    let r = up_file(path("up"), None, Some(101), 100, vec![]);
    assert_eq!(r.unwrap_err(), Rejection::PayloadTooLarge);
    let r = up_file(path("up"), Some(FsKind::Directory), Some(101), 100, vec![]);
    assert_eq!(r.unwrap_err(), Rejection::PayloadTooLarge);
}

#[test]
fn body_without_length_is_refused() {
    let r = up_file(path("up"), Some(FsKind::Directory), None, 100, vec![]);
    assert_eq!(r.unwrap_err(), Rejection::LengthRequired);
}

#[test]
fn body_at_ceiling_is_admitted() {
    assert_eq!(admit_body(Some(100), 100), Ok(()));
    assert_eq!(admit_body(Some(0), 0), Ok(()));
    assert_eq!(admit_body(Some(53687091201), 53687091200), Err(Rejection::PayloadTooLarge));
}

#[test]
fn upload_needs_a_directory() {
    let r = up_file(path("up"), Some(FsKind::File), Some(10), 100, vec![]);
    assert_eq!(r.unwrap_err(), Rejection::NotFound);
}

#[test]
fn two_parts_with_one_name_get_two_files() {
    let mut s = up_file(path("up"), Some(FsKind::Directory), Some(10), 100, vec![]).unwrap();
    let a = s.start_part(Some("a.txt".to_string())).unwrap();
    let b = s.start_part(Some("a.txt".to_string())).unwrap();
    assert_eq!(a, "a.txt");
    assert_eq!(b, "a_1.txt");
    assert_eq!(s.target(&a), "/srv/up/a.txt");
    assert_eq!(s.target(&b), "/srv/up/a_1.txt");
}

#[test]
fn upload_avoids_existing_names() {
    let existing = vec!["photo.jpg".to_string()];
    let mut s = up_file(path(""), Some(FsKind::Directory), Some(10), 100, existing).unwrap();
    assert_eq!(s.start_part(Some("photo.jpg".to_string())).unwrap(), "photo_1.jpg");
    assert_eq!(s.start_part(Some("photo.jpg".to_string())).unwrap(), "photo_2.jpg");
}

#[test]
fn part_without_filename_fails_the_upload() {
    let mut s = up_file(path("up"), Some(FsKind::Directory), Some(10), 100, vec![]).unwrap();
    assert_eq!(s.start_part(None).unwrap_err(), Rejection::NotFound);
    assert!(s.taken.is_empty());
}

#[test]
fn part_with_unsafe_filename_fails_the_upload() {
    let mut s = up_file(path("up"), Some(FsKind::Directory), Some(10), 100, vec![]).unwrap();
    for bad in ["", ".", "..", "../x", "a/b", "a\\b", "..hidden"] {
        assert_eq!(s.start_part(Some(bad.to_string())).unwrap_err(), Rejection::NotFound);
    }
    assert!(upload_name_allowed("ok.txt"));
    assert!(upload_name_allowed(".env"));
}

#[test]
fn fs_failures_are_not_found() {
    assert_eq!(fs_outcome(true), Ok(()));
    assert_eq!(fs_outcome(false), Err(Rejection::NotFound));
}

#[test]
fn one_wraps_a_value() {
    assert_eq!(warp_fs::one(7u8), (7u8,));
}
