use cloudreve_vfs::error::{
    DirNotEmptyError, RenameBusyError, RenameOntoDirectoryError, StaleHandleError, UnlinkBusyError,
    VfsError,
};
use cloudreve_vfs::frontend_util::{
    classify_error, to_frontend_attr, to_unix_mode, FrontendAttr, FrontendErrno,
};
use cloudreve_vfs::fuse::{
    clamp_offset, errno_for, plan_setattr, to_errno as to_fuse_errno, to_file_attr, to_system_time,
    Resize, ATTR_TTL_MILLIS, EINVAL,
};
use cloudreve_vfs::nfs::{
    name_str, reaches_end, to_errno, to_fattr3, to_nfsstat3, to_nfstime3, DirCursor, NfsStatus,
};
use cloudreve_vfs::tree::{NodeAttr, NodeId, LISTING_TTL_MILLIS};
use cloudreve_vfs::vfs::FileHandle;
use nfs3_server::nfs3_types::nfs3::nfsstat3;

fn other(message: &str) -> VfsError {
    VfsError::Other(message.to_string())
}

fn attr(name: &str) -> NodeAttr {
    NodeAttr {
        name: name.into(),
        remote_path: format!("cloudreve://x/{name}"),
        size: 42,
        mtime_secs: 1_700_000_000,
        is_dir: false,
        etag: "e1".into(),
    }
}

#[test]
fn stale_handle_error_classifies_as_stale() {
    let err = VfsError::StaleHandle(StaleHandleError { remote_path: "x".into() });
    assert_eq!(classify_error(&err), FrontendErrno::Stale);
}

#[test]
fn rename_busy_error_classifies_as_busy() {
    let err = VfsError::RenameBusy(RenameBusyError { remote_path: "x".into() });
    assert_eq!(classify_error(&err), FrontendErrno::Busy);
}

#[test]
fn unlink_busy_error_classifies_as_busy() {
    let err = VfsError::UnlinkBusy(UnlinkBusyError { remote_path: "x".into() });
    assert_eq!(classify_error(&err), FrontendErrno::Busy);
}

#[test]
fn dir_not_empty_error_classifies_as_not_empty() {
    let err = VfsError::DirNotEmpty(DirNotEmptyError { remote_path: "x".into() });
    assert_eq!(classify_error(&err), FrontendErrno::NotEmpty);
}

#[test]
fn rename_onto_directory_error_classifies_as_is_dir() {
    let err = VfsError::RenameOntoDirectory(RenameOntoDirectoryError { remote_path: "x".into() });
    assert_eq!(classify_error(&err), FrontendErrno::IsDir);
    assert_eq!(to_errno(&err), NfsStatus::Isdir);
    assert_eq!(errno_for(&err), libc::EISDIR);
}

#[test]
fn the_create_eexist_marker_classifies_as_exist() {
    let err = other("EEXIST: an entry named \"dup.txt\" already exists in this directory");
    assert_eq!(classify_error(&err), FrontendErrno::Exist);
}

#[test]
fn an_unrecognized_error_classifies_as_io() {
    let err = other("some transient network failure");
    assert_eq!(classify_error(&err), FrontendErrno::Io);
}

#[test]
fn directories_and_files_get_distinct_modes() {
    assert_eq!(to_unix_mode(true), 0o755);
    assert_eq!(to_unix_mode(false), 0o644);
}

#[test]
fn frontend_attr_overlays_the_node_attr_fields() {
    let attr = NodeAttr {
        name: "a.txt".into(),
        remote_path: "cloudreve://x/a.txt".into(),
        size: 42,
        mtime_secs: 1_700_000_000,
        is_dir: false,
        etag: "e1".into(),
    };
    let fa = to_frontend_attr(7, &attr, 501, 20);
    assert_eq!(fa.fileid, 7);
    assert_eq!(fa.size, 42);
    assert_eq!(fa.mode, 0o644);
    assert_eq!(fa.mtime_secs, 1_700_000_000);
    assert_eq!(fa.atime_secs, fa.mtime_secs);
    assert_eq!(fa.ctime_secs, fa.mtime_secs);
    assert_eq!(fa.nlink, 1);
    assert_eq!((fa.uid, fa.gid), (501, 20));
}

#[test]
fn not_found_maps_to_noent() {
    assert_eq!(to_nfsstat3(FrontendErrno::NotFound), NfsStatus::Noent);
    assert_eq!(NfsStatus::Noent.code(), nfsstat3::NFS3ERR_NOENT as u32);
}

#[test]
fn stale_handle_error_maps_to_stale() {
    let err = VfsError::StaleHandle(StaleHandleError { remote_path: "x".into() });
    assert_eq!(to_errno(&err).code(), nfsstat3::NFS3ERR_STALE as u32);
}

#[test]
fn rename_busy_error_maps_to_jukebox() {
    let err = VfsError::RenameBusy(RenameBusyError { remote_path: "x".into() });
    assert_eq!(to_errno(&err).code(), nfsstat3::NFS3ERR_JUKEBOX as u32);
}

#[test]
fn unlink_busy_error_maps_to_jukebox() {
    let err = VfsError::UnlinkBusy(UnlinkBusyError { remote_path: "x".into() });
    assert_eq!(to_errno(&err).code(), nfsstat3::NFS3ERR_JUKEBOX as u32);
}

#[test]
fn dir_not_empty_error_maps_to_notempty() {
    let err = VfsError::DirNotEmpty(DirNotEmptyError { remote_path: "x".into() });
    assert_eq!(to_errno(&err).code(), nfsstat3::NFS3ERR_NOTEMPTY as u32);
}

#[test]
fn eexist_marker_maps_to_exist() {
    let err = other("EEXIST: an entry named \"dup.txt\" already exists");
    assert_eq!(to_errno(&err).code(), nfsstat3::NFS3ERR_EXIST as u32);
}

#[test]
fn an_unrecognized_error_maps_to_io() {
    let err = other("some transient failure");
    assert_eq!(to_errno(&err).code(), nfsstat3::NFS3ERR_IO as u32);
}

#[test]
fn negative_mtime_clamps_to_zero() {
    assert_eq!(to_nfstime3(-5), 0);
    assert_eq!(to_nfstime3(1_700_000_000), 1_700_000_000);
    assert_eq!(to_nfstime3(i64::MAX), u32::MAX);
    assert_eq!(to_system_time(-5), 0);
    assert_eq!(to_system_time(5), 5);
}

#[test]
fn status_codes_are_those_of_the_protocol() {
    assert_eq!(NfsStatus::Isdir.code(), nfsstat3::NFS3ERR_ISDIR as u32);
    assert_eq!(NfsStatus::Inval.code(), nfsstat3::NFS3ERR_INVAL as u32);
    assert_eq!(NfsStatus::BadCookie.code(), nfsstat3::NFS3ERR_BAD_COOKIE as u32);
    assert_eq!(NfsStatus::NotSupp.code(), nfsstat3::NFS3ERR_NOTSUPP as u32);
}

#[test]
fn error_numbers_are_those_of_the_system() {
    assert_eq!(to_fuse_errno(FrontendErrno::NotFound), libc::ENOENT);
    assert_eq!(to_fuse_errno(FrontendErrno::Stale), libc::ESTALE);
    assert_eq!(to_fuse_errno(FrontendErrno::Exist), libc::EEXIST);
    assert_eq!(to_fuse_errno(FrontendErrno::Busy), libc::EBUSY);
    assert_eq!(to_fuse_errno(FrontendErrno::NotEmpty), libc::ENOTEMPTY);
    assert_eq!(to_fuse_errno(FrontendErrno::Io), libc::EIO);
    assert_eq!(EINVAL, libc::EINVAL);
}

#[test]
fn attributes_keep_their_fields_in_both_protocols() {
    let fa: FrontendAttr = to_frontend_attr(9, &attr("a.txt"), 1, 2);
    let n = to_fattr3(&fa);
    assert_eq!((n.fileid, n.size, n.used, n.mode, n.mtime), (9, 42, 42, 0o644, 1_700_000_000));
    assert!(!n.is_dir);
    let f = to_file_attr(&fa);
    assert_eq!((f.ino, f.size, f.blocks, f.perm, f.blksize), (9, 42, 1, 0o644, 512));
    assert_eq!(f.time, 1_700_000_000);
    assert_eq!(ATTR_TTL_MILLIS, LISTING_TTL_MILLIS);
}

#[test]
fn blocks_are_counted_up() {
    let mut a = to_frontend_attr(1, &attr("a"), 0, 0);
    a.size = 0;
    assert_eq!(to_file_attr(&a).blocks, 0);
    a.size = 512;
    assert_eq!(to_file_attr(&a).blocks, 1);
    a.size = 513;
    assert_eq!(to_file_attr(&a).blocks, 2);
    a.size = u64::MAX;
    assert_eq!(to_file_attr(&a).blocks, 36_028_797_018_963_968);
}

#[test]
fn offsets_below_zero_are_the_start() {
    assert_eq!(clamp_offset(-1), 0);
    assert_eq!(clamp_offset(7), 7);
}

#[test]
fn only_a_size_is_changed() {
    assert_eq!(plan_setattr(None, Some(3)), Resize::Nothing);
    assert_eq!(plan_setattr(Some(0), Some(3)), Resize::ByHandle(FileHandle(3), 0));
    assert_eq!(plan_setattr(Some(5), None), Resize::ByNode(5));
}

#[test]
fn names_are_text_or_refused() {
    assert_eq!(name_str("héllo.txt".as_bytes()).unwrap(), "héllo.txt");
    assert_eq!(name_str(&[0xff, 0x41]), Err(NfsStatus::Inval));
    assert_eq!(name_str(&[0xc0, 0x80]), Err(NfsStatus::Inval));
}

#[test]
fn a_read_that_reaches_the_end_says_so() {
    assert!(reaches_end(0, 10, 10));
    assert!(!reaches_end(0, 9, 10));
    assert!(reaches_end(u64::MAX, 5, 10));
}

fn listing(n: u64) -> Vec<(NodeId, NodeAttr)> {
    (0..n).map(|i| (NodeId(i + 2), attr(&format!("f{i}")))).collect()
}

#[test]
fn a_paged_listing_has_no_duplicates_or_gaps() {
    let mut cookie = 0;
    let mut seen = Vec::new();
    loop {
        let mut cursor = DirCursor::resume(listing(300), cookie).unwrap();
        let mut page = 0;
        let mut end = false;
        while page < 37 {
            match cursor.next() {
                Some(e) => {
                    seen.push(e.attr.name.clone());
                    cookie = e.cookie;
                    page += 1;
                }
                None => {
                    end = true;
                    page = 37;
                }
            }
        }
        if end {
            let names: Vec<String> = (0..300).map(|i| format!("f{i}")).collect();
            assert_eq!(seen, names);
            return;
        }
    }
}

#[test]
fn a_cookie_past_the_end_is_refused() {
    assert!(matches!(DirCursor::resume(listing(3), 4), Err(NfsStatus::BadCookie)));
    assert!(DirCursor::resume(listing(3), 3).unwrap().next().is_none());
    assert!(DirCursor::skip(listing(3), 9).next().is_none());
    assert_eq!(DirCursor::skip(listing(3), -4).next().unwrap().id, NodeId(2));
    assert_eq!(DirCursor::skip(listing(3), 1).next().unwrap().cookie, 2);
}
