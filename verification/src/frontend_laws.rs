//! What holds of what the frontends are told.

use vstd::prelude::*;

use crate::error::VfsError;
use crate::frontend_util::{FrontendAttr, FrontendErrno};
use crate::fuse::{FuseAttr, Resize};
use crate::nfs::{DirEntry, NfsAttr, NfsStatus};
use crate::tree::AttrView;

verus! {

// ---------------------------------------------------------------------------
// Errors.
// ---------------------------------------------------------------------------

/// Each reason for a refusal is told as what it is; any other failure is told as a taken name where its
/// message says so, and as a failure of input or output otherwise.
pub proof fn a_refusal_is_told_as_what_it_is(e: VfsError)
    ensures
        ({
            let told = crate::frontend_util::error_errno(e);
            &&& e is StaleHandle <==> told == FrontendErrno::Stale
            &&& e is RenameBusy || e is UnlinkBusy <==> told == FrontendErrno::Busy
            &&& e is DirNotEmpty <==> told == FrontendErrno::NotEmpty
            &&& e is RenameOntoDirectory <==> told == FrontendErrno::IsDir
            &&& e matches VfsError::Other(m) ==> (told == FrontendErrno::Exist
                <==> "EEXIST"@.is_prefix_of(m@)) && (told == FrontendErrno::Io
                <==> !"EEXIST"@.is_prefix_of(m@))
            &&& told != FrontendErrno::NotFound
        }),
{
}

/// A failure says the message that it was made with, and so does one of a draft that is not there, with the
/// path that was asked for. A refusal names the path that it is about.
pub proof fn a_failure_says_what_happened(e: VfsError, message: Seq<char>, path: Seq<char>)
    ensures
        crate::vfs::says(e, message) <==> e is Other && e.text() == message,
        crate::drafts::says_no_draft(e, path) <==> e is Other && e.text() == "no draft open for "@ + path,
        e matches VfsError::StaleHandle(x) ==> crate::scan::holds(e.text(), x.remote_path@),
        e matches VfsError::RenameBusy(x) ==> crate::scan::holds(e.text(), x.remote_path@),
        e matches VfsError::UnlinkBusy(x) ==> crate::scan::holds(e.text(), x.remote_path@),
        e matches VfsError::DirNotEmpty(x) ==> crate::scan::holds(e.text(), x.remote_path@),
        e matches VfsError::RenameOntoDirectory(x) ==> crate::scan::holds(e.text(), x.remote_path@),
{
    match e {
        VfsError::StaleHandle(x) => {
            lemma_names(
                "stale file handle for "@,
                x.remote_path@,
                ": its draft was uploaded and removed while the handle stayed open — reopen the file"@,
            );
        },
        VfsError::RenameBusy(x) => {
            lemma_names(
                "cannot rename "@,
                x.remote_path@,
                ": a handle is still open on it — close it first"@,
            );
        },
        VfsError::UnlinkBusy(x) => {
            lemma_names(
                "cannot delete "@,
                x.remote_path@,
                ": a handle is still open on it — close it first"@,
            );
        },
        VfsError::DirNotEmpty(x) => {
            lemma_names("cannot remove "@, x.remote_path@, ": the directory is not empty"@);
        },
        VfsError::RenameOntoDirectory(x) => {
            lemma_names("cannot rename onto "@, x.remote_path@, ": it is a directory"@);
        },
        VfsError::Other(_) => {},
    }
}

proof fn lemma_names(before: Seq<char>, path: Seq<char>, after: Seq<char>)
    ensures
        crate::scan::holds(before + path + after, path),
{
    crate::scan_laws::a_text_holds_what_it_is_made_of(before, before, path, after);
}

/// The kernel and a client are told the same: what either frontend tells of an error tells it apart from
/// every other.
pub proof fn both_frontends_tell_errors_apart(a: FrontendErrno, b: FrontendErrno)
    ensures
        crate::fuse::errno_of(a) == crate::fuse::errno_of(b) <==> a == b,
        crate::nfs::status_of(a) == crate::nfs::status_of(b) <==> a == b,
        crate::fuse::errno_of(a) > 0,
{
}

/// The numbers that the kernel and a client are told are those that they know the errors by.
pub proof fn errors_have_the_numbers_that_are_known(a: FrontendErrno)
    ensures
        ({
            let errno = crate::fuse::errno_of(a);
            let status = crate::nfs::status_code(crate::nfs::status_of(a));
            &&& a == FrontendErrno::NotFound <==> errno == 2
            &&& a == FrontendErrno::NotFound <==> status == 2
            &&& a == FrontendErrno::Io <==> errno == 5
            &&& a == FrontendErrno::Io <==> status == 5
            &&& a == FrontendErrno::Busy <==> errno == 16
            &&& a == FrontendErrno::Busy <==> status == 10008
            &&& a == FrontendErrno::Exist <==> errno == 17
            &&& a == FrontendErrno::Exist <==> status == 17
            &&& a == FrontendErrno::IsDir <==> errno == 21
            &&& a == FrontendErrno::IsDir <==> status == 21
            &&& a == FrontendErrno::NotEmpty <==> errno == 39
            &&& a == FrontendErrno::NotEmpty <==> status == 66
            &&& a == FrontendErrno::Stale <==> errno == 116
            &&& a == FrontendErrno::Stale <==> status == 70
        }),
{
}

/// A status tells itself apart from every other by its number.
pub proof fn statuses_have_different_numbers(a: NfsStatus, b: NfsStatus)
    ensures
        crate::nfs::status_code(a) == crate::nfs::status_code(b) <==> a == b,
{
}

// ---------------------------------------------------------------------------
// Attributes.
// ---------------------------------------------------------------------------

/// A frontend is told the size and the time that are shown of an entry, under its own number and owner;
/// everyone may read it and its owner may write it, and only directories may be entered.
pub proof fn a_frontend_is_told_what_is_shown(fileid: u64, a: AttrView, uid: u32, gid: u32)
    ensures
        ({
            let r = crate::frontend_util::frontend_attr(fileid, a, uid, gid);
            &&& r.fileid == fileid
            &&& r.uid == uid
            &&& r.gid == gid
            &&& r.size == a.size
            &&& r.is_dir == a.is_dir
            &&& r.mtime_secs == a.mtime_secs
            &&& r.atime_secs == a.mtime_secs
            &&& r.ctime_secs == a.mtime_secs
            &&& r.nlink == 1
            &&& r.mode / 64 == (if a.is_dir {
                7u32
            } else {
                6
            })
            &&& r.mode / 8 % 8 == (if a.is_dir {
                5u32
            } else {
                4
            })
            &&& r.mode % 8 == r.mode / 8 % 8
        }),
{
}

/// The kernel is told as many blocks as hold the bytes, and no block more; a time before the first second
/// is told as the first.
pub proof fn blocks_hold_the_bytes(r: FuseAttr, a: FrontendAttr)
    requires
        crate::fuse::is_file_attr(r, a),
    ensures
        r.blocks * 512 >= a.size,
        a.size > 0 ==> (r.blocks - 1) * 512 < a.size,
        a.size == 0 ==> r.blocks == 0,
        r.size == a.size,
        r.ino == a.fileid,
        r.is_dir == a.is_dir,
        a.mtime_secs >= 0 ==> r.time == a.mtime_secs,
        a.mtime_secs < 0 ==> r.time == 0,
        a.mode < 0x1_0000 ==> r.perm == a.mode,
        r.uid == a.uid,
        r.gid == a.gid,
        r.nlink == a.nlink,
        r.blksize == 512,
{
}

/// A client is told the same; of a time that it cannot be told, the nearest that it can.
pub proof fn a_client_is_told_what_is_shown(r: NfsAttr, a: FrontendAttr)
    requires
        crate::nfs::is_fattr3(r, a),
    ensures
        r.size == a.size,
        r.used == a.size,
        r.fileid == a.fileid,
        r.is_dir == a.is_dir,
        r.mode == a.mode,
        r.uid == a.uid,
        r.gid == a.gid,
        r.nlink == a.nlink,
        0 <= a.mtime_secs <= u32::MAX ==> r.mtime == a.mtime_secs,
        0 <= a.atime_secs <= u32::MAX ==> r.atime == a.atime_secs,
        0 <= a.ctime_secs <= u32::MAX ==> r.ctime == a.ctime_secs,
{
}

/// Times that a client is told keep their order, and none is told otherwise than it is where it can be
/// told.
pub proof fn told_times_keep_their_order(t: u32, secs: i64, u: u32, later: i64)
    requires
        crate::nfs::is_time(t, secs),
        crate::nfs::is_time(u, later),
        secs <= later,
    ensures
        t <= u,
        secs < 0 ==> t == 0,
        secs > u32::MAX ==> t == u32::MAX,
        0 <= secs <= u32::MAX ==> t == secs,
        crate::fuse::not_negative(secs) <= crate::fuse::not_negative(later),
        secs >= 0 ==> crate::fuse::not_negative(secs) == secs,
        secs < 0 ==> crate::fuse::not_negative(secs) == 0,
{
}

// ---------------------------------------------------------------------------
// Requests.
// ---------------------------------------------------------------------------

/// A read reached the end of a file if and only if no byte of the file follows it.
pub proof fn the_end_is_where_no_byte_follows(offset: u64, len: u64, size: u64)
    ensures
        crate::nfs::is_at_end(offset, len, size) <==> !(exists|i: int|
            offset + len <= i < size && #[trigger] byte_at(i)),
{
    if offset + len < size {
        assert(byte_at(offset + len));
    }
}

/// Any place of a byte.
pub open spec fn byte_at(i: int) -> bool {
    0 <= i
}

/// A directory is read entry by entry: what comes next is the entry at the place, and nothing comes if and
/// only if the place is the end. The cookie of an entry leads to the place behind it, and so does the offset
/// of that number; the cookie 0 leads to the start, and one past the end leads nowhere.
pub proof fn a_cookie_leads_behind_its_entry(
    rows: Seq<(u64, AttrView)>,
    at: int,
    r: Option<DirEntry>,
    after: int,
    cookie: u64,
)
    requires
        0 <= at <= rows.len() <= i64::MAX,
        crate::nfs::is_next(rows, at, r, after),
    ensures
        r is None <==> at == rows.len(),
        r is None ==> after == at,
        r matches Some(e) ==> {
            &&& rows[at] == (e.id.0, e.attr@)
            &&& after == at + 1
            &&& crate::nfs::resumed_at(e.cookie, rows.len()) == Some(after)
            &&& crate::nfs::skipped_to(e.cookie as i64, rows.len()) == after
        },
        crate::nfs::resumed_at(0, rows.len()) == Some(0int),
        crate::nfs::resumed_at(cookie, rows.len()) is None <==> cookie > rows.len(),
        0 <= crate::nfs::skipped_to(cookie as i64, rows.len()) <= rows.len(),
{
}

/// A file is resized if and only if a size is given, to that size, and through the handle that is given.
pub proof fn a_file_is_resized_only_to_a_given_size(size: Option<u64>, fh: Option<u64>)
    ensures
        ({
            let r = crate::fuse::setattr_plan(size, fh);
            &&& r is Nothing <==> size is None
            &&& r matches Resize::ByHandle(h, n) ==> size == Some(n) && fh == Some(h.0)
            &&& r matches Resize::ByNode(n) ==> size == Some(n) && fh is None
        }),
{
}

} // verus!
