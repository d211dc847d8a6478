//! What the two frontends, NFS and FUSE, share: what an error is to a client, and what is told of a node.

use vstd::prelude::*;

use crate::error::VfsError;
use crate::text::starts_with;
use crate::tree::{AttrView, NodeAttr};

verus! {

/// What an outcome is to a client, in the terms of no protocol.
#[derive(Debug, Clone, Copy, PartialEq, Eq, Structural)]
pub enum FrontendErrno {
    /// No such file or directory.
    NotFound,
    /// The draft that a handle was opened on was uploaded while the handle stayed open.
    Stale,
    /// The name is taken.
    Exist,
    /// The entry is in use.
    Busy,
    /// The directory is not empty.
    NotEmpty,
    /// The name is a directory's.
    IsDir,
    /// Everything else.
    Io,
}

/// What a message says to a client: that a name is taken, or nothing in particular.
pub open spec fn message_errno(message: Seq<char>) -> FrontendErrno {
    if "EEXIST"@.is_prefix_of(message) {
        FrontendErrno::Exist
    } else {
        FrontendErrno::Io
    }
}

/// What an error is to a client.
pub open spec fn error_errno(e: VfsError) -> FrontendErrno {
    match e {
        VfsError::StaleHandle(_) => FrontendErrno::Stale,
        VfsError::RenameBusy(_) => FrontendErrno::Busy,
        VfsError::UnlinkBusy(_) => FrontendErrno::Busy,
        VfsError::DirNotEmpty(_) => FrontendErrno::NotEmpty,
        VfsError::RenameOntoDirectory(_) => FrontendErrno::IsDir,
        VfsError::Other(m) => message_errno(m@),
    }
}

/// What an error is to a client. Never [`FrontendErrno::NotFound`]: that a name or a node is not there is
/// no error here.
pub fn classify_error(err: &VfsError) -> (r: FrontendErrno)
    ensures
        r == error_errno(*err),
        r != FrontendErrno::NotFound,
{
    match err {
        VfsError::StaleHandle(_) => FrontendErrno::Stale,
        VfsError::RenameBusy(_) => FrontendErrno::Busy,
        VfsError::UnlinkBusy(_) => FrontendErrno::Busy,
        VfsError::DirNotEmpty(_) => FrontendErrno::NotEmpty,
        VfsError::RenameOntoDirectory(_) => FrontendErrno::IsDir,
        VfsError::Other(m) => if starts_with(m.as_str(), "EEXIST") {
            FrontendErrno::Exist
        } else {
            FrontendErrno::Io
        },
    }
}

/// A name that cannot be created because it is taken is told to a client as such.
pub proof fn a_taken_name_is_told_as_taken(name: Seq<char>)
    ensures
        message_errno(crate::vfs::namespace::exists_message(name)) == FrontendErrno::Exist,
{
    reveal_strlit("EEXIST");
    reveal_strlit("EEXIST: an entry named ");
    let m = crate::vfs::namespace::exists_message(name);
    assert("EEXIST"@ =~= m.subrange(0, 6));
}

/// Permission bits of a node: directories can be searched.
pub fn to_unix_mode(is_dir: bool) -> (r: u32)
    ensures
        r == unix_mode(is_dir),
{
    if is_dir {
        0o755
    } else {
        0o644
    }
}

/// What is told of a node, in the terms of no protocol. Every node belongs to whoever runs the mount, and
/// has one time.
#[derive(Debug, Clone, Copy)]
pub struct FrontendAttr {
    pub fileid: u64,
    pub is_dir: bool,
    pub size: u64,
    pub mode: u32,
    pub uid: u32,
    pub gid: u32,
    pub nlink: u32,
    pub mtime_secs: i64,
    pub atime_secs: i64,
    pub ctime_secs: i64,
}

/// What is told of a node by the number `fileid` to clients of the user `uid` and group `gid`.
pub fn to_frontend_attr(fileid: u64, attr: &NodeAttr, uid: u32, gid: u32) -> (r: FrontendAttr)
    ensures
        r == frontend_attr(fileid, attr@, uid, gid),
{
    FrontendAttr {
        fileid,
        is_dir: attr.is_dir,
        size: attr.size,
        mode: to_unix_mode(attr.is_dir),
        uid,
        gid,
        nlink: 1,
        mtime_secs: attr.mtime_secs,
        atime_secs: attr.mtime_secs,
        ctime_secs: attr.mtime_secs,
    }
}

/// The permissions that an entry is shown with.
pub open spec fn unix_mode(is_dir: bool) -> u32 {
    if is_dir {
        0o755u32
    } else {
        0o644
    }
}

/// What a frontend is told of an entry.
pub open spec fn frontend_attr(fileid: u64, attr: AttrView, uid: u32, gid: u32) -> FrontendAttr {
    FrontendAttr {
        fileid,
        is_dir: attr.is_dir,
        size: attr.size,
        mode: unix_mode(attr.is_dir),
        uid,
        gid,
        nlink: 1,
        mtime_secs: attr.mtime_secs,
        atime_secs: attr.mtime_secs,
        ctime_secs: attr.mtime_secs,
    }
}

} // verus!
