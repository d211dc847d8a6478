//! The FUSE frontend: error numbers and attributes.
//!
//! Files stay open between requests: the number that the kernel hands back for an open file is the handle,
//! and the number of a node is its inode.

use vstd::prelude::*;

use crate::error::VfsError;
use crate::frontend_util::{classify_error, FrontendAttr, FrontendErrno};
use crate::vfs::FileHandle;

verus! {

/// How long the kernel may keep attributes, in milliseconds: as long as a listing is trusted.
pub const ATTR_TTL_MILLIS: u64 = 5_000;

/// No such file or directory.
pub const ENOENT: i32 = 2;

/// Input or output failed.
pub const EIO: i32 = 5;

/// In use.
pub const EBUSY: i32 = 16;

/// The name is taken.
pub const EEXIST: i32 = 17;

/// Is a directory.
pub const EISDIR: i32 = 21;

/// A name that is no text.
pub const EINVAL: i32 = 22;

/// The directory is not empty.
pub const ENOTEMPTY: i32 = 39;

/// The handle is stale.
pub const ESTALE: i32 = 116;

/// The error number of an outcome.
pub open spec fn errno_of(errno: FrontendErrno) -> i32 {
    match errno {
        FrontendErrno::NotFound => ENOENT,
        FrontendErrno::Stale => ESTALE,
        FrontendErrno::Exist => EEXIST,
        FrontendErrno::Busy => EBUSY,
        FrontendErrno::NotEmpty => ENOTEMPTY,
        FrontendErrno::IsDir => EISDIR,
        FrontendErrno::Io => EIO,
    }
}

/// The error number of an outcome.
pub fn to_errno(errno: FrontendErrno) -> (r: i32)
    ensures
        r == errno_of(errno),
{
    match errno {
        FrontendErrno::NotFound => ENOENT,
        FrontendErrno::Stale => ESTALE,
        FrontendErrno::Exist => EEXIST,
        FrontendErrno::Busy => EBUSY,
        FrontendErrno::NotEmpty => ENOTEMPTY,
        FrontendErrno::IsDir => EISDIR,
        FrontendErrno::Io => EIO,
    }
}

/// The error number of an error.
pub fn errno_for(err: &VfsError) -> (r: i32)
    ensures
        r == errno_of(crate::frontend_util::error_errno(*err)),
{
    to_errno(classify_error(err))
}

/// Seconds since 1970, from there on.
pub fn to_system_time(secs: i64) -> (r: u64)
    ensures
        r == not_negative(secs),
{
    if secs < 0 {
        0
    } else {
        secs as u64
    }
}

/// An offset as the kernel sends it, from zero on.
pub fn clamp_offset(offset: i64) -> (r: u64)
    ensures
        r == not_negative(offset),
{
    if offset < 0 {
        0
    } else {
        offset as u64
    }
}

/// What the kernel is told of a node. There is one time, in seconds since 1970.
#[derive(Debug, Clone, Copy, PartialEq, Eq, Structural)]
pub struct FuseAttr {
    pub ino: u64,
    pub size: u64,
    /// Size in blocks of 512 bytes, the last of them counted whole.
    pub blocks: u64,
    pub time: u64,
    pub is_dir: bool,
    pub perm: u16,
    pub nlink: u32,
    pub uid: u32,
    pub gid: u32,
    pub blksize: u32,
}

/// What the kernel is told of a node.
pub fn to_file_attr(attr: &FrontendAttr) -> (r: FuseAttr)
    ensures
        is_file_attr(r, *attr),
{
    let mode: u32 = attr.mode;
    let perm: u16 = #[verifier::truncate]
    (mode as u16);
    assert(mode as u16 == mode % 0x1_0000) by (bit_vector);
    let whole: u64 = attr.size / 512;
    let rest: u64 = attr.size % 512;
    FuseAttr {
        ino: attr.fileid,
        size: attr.size,
        blocks: if rest > 0 {
            whole + 1
        } else {
            whole
        },
        time: to_system_time(attr.mtime_secs),
        is_dir: attr.is_dir,
        perm,
        nlink: attr.nlink,
        uid: attr.uid,
        gid: attr.gid,
        blksize: 512,
    }
}

/// What a request to change attributes is to change. Only the size can be: modes, owners and times are
/// accepted and left as they are.
#[derive(Debug, Clone, Copy, PartialEq, Eq, Structural)]
pub enum Resize {
    Nothing,
    /// Resize by the handle that the request came with.
    ByHandle(FileHandle, u64),
    /// Open the node, resize, close.
    ByNode(u64),
}

/// What a request to change attributes is to change.
pub fn plan_setattr(size: Option<u64>, fh: Option<u64>) -> (r: Resize)
    ensures
        r == setattr_plan(size, fh),
{
    match (size, fh) {
        (None, _) => Resize::Nothing,
        (Some(n), Some(h)) => Resize::ByHandle(FileHandle(h), n),
        (Some(n), None) => Resize::ByNode(n),
    }
}

/// A number, or zero in place of one below.
pub open spec fn not_negative(n: i64) -> int {
    if n < 0 {
        0
    } else {
        n as int
    }
}

/// Whether `r` is what the kernel is told of an entry.
pub open spec fn is_file_attr(r: FuseAttr, attr: FrontendAttr) -> bool {
    &&& r.ino == attr.fileid
    &&& r.size == attr.size
    &&& r.blocks == (attr.size + 511) / 512
    &&& r.time == not_negative(attr.mtime_secs)
    &&& r.is_dir == attr.is_dir
    &&& r.perm == attr.mode % 0x1_0000
    &&& r.nlink == attr.nlink
    &&& r.uid == attr.uid
    &&& r.gid == attr.gid
    &&& r.blksize == 512
}

/// What a change of attributes asks for: a new size, if anything, through a handle where one is given.
pub open spec fn setattr_plan(size: Option<u64>, fh: Option<u64>) -> Resize {
    match (size, fh) {
        (None, _) => Resize::Nothing,
        (Some(n), Some(h)) => Resize::ByHandle(FileHandle(h), n),
        (Some(n), None) => Resize::ByNode(n),
    }
}

} // verus!
