//! The NFS frontend: status codes, attributes, and directories that are read in pages.
//!
//! The protocol knows no open files: each request opens what it needs, and closes it before it answers.

use vstd::prelude::*;

use crate::error::VfsError;
use crate::frontend_util::{classify_error, FrontendAttr, FrontendErrno};
use crate::tree::{AttrView, NodeAttr, NodeId};

verus! {

/// The status codes of version 3 of the protocol that are answered.
#[derive(Debug, Clone, Copy, PartialEq, Eq, Structural)]
pub enum NfsStatus {
    Noent,
    Io,
    Exist,
    Isdir,
    Inval,
    NotEmpty,
    Stale,
    BadCookie,
    NotSupp,
    Jukebox,
}

/// Number of a status code.
pub open spec fn status_code(s: NfsStatus) -> u32 {
    match s {
        NfsStatus::Noent => 2,
        NfsStatus::Io => 5,
        NfsStatus::Exist => 17,
        NfsStatus::Isdir => 21,
        NfsStatus::Inval => 22,
        NfsStatus::NotEmpty => 66,
        NfsStatus::Stale => 70,
        NfsStatus::BadCookie => 10003,
        NfsStatus::NotSupp => 10004,
        NfsStatus::Jukebox => 10008,
    }
}

impl NfsStatus {
    /// Number of the status code.
    pub fn code(&self) -> (r: u32)
        ensures
            r == status_code(*self),
    {
        match self {
            NfsStatus::Noent => 2,
            NfsStatus::Io => 5,
            NfsStatus::Exist => 17,
            NfsStatus::Isdir => 21,
            NfsStatus::Inval => 22,
            NfsStatus::NotEmpty => 66,
            NfsStatus::Stale => 70,
            NfsStatus::BadCookie => 10003,
            NfsStatus::NotSupp => 10004,
            NfsStatus::Jukebox => 10008,
        }
    }
}

/// The status code of an outcome.
pub open spec fn status_of(errno: FrontendErrno) -> NfsStatus {
    match errno {
        FrontendErrno::NotFound => NfsStatus::Noent,
        FrontendErrno::Stale => NfsStatus::Stale,
        FrontendErrno::Exist => NfsStatus::Exist,
        FrontendErrno::Busy => NfsStatus::Jukebox,
        FrontendErrno::NotEmpty => NfsStatus::NotEmpty,
        FrontendErrno::IsDir => NfsStatus::Isdir,
        FrontendErrno::Io => NfsStatus::Io,
    }
}

/// The status code of an outcome. The protocol has none for an entry in use: a client is told to come
/// back later, which is what helps.
pub fn to_nfsstat3(errno: FrontendErrno) -> (r: NfsStatus)
    ensures
        r == status_of(errno),
{
    match errno {
        FrontendErrno::NotFound => NfsStatus::Noent,
        FrontendErrno::Stale => NfsStatus::Stale,
        FrontendErrno::Exist => NfsStatus::Exist,
        FrontendErrno::Busy => NfsStatus::Jukebox,
        FrontendErrno::NotEmpty => NfsStatus::NotEmpty,
        FrontendErrno::IsDir => NfsStatus::Isdir,
        FrontendErrno::Io => NfsStatus::Io,
    }
}

/// The status code of an error.
pub fn to_errno(err: &VfsError) -> (r: NfsStatus)
    ensures
        r == status_of(crate::frontend_util::error_errno(*err)),
{
    to_nfsstat3(classify_error(err))
}

/// Seconds since 1970 as the protocol has them: the nearest that 32 bits hold.
pub fn to_nfstime3(secs: i64) -> (r: u32)
    ensures
        is_time(r, secs),
{
    if secs < 0 {
        0
    } else if secs > 0xffff_ffff {
        u32::MAX
    } else {
        secs as u32
    }
}

/// What the protocol tells of a node.
#[derive(Debug, Clone, Copy, PartialEq, Eq, Structural)]
pub struct NfsAttr {
    pub is_dir: bool,
    pub mode: u32,
    pub nlink: u32,
    pub uid: u32,
    pub gid: u32,
    pub size: u64,
    pub used: u64,
    pub fileid: u64,
    pub atime: u32,
    pub mtime: u32,
    pub ctime: u32,
}

/// Whether `t` is `secs` in the time of the protocol.
pub open spec fn is_time(t: u32, secs: i64) -> bool {
    t == (if secs < 0 {
        0int
    } else if secs > u32::MAX {
        u32::MAX as int
    } else {
        secs as int
    })
}

/// What the protocol tells of a node.
pub fn to_fattr3(attr: &FrontendAttr) -> (r: NfsAttr)
    ensures
        is_fattr3(r, *attr),
{
    NfsAttr {
        is_dir: attr.is_dir,
        mode: attr.mode,
        nlink: attr.nlink,
        uid: attr.uid,
        gid: attr.gid,
        size: attr.size,
        used: attr.size,
        fileid: attr.fileid,
        atime: to_nfstime3(attr.atime_secs),
        mtime: to_nfstime3(attr.mtime_secs),
        ctime: to_nfstime3(attr.ctime_secs),
    }
}

/// Whether a read of `len` bytes at `offset` reached the end of a file of `size` bytes.
pub fn reaches_end(offset: u64, len: u64, size: u64) -> (r: bool)
    ensures
        r == is_at_end(offset, len, size),
{
    offset.saturating_add(len) >= size
}

/// Calls `std::str::from_utf8`.
///
/// The contract claims what its documentation says: bytes that are valid UTF-8 become the text that they
/// encode, and others are refused.
#[verifier::external_body]
fn decode(bytes: &[u8]) -> (r: Option<String>)
    ensures
        r is Some <==> vstd::utf8::valid_utf8(bytes@),
        r matches Some(s) ==> s@ == vstd::utf8::decode_utf8(bytes@),
{
    match std::str::from_utf8(bytes) {
        Ok(s) => Some(s.to_owned()),
        Err(_) => None,
    }
}

/// A name as it comes over the wire. One that is no UTF-8 could not name anything, and is refused.
pub fn name_str(name: &[u8]) -> (r: Result<String, NfsStatus>)
    ensures
        match r {
            Ok(s) => vstd::utf8::valid_utf8(name@) && s@ == vstd::utf8::decode_utf8(name@),
            Err(e) => !vstd::utf8::valid_utf8(name@) && e == NfsStatus::Inval,
        },
{
    match decode(name) {
        Some(s) => Ok(s),
        None => Err(NfsStatus::Inval),
    }
}

// ---------------------------------------------------------------------------
// Reading directories in pages.
// ---------------------------------------------------------------------------

/// One entry of a directory.
#[derive(Debug)]
pub struct DirEntry {
    pub id: NodeId,
    pub attr: NodeAttr,
    /// Where to go on after this entry.
    pub cookie: u64,
}

/// The entries of a directory, one after the other, from some place on.
#[derive(Debug)]
pub struct DirCursor {
    listing: Vec<(NodeId, NodeAttr)>,
    index: usize,
}

impl DirCursor {
    /// All entries of the directory.
    pub closed spec fn rows(&self) -> Seq<(u64, AttrView)> {
        crate::tree::rows(self.listing@)
    }

    /// How many entries are behind.
    pub closed spec fn at(&self) -> int {
        self.index as int
    }

    /// Whether the place is within the directory.
    pub closed spec fn wf(&self) -> bool {
        self.index <= self.listing@.len()
    }

    /// Goes on after the entry that the cookie came with; the cookie 0 is the start. A cookie past the end
    /// is refused: the directory has become smaller since.
    pub fn resume(listing: Vec<(NodeId, NodeAttr)>, cookie: u64) -> (r: Result<Self, NfsStatus>)
        ensures
            match r {
                Ok(c) => c.wf() && c.rows() == crate::tree::rows(listing@) && Some(c.at())
                    == resumed_at(cookie, listing@.len()),
                Err(e) => resumed_at(cookie, listing@.len()) is None && e == NfsStatus::BadCookie,
            },
    {
        if cookie > listing.len() as u64 {
            return Err(NfsStatus::BadCookie);
        }
        Ok(DirCursor { listing, index: cookie as usize })
    }

    /// Goes on at an offset; one below zero is the start, one past the end the end.
    pub fn skip(listing: Vec<(NodeId, NodeAttr)>, offset: i64) -> (r: Self)
        ensures
            r.wf(),
            r.rows() == crate::tree::rows(listing@),
            r.at() == skipped_to(offset, listing@.len()),
    {
        let n: usize = listing.len();
        let index: usize = if offset < 0 {
            0
        } else if offset as u64 > n as u64 {
            n
        } else {
            offset as usize
        };
        DirCursor { listing, index }
    }

    /// The next entry, with the cookie after it; nothing at the end.
    pub fn next(&mut self) -> (r: Option<DirEntry>)
        requires
            old(self).wf(),
        ensures
            final(self).wf(),
            final(self).rows() == old(self).rows(),
            is_next(old(self).rows(), old(self).at(), r, final(self).at()),
    {
        if self.index >= self.listing.len() {
            return None;
        }
        let i: usize = self.index;
        self.index = i + 1;
        Some(
            DirEntry {
                id: self.listing[i].0,
                attr: self.listing[i].1.clone(),
                cookie: i as u64 + 1,
            },
        )
    }
}

/// The entries that `count` steps from the place `at` yield.
pub open spec fn page(rows: Seq<(u64, AttrView)>, at: int, count: int) -> Seq<(u64, AttrView)> {
    rows.subrange(
        at,
        if at + count < rows.len() {
            at + count
        } else {
            rows.len() as int
        },
    )
}

/// The cookie of the last entry of a page.
pub open spec fn page_end(rows: Seq<(u64, AttrView)>, at: int, count: int) -> int {
    at + page(rows, at, count).len()
}

/// A directory that is read in pages, each from the last cookie of the one before, is read without gaps and
/// without doubles, where it does not change meanwhile: two pages in a row are one page of both their
/// lengths, and the pages from the start to the end are the directory.
pub proof fn pages_have_no_gaps_and_no_doubles(
    rows: Seq<(u64, AttrView)>,
    at: int,
    first: int,
    second: int,
)
    requires
        0 <= at <= rows.len(),
        0 <= first,
        0 <= second,
    ensures
        0 <= page_end(rows, at, first) <= rows.len(),
        page(rows, at, first) + page(rows, page_end(rows, at, first), second) == page(
            rows,
            at,
            first + second,
        ),
        at + first >= rows.len() ==> page_end(rows, at, first) == rows.len(),
        page(rows, 0, rows.len() as int) == rows,
{
    assert(page(rows, at, first) + page(rows, page_end(rows, at, first), second) =~= page(
        rows,
        at,
        first + second,
    ));
    assert(page(rows, 0, rows.len() as int) =~= rows);
}

/// Whether `r` is what a client is told of an entry.
pub open spec fn is_fattr3(r: NfsAttr, attr: FrontendAttr) -> bool {
    &&& r.is_dir == attr.is_dir
    &&& r.mode == attr.mode
    &&& r.nlink == attr.nlink
    &&& r.uid == attr.uid
    &&& r.gid == attr.gid
    &&& r.size == attr.size
    &&& r.used == attr.size
    &&& r.fileid == attr.fileid
    &&& is_time(r.atime, attr.atime_secs)
    &&& is_time(r.mtime, attr.mtime_secs)
    &&& is_time(r.ctime, attr.ctime_secs)
}

/// Whether a read of `len` bytes at `offset` reached the end of a file of `size` bytes.
pub open spec fn is_at_end(offset: u64, len: u64, size: u64) -> bool {
    offset + len >= size
}

/// The place that a cookie leads to in a directory of `len` entries; none where it is past the end.
pub open spec fn resumed_at(cookie: u64, len: nat) -> Option<int> {
    if cookie <= len {
        Some(cookie as int)
    } else {
        None
    }
}

/// The place that an offset leads to in a directory of `len` entries.
pub open spec fn skipped_to(offset: i64, len: nat) -> int {
    if offset < 0 {
        0
    } else if offset > len {
        len as int
    } else {
        offset as int
    }
}

/// Whether `r` is what comes next at the place `at`, and `after` the place behind it.
pub open spec fn is_next(
    rows: Seq<(u64, AttrView)>,
    at: int,
    r: Option<DirEntry>,
    after: int,
) -> bool {
    match r {
        Some(e) => {
            &&& at < rows.len()
            &&& (e.id.0, e.attr@) == rows[at]
            &&& e.cookie == at + 1
            &&& after == at + 1
        },
        None => {
            &&& at == rows.len()
            &&& after == at
        },
    }
}

} // verus!
