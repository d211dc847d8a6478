//! Why an operation of the file system was refused.

use vstd::prelude::*;

verus! {

/// A handle outlived its draft: the draft was uploaded and removed while the handle stayed open, so
/// neither the handle's size nor any bytes for it can be trusted. Reopening the file helps.
#[derive(Debug)]
pub struct StaleHandleError {
    pub remote_path: String,
}

/// A rename was refused: a handle is open at or below the source or the destination, or a draft lives
/// below one of them or at the destination.
#[derive(Debug)]
pub struct RenameBusyError {
    pub remote_path: String,
}

/// A deletion was refused: a handle is open on the file.
#[derive(Debug)]
pub struct UnlinkBusyError {
    pub remote_path: String,
}

/// A deletion was refused: the directory still holds something.
#[derive(Debug)]
pub struct DirNotEmptyError {
    pub remote_path: String,
}

/// A rename was refused: a file that was never uploaded cannot take the name of a directory.
#[derive(Debug)]
pub struct RenameOntoDirectoryError {
    pub remote_path: String,
}

/// Why an operation failed.
#[derive(Debug)]
pub enum VfsError {
    StaleHandle(StaleHandleError),
    RenameBusy(RenameBusyError),
    UnlinkBusy(UnlinkBusyError),
    DirNotEmpty(DirNotEmptyError),
    RenameOntoDirectory(RenameOntoDirectoryError),
    /// Any other failure, with its message.
    Other(String),
}

/// The parts of a message around the path that it names.
pub open spec fn stale_message(remote_path: Seq<char>) -> Seq<char> {
    "stale file handle for "@ + remote_path
        + ": its draft was uploaded and removed while the handle stayed open — reopen the file"@
}

/// Message of a refused rename.
pub open spec fn rename_busy_message(remote_path: Seq<char>) -> Seq<char> {
    "cannot rename "@ + remote_path + ": a handle is still open on it — close it first"@
}

/// Message of a refused deletion.
pub open spec fn unlink_busy_message(remote_path: Seq<char>) -> Seq<char> {
    "cannot delete "@ + remote_path + ": a handle is still open on it — close it first"@
}

/// Message of a refused deletion of a directory.
pub open spec fn dir_not_empty_message(remote_path: Seq<char>) -> Seq<char> {
    "cannot remove "@ + remote_path + ": the directory is not empty"@
}

/// Message of a refused rename onto a directory.
pub open spec fn rename_onto_directory_message(remote_path: Seq<char>) -> Seq<char> {
    "cannot rename onto "@ + remote_path + ": it is a directory"@
}

/// `before`, `path` and `after` in a row.
pub fn around(before: &str, path: &str, after: &str) -> (r: String)
    ensures
        r@ == before@ + path@ + after@,
{
    let mut s: String = before.to_owned();
    s.append(path);
    s.append(after);
    s
}

impl StaleHandleError {
    /// The message for a person to read.
    pub fn message(&self) -> (r: String)
        ensures
            r@ == stale_message(self.remote_path@),
    {
        around(
            "stale file handle for ",
            self.remote_path.as_str(),
            ": its draft was uploaded and removed while the handle stayed open — reopen the file",
        )
    }
}

impl RenameBusyError {
    /// The message for a person to read.
    pub fn message(&self) -> (r: String)
        ensures
            r@ == rename_busy_message(self.remote_path@),
    {
        around(
            "cannot rename ",
            self.remote_path.as_str(),
            ": a handle is still open on it — close it first",
        )
    }
}

impl VfsError {
    /// What [`Self::message`] returns.
    pub open spec fn text(&self) -> Seq<char> {
        match self {
            VfsError::StaleHandle(e) => stale_message(e.remote_path@),
            VfsError::RenameBusy(e) => rename_busy_message(e.remote_path@),
            VfsError::UnlinkBusy(e) => unlink_busy_message(e.remote_path@),
            VfsError::DirNotEmpty(e) => dir_not_empty_message(e.remote_path@),
            VfsError::RenameOntoDirectory(e) => rename_onto_directory_message(e.remote_path@),
            VfsError::Other(s) => s@,
        }
    }

    /// The message for a person to read.
    pub fn message(&self) -> (r: String)
        ensures
            r@ == self.text(),
    {
        match self {
            VfsError::StaleHandle(e) => e.message(),
            VfsError::RenameBusy(e) => e.message(),
            VfsError::UnlinkBusy(e) => around(
                "cannot delete ",
                e.remote_path.as_str(),
                ": a handle is still open on it — close it first",
            ),
            VfsError::DirNotEmpty(e) => around(
                "cannot remove ",
                e.remote_path.as_str(),
                ": the directory is not empty",
            ),
            VfsError::RenameOntoDirectory(e) => around(
                "cannot rename onto ",
                e.remote_path.as_str(),
                ": it is a directory",
            ),
            VfsError::Other(s) => s.clone(),
        }
    }
}

} // verus!
