//! Mounting: which commands do it, whose mount is in the way, and how it is taken away.

use vstd::prelude::*;

use crate::scan::{contains, lines, parse_i32, parse_u16, rsplit_once, split_once, trim, words};
use crate::text::{concat, decimal, join_child, same, starts_with};

verus! {

/// How long an attach may take, in milliseconds.
pub const MOUNT_BUDGET_MILLIS: u64 = 15_000;

/// How long one step of taking a mount away may take, in milliseconds. Each step has its own time, so that
/// an early one that hangs leaves the later ones theirs.
pub const UMOUNT_STEP_BUDGET_MILLIS: u64 = 10_000;

/// How long a look at the mount table, or at whether an owner is alive, may take, in milliseconds.
pub const DETECT_BUDGET_MILLIS: u64 = 5_000;

// ---------------------------------------------------------------------------
// Whether a mount is a leftover.
// ---------------------------------------------------------------------------

/// Whether a mount in the mount table is a leftover: it is there, its owner was recorded, and that owner is
/// dead. Without a record nothing says that the mount is ours, and with a living owner it is in use.
pub fn is_stale(mount_table_match: bool, marker_owner_alive: Option<bool>) -> (r: bool)
    ensures
        r == stale(mount_table_match, marker_owner_alive),
{
    if !mount_table_match {
        return false;
    }
    match marker_owner_alive {
        Some(alive) => !alive,
        None => false,
    }
}

/// The file that records the owner of a mount.
pub fn mount_marker_path(cache_dir: &str) -> (r: String)
    ensures
        r@ == crate::text::child_path(cache_dir@, "mount.port"@),
{
    join_child(cache_dir, "mount.port")
}

/// The port that a record names as the owner, where it names one.
pub fn marker_port(marker: &str) -> (r: Option<u16>)
    ensures
        is_marker_port(r, marker@),
{
    parse_u16(trim(marker).as_str())
}

/// The process that a record names as the owner, where it names one.
pub fn marker_pid(marker: &str) -> (r: Option<i32>)
    ensures
        is_marker_pid(r, marker@),
{
    parse_i32(trim(marker).as_str())
}

/// A mountpoint as the mount table has it: its directory resolved, its own name kept. The mountpoint itself
/// is never looked at, for a dead mount would not answer. Where it has no directory or no name, or its
/// directory cannot be resolved, it stays as it is.
pub fn resolve_mountpoint_for_comparison(
    mountpoint: &str,
    resolved_parent: Option<&str>,
    file_name: Option<&str>,
) -> (r: String)
    ensures
        r@ == (match (resolved_parent, file_name) {
            (Some(dir), Some(name)) => compared_as(mountpoint@, Some((dir@, name@))),
            _ => compared_as(mountpoint@, None),
        }),
{
    match (resolved_parent, file_name) {
        (Some(dir), Some(name)) => {
            let n: usize = dir.unicode_len();
            if n == 0 || dir.get_char(n - 1) == '/' {
                concat(dir, name)
            } else {
                join_child(dir, name)
            }
        },
        _ => mountpoint.to_owned(),
    }
}

/// A name in a directory; a directory that ends in a slash gets no second one.
pub open spec fn joined(dir: Seq<char>, name: Seq<char>) -> Seq<char> {
    if dir.len() == 0 || dir.last() == '/' {
        dir + name
    } else {
        crate::text::child_path(dir, name)
    }
}

/// Whether a line of the table that `mount` prints is an NFS mount of this machine at `path`. A line reads
/// `<source> on <path> (<options>)`.
pub open spec fn is_nfs_line(line: Seq<char>, path: Seq<char>) -> bool {
    match crate::scan::split_once_at(line, " on "@) {
        None => false,
        Some(p) => match crate::scan::rsplit_once_at(p.1, " ("@) {
            None => false,
            Some(q) => {
                &&& q.0 == path
                &&& "127.0.0.1:"@.is_prefix_of(p.0)
                &&& crate::scan::holds(q.1, "nfs"@)
            },
        },
    }
}

fn nfs_line(line: &str, path: &str) -> (r: bool)
    ensures
        r == is_nfs_line(line@, path@),
{
    match split_once(line, " on ") {
        None => false,
        Some(p) => match rsplit_once(p.1.as_str(), " (") {
            None => false,
            Some(q) => same(q.0.as_str(), path) && starts_with(p.0.as_str(), "127.0.0.1:")
                && contains(q.1.as_str(), "nfs"),
        },
    }
}

/// Whether a line of `/proc/mounts` is a FUSE mount at `path`. Its second word is the path and its third the
/// type, which may have a part of its own after `fuse`.
pub open spec fn is_fuse_line(line: Seq<char>, path: Seq<char>) -> bool {
    let w = crate::scan::words_from(line, 0);
    w.len() >= 3 && w[1] == path && "fuse"@.is_prefix_of(w[2])
}

fn fuse_line(line: &str, path: &str) -> (r: bool)
    ensures
        r == is_fuse_line(line@, path@),
{
    let w: Vec<String> = words(line);
    proof {
        let t = crate::text::texts(w@);
        assert(t == crate::scan::words_from(line@, 0));
        if w@.len() >= 3 {
            assert(t[1] == w@[1]@);
            assert(t[2] == w@[2]@);
        }
    }
    w.len() >= 3 && same(w[1].as_str(), path) && starts_with(w[2].as_str(), "fuse")
}

/// Whether the table that `mount` prints has an NFS mount of this machine at `path`.
pub fn nfs_mounted_at(table: &str, path: &str) -> (r: bool)
    ensures
        nfs_mounted(table@, path@, r),
{
    let all: Vec<String> = lines(table);
    let ghost t = crate::scan::lines_from(table@, 0);
    let mut i: usize = 0;
    while i < all.len()
        invariant
            i <= all@.len(),
            t == crate::scan::lines_from(table@, 0),
            crate::text::texts(all@) == t,
            forall|j: int| 0 <= j < i ==> !is_nfs_line(#[trigger] t[j], path@),
        decreases all@.len() - i,
    {
        assert(t[i as int] == all@[i as int]@);
        if nfs_line(all[i].as_str(), path) {
            return true;
        }
        i = i + 1;
    }
    false
}

/// Whether `/proc/mounts` has a FUSE mount at `path`.
pub fn fuse_mounted_at(table: &str, path: &str) -> (r: bool)
    ensures
        fuse_mounted(table@, path@, r),
{
    let all: Vec<String> = lines(table);
    let ghost t = crate::scan::lines_from(table@, 0);
    let mut i: usize = 0;
    while i < all.len()
        invariant
            i <= all@.len(),
            t == crate::scan::lines_from(table@, 0),
            crate::text::texts(all@) == t,
            forall|j: int| 0 <= j < i ==> !is_fuse_line(#[trigger] t[j], path@),
        decreases all@.len() - i,
    {
        assert(t[i as int] == all@[i as int]@);
        if fuse_line(all[i].as_str(), path) {
            return true;
        }
        i = i + 1;
    }
    false
}

// ---------------------------------------------------------------------------
// Commands.
// ---------------------------------------------------------------------------

/// A command with its arguments.
#[derive(Debug)]
pub struct Rung {
    pub program: String,
    pub args: Vec<String>,
}

/// A [`Rung`] as plain values: the program, then the arguments.
pub open spec fn rung_words(r: Rung) -> Seq<Seq<char>> {
    seq![r.program@] + crate::text::texts(r.args@)
}

/// Commands as plain values.
pub open spec fn rungs_words(list: Seq<Rung>) -> Seq<Seq<Seq<char>>> {
    list.map_values(|r: Rung| rung_words(r))
}

fn rung1(program: &str, a: &str) -> (r: Rung)
    ensures
        rung_words(r) == seq![program@, a@],
{
    let mut args: Vec<String> = Vec::new();
    args.push(a.to_owned());
    let r = Rung { program: program.to_owned(), args };
    assert(rung_words(r) =~= seq![program@, a@]);
    r
}

fn rung2(program: &str, a: &str, b: &str) -> (r: Rung)
    ensures
        rung_words(r) == seq![program@, a@, b@],
{
    let mut args: Vec<String> = Vec::new();
    args.push(a.to_owned());
    args.push(b.to_owned());
    let r = Rung { program: program.to_owned(), args };
    assert(rung_words(r) =~= seq![program@, a@, b@]);
    r
}

fn rung3(program: &str, a: &str, b: &str, c: &str) -> (r: Rung)
    ensures
        rung_words(r) == seq![program@, a@, b@, c@],
{
    let mut args: Vec<String> = Vec::new();
    args.push(a.to_owned());
    args.push(b.to_owned());
    args.push(c.to_owned());
    let r = Rung { program: program.to_owned(), args };
    assert(rung_words(r) =~= seq![program@, a@, b@, c@]);
    r
}

/// The commands that take an NFS mount away, each tried if the one before failed. The first, which only a
/// living server answers, is left out for a mount that is known to be dead.
pub fn nfs_unmount_rungs(mountpoint: &str, skip_plain_umount: bool) -> (r: Vec<Rung>)
    ensures
        rungs_words(r@) == nfs_unmount_words(mountpoint@, skip_plain_umount),
{
    let mut out: Vec<Rung> = Vec::new();
    if !skip_plain_umount {
        out.push(rung1("/sbin/umount", mountpoint));
    }
    out.push(rung2("/sbin/umount", "-f", mountpoint));
    out.push(rung3("/usr/sbin/diskutil", "unmount", "force", mountpoint));
    proof {
        let forced = seq![
            seq!["/sbin/umount"@, "-f"@, mountpoint@],
            seq!["/usr/sbin/diskutil"@, "unmount"@, "force"@, mountpoint@],
        ];
        assert(rungs_words(out@) =~= (if skip_plain_umount {
            forced
        } else {
            seq![seq!["/sbin/umount"@, mountpoint@]] + forced
        }));
    }
    out
}

/// The commands that take a FUSE mount away, each tried if the one before failed. The last detaches it even
/// where something still uses it.
pub fn fuse_unmount_rungs(mountpoint: &str) -> (r: Vec<Rung>)
    ensures
        rungs_words(r@) == fuse_unmount_words(mountpoint@),
{
    let mut out: Vec<Rung> = Vec::new();
    out.push(rung2("fusermount3", "-u", mountpoint));
    out.push(rung2("fusermount", "-u", mountpoint));
    out.push(rung2("umount", "-f", mountpoint));
    out.push(rung2("umount", "-l", mountpoint));
    assert(rungs_words(out@) =~= seq![
        seq!["fusermount3"@, "-u"@, mountpoint@],
        seq!["fusermount"@, "-u"@, mountpoint@],
        seq!["umount"@, "-f"@, mountpoint@],
        seq!["umount"@, "-l"@, mountpoint@],
    ]);
    out
}

/// What is said where every command failed.
pub fn unmount_failure(mountpoint: &str) -> (r: String)
    ensures
        r@ == "failed to unmount "@ + mountpoint@ + " after exhausting the escalation chain"@,
{
    let start: String = concat("failed to unmount ", mountpoint);
    concat(start.as_str(), " after exhausting the escalation chain")
}

/// The options of an NFS mount of the server at `port`. Version 3 is the one that the server speaks; a
/// request to a server that has died fails after some seconds; and there is no lock service.
pub fn nfs_mount_options(port: u16) -> (r: String)
    ensures
        r@ == "nolocks,vers=3,tcp,soft,timeo=30,retrans=2,port="@ + crate::text::dec(port as nat)
            + ",mountport="@ + crate::text::dec(port as nat),
{
    let digits: String = decimal(port as u64);
    let a: String = concat("nolocks,vers=3,tcp,soft,timeo=30,retrans=2,port=", digits.as_str());
    let b: String = concat(a.as_str(), ",mountport=");
    concat(b.as_str(), digits.as_str())
}

/// The command that mounts the server at `port`.
pub fn nfs_mount_command(mountpoint: &str, port: u16) -> (r: Rung)
    ensures
        rung_words(r) == seq![
            "/sbin/mount_nfs"@,
            "-o"@,
            "nolocks,vers=3,tcp,soft,timeo=30,retrans=2,port="@ + crate::text::dec(port as nat)
                + ",mountport="@ + crate::text::dec(port as nat),
            "127.0.0.1:/"@,
            mountpoint@,
        ],
{
    let mut args: Vec<String> = Vec::new();
    args.push("-o".to_owned());
    args.push(nfs_mount_options(port));
    args.push("127.0.0.1:/".to_owned());
    args.push(mountpoint.to_owned());
    let r = Rung { program: "/sbin/mount_nfs".to_owned(), args };
    assert(rung_words(r) =~= seq![
        "/sbin/mount_nfs"@,
        "-o"@,
        "nolocks,vers=3,tcp,soft,timeo=30,retrans=2,port="@ + crate::text::dec(port as nat)
            + ",mountport="@ + crate::text::dec(port as nat),
        "127.0.0.1:/"@,
        mountpoint@,
    ]);
    r
}

/// Whether a mount is left over: it is in the table, and the process that made it is known to be gone.
pub open spec fn stale(mount_table_match: bool, marker_owner_alive: Option<bool>) -> bool {
    mount_table_match && marker_owner_alive == Some(false)
}

/// The words of the commands that take an NFS mount away.
pub open spec fn nfs_unmount_words(mountpoint: Seq<char>, skip_plain_umount: bool) -> Seq<
    Seq<Seq<char>>,
> {
    let forced = seq![
        seq!["/sbin/umount"@, "-f"@, mountpoint],
        seq!["/usr/sbin/diskutil"@, "unmount"@, "force"@, mountpoint],
    ];
    if skip_plain_umount {
        forced
    } else {
        seq![seq!["/sbin/umount"@, mountpoint]] + forced
    }
}

/// The words of the commands that take a FUSE mount away.
pub open spec fn fuse_unmount_words(mountpoint: Seq<char>) -> Seq<Seq<Seq<char>>> {
    seq![
        seq!["fusermount3"@, "-u"@, mountpoint],
        seq!["fusermount"@, "-u"@, mountpoint],
        seq!["umount"@, "-f"@, mountpoint],
        seq!["umount"@, "-l"@, mountpoint],
    ]
}

/// Whether `r` tells if the table tells of an NFS mount at `path`.
pub open spec fn nfs_mounted(
    table: Seq<char>,
    path: Seq<char>,
    r: bool,
) -> bool {
    r <==> exists|i: int|
        0 <= i < crate::scan::lines_from(table, 0).len() && is_nfs_line(
            #[trigger] crate::scan::lines_from(table, 0)[i],
            path,
        )
}

/// Whether `r` tells if the table tells of a FUSE mount at `path`.
pub open spec fn fuse_mounted(
    table: Seq<char>,
    path: Seq<char>,
    r: bool,
) -> bool {
    r <==> exists|i: int|
        0 <= i < crate::scan::lines_from(table, 0).len() && is_fuse_line(
            #[trigger] crate::scan::lines_from(table, 0)[i],
            path,
        )
}

/// Whether `r` is the port that a marker file names.
pub open spec fn is_marker_port(
    r: Option<u16>,
    marker: Seq<char>,
) -> bool {
    match r {
        Some(port) => crate::scan::number(crate::scan::trimmed(marker), false) == Some(
            port as int,
        ),
        None => match crate::scan::number(crate::scan::trimmed(marker), false) {
            Some(n) => n > u16::MAX,
            None => true,
        },
    }
}

/// Whether `r` is the process that a marker file names.
pub open spec fn is_marker_pid(
    r: Option<i32>,
    marker: Seq<char>,
) -> bool {
    match r {
        Some(pid) => crate::scan::number(crate::scan::trimmed(marker), true) == Some(pid as int),
        None => match crate::scan::number(crate::scan::trimmed(marker), true) {
            Some(n) => n > i32::MAX || n < i32::MIN,
            None => true,
        },
    }
}

/// What a mountpoint is compared as: its name in the directory that was found to hold it, or, where that was
/// not found, the mountpoint as it was given.
pub open spec fn compared_as(
    mountpoint: Seq<char>,
    found: Option<(Seq<char>, Seq<char>)>,
) -> Seq<char> {
    match found {
        Some(p) => joined(p.0, p.1),
        None => mountpoint,
    }
}

} // verus!
