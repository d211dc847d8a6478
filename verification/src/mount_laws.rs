//! What holds of finding mounts and taking them away.

use vstd::prelude::*;

verus! {

/// A mount is taken for left over only where the process that made it is known to be gone: not where that
/// lives, nor where nothing is known of it, nor where nothing is mounted.
pub proof fn a_mount_is_left_over_only_if_its_owner_is_gone(mounted: bool)
    ensures
        !crate::mount::stale(mounted, None),
        !crate::mount::stale(mounted, Some(true)),
        crate::mount::stale(mounted, Some(false)) <==> mounted,
{
}

/// A name is put behind a directory with one slash between them, whether the directory ends with one or
/// not; a directory without a name adds none.
pub proof fn one_slash_stands_between_directory_and_name(dir: Seq<char>, name: Seq<char>)
    ensures
        crate::mount::joined(dir + seq!['/'], name) == dir + seq!['/'] + name,
        dir.len() > 0 && dir.last() != '/' ==> crate::mount::joined(dir, name) == dir + seq!['/'] + name,
        crate::mount::joined(Seq::empty(), name) == name,
{
    assert((dir + seq!['/']).last() == '/');
    assert(Seq::<char>::empty() + name =~= name);
}

// ---------------------------------------------------------------------------
// Tables of mounts.
// ---------------------------------------------------------------------------

/// A line of the form `server on path (options` tells of a mount at that path, and at no other, if and only
/// if the server is this machine and the options name NFS. The path may hold blanks.
pub proof fn a_line_tells_of_an_nfs_mount_at_its_path(
    server: Seq<char>,
    path: Seq<char>,
    options: Seq<char>,
    asked: Seq<char>,
)
    requires
        ({
            let rest = path + " ("@ + options;
            let line = server + " on "@ + rest;
            &&& forall|j: int|
                0 <= j < server.len() ==> !#[trigger] crate::scan::occurs_at(line, " on "@, j)
            &&& forall|j: int| path.len() < j ==> !#[trigger] crate::scan::occurs_at(rest, " ("@, j)
        }),
    ensures
        crate::mount::is_nfs_line(server + " on "@ + (path + " ("@ + options), asked) <==> asked == path
            && "127.0.0.1:"@.is_prefix_of(server) && crate::scan::holds(options, "nfs"@),
{
    let on = " on "@;
    let bracket = " ("@;
    let rest = path + bracket + options;
    let line = server + on + rest;
    crate::scan_laws::splitting_is_at_the_first_place(line, on);
    crate::scan_laws::splitting_is_at_the_first_place(rest, bracket);
    crate::scan_laws::a_text_holds_what_it_is_made_of(line, server, on, rest);
    crate::scan_laws::a_text_holds_what_it_is_made_of(rest, path, bracket, options);
    let x = crate::scan::split_once_at(line, on)->0;
    let y = crate::scan::rsplit_once_at(rest, bracket)->0;
    lemma_occurs(server, on, rest);
    lemma_occurs(x.0, on, x.1);
    assert(x.0.len() == server.len());
    assert(x.0 =~= line.subrange(0, server.len() as int));
    assert(server =~= line.subrange(0, server.len() as int));
    assert(x.1 =~= line.subrange(server.len() as int + on.len(), line.len() as int));
    assert(rest =~= line.subrange(server.len() as int + on.len(), line.len() as int));
    lemma_occurs(path, bracket, options);
    lemma_occurs(y.0, bracket, y.1);
    assert(y.0.len() == path.len());
    assert(y.0 =~= rest.subrange(0, path.len() as int));
    assert(path =~= rest.subrange(0, path.len() as int));
    assert(y.1 =~= rest.subrange(path.len() as int + bracket.len(), rest.len() as int));
    assert(options =~= rest.subrange(path.len() as int + bracket.len(), rest.len() as int));
}

proof fn lemma_occurs(a: Seq<char>, p: Seq<char>, b: Seq<char>)
    ensures
        crate::scan::occurs_at(a + p + b, p, a.len() as int),
{
    assert((a + p + b).subrange(a.len() as int, a.len() as int + p.len()) =~= p);
}

/// A line tells of one mount at most, of either kind; one of NFS is served by this machine.
pub proof fn a_line_tells_of_one_mount(line: Seq<char>, path: Seq<char>, other: Seq<char>)
    ensures
        crate::mount::is_nfs_line(line, path) && crate::mount::is_nfs_line(line, other) ==> path == other,
        crate::mount::is_fuse_line(line, path) && crate::mount::is_fuse_line(line, other) ==> path
            == other,
        crate::mount::is_nfs_line(line, path) ==> "127.0.0.1:"@.is_prefix_of(line) && crate::scan::holds(
            line,
            path,
        ),
{
    if crate::mount::is_nfs_line(line, path) {
        let on = " on "@;
        let bracket = " ("@;
        crate::scan_laws::splitting_is_at_the_first_place(line, on);
        let x = crate::scan::split_once_at(line, on)->0;
        crate::scan_laws::splitting_is_at_the_first_place(x.1, bracket);
        let y = crate::scan::rsplit_once_at(x.1, bracket)->0;
        let host = "127.0.0.1:"@;
        assert forall|i: int| 0 <= i < host.len() implies host[i] == line[i] by {
            assert(x.0[i] == line[i]);
        }
        assert(line.subrange(0, host.len() as int) =~= host);
        let before = x.0 + on;
        let after = bracket + y.1;
        assert(before + path + after =~= line);
        crate::scan_laws::a_text_holds_what_it_is_made_of(line, before, path, after);
    }
}

proof fn lemma_word(s: Seq<char>, i: int, n: int)
    requires
        0 <= i < i + n < s.len(),
        forall|j: int| i <= j < i + n ==> !crate::scan::is_blank(#[trigger] s[j]),
        crate::scan::is_blank(s[i + n]),
    ensures
        crate::scan::words_from(s, i) == seq![s.subrange(i, i + n)] + crate::scan::words_from(
            s,
            i + n + 1,
        ),
{
    crate::scan_laws::words_come_one_after_the_other(s, i);
    let w = crate::scan::words_from(s, i);
    assert(!crate::scan::is_blank(s[i]));
    let (from, to) = choose|from: int, to: int|
        i <= from < to <= s.len() && w[0] == #[trigger] s.subrange(from, to) && (forall|j: int|
            i <= j < from ==> crate::scan::is_blank(#[trigger] s[j])) && (forall|j: int|
            from <= j < to ==> !crate::scan::is_blank(#[trigger] s[j])) && (to < s.len()
            ==> crate::scan::is_blank(s[to])) && w.drop_first() == crate::scan::words_from(s, to);
    assert(from == i);
    assert(to == i + n);
    assert(w =~= seq![w[0]] + w.drop_first());
    assert(crate::scan::skip_blanks(s, to) == crate::scan::skip_blanks(s, to + 1));
    if to + 1 >= s.len() {
        assert(crate::scan::skip_blanks(s, to) == s.len());
    }
    assert(crate::scan::words_from(s, to) == crate::scan::words_from(s, to + 1));
}

/// A line of the form `device path kind rest` tells of a FUSE mount at that path, and at no other, if and
/// only if its kind begins with the name of FUSE.
pub proof fn a_line_tells_of_a_fuse_mount_at_its_path(
    device: Seq<char>,
    path: Seq<char>,
    kind: Seq<char>,
    rest: Seq<char>,
    asked: Seq<char>,
)
    requires
        device.len() > 0,
        path.len() > 0,
        kind.len() > 0,
        forall|j: int| 0 <= j < device.len() ==> !crate::scan::is_blank(#[trigger] device[j]),
        forall|j: int| 0 <= j < path.len() ==> !crate::scan::is_blank(#[trigger] path[j]),
        forall|j: int| 0 <= j < kind.len() ==> !crate::scan::is_blank(#[trigger] kind[j]),
    ensures
        crate::mount::is_fuse_line(
            device + seq![' '] + path + seq![' '] + kind + seq![' '] + rest,
            asked,
        ) <==> asked == path && "fuse"@.is_prefix_of(kind),
{
    let line = device + seq![' '] + path + seq![' '] + kind + seq![' '] + rest;
    let a = device.len() as int;
    let b = a + 1 + path.len();
    let c = b + 1 + kind.len();
    assert forall|j: int| 0 <= j < a implies !crate::scan::is_blank(#[trigger] line[j]) by {
        assert(line[j] == device[j]);
    }
    assert forall|j: int| a + 1 <= j < b implies !crate::scan::is_blank(#[trigger] line[j]) by {
        assert(line[j] == path[j - a - 1]);
    }
    assert forall|j: int| b + 1 <= j < c implies !crate::scan::is_blank(#[trigger] line[j]) by {
        assert(line[j] == kind[j - b - 1]);
    }
    assert(line[a] == ' ' && line[b] == ' ' && line[c] == ' ');
    lemma_word(line, 0, a);
    lemma_word(line, a + 1, path.len() as int);
    lemma_word(line, b + 1, kind.len() as int);
    assert(line.subrange(a + 1, b) =~= path);
    assert(line.subrange(b + 1, c) =~= kind);
    let w = crate::scan::words_from(line, 0);
    assert(w[1] == path);
    assert(w[2] == kind);
}

// ---------------------------------------------------------------------------
// Taking mounts away.
// ---------------------------------------------------------------------------

/// Every command that takes a mount away is about that mount, and none about another. A mount that is known
/// to be dead is spared the one command that only a living server answers, which otherwise comes first and
/// is the only one that uses no force.
pub proof fn every_command_is_about_the_mount(mountpoint: Seq<char>, skip: bool, i: int)
    ensures
        ({
            let nfs = crate::mount::nfs_unmount_words(mountpoint, skip);
            let all = crate::mount::nfs_unmount_words(mountpoint, false);
            let fuse = crate::mount::fuse_unmount_words(mountpoint);
            &&& 0 <= i < nfs.len() ==> nfs[i].last() == mountpoint && nfs[i].len() > 1
            &&& 0 <= i < fuse.len() ==> fuse[i].last() == mountpoint && fuse[i].len() > 1
            &&& crate::mount::nfs_unmount_words(mountpoint, true) == all.drop_first()
            &&& all[0] == seq!["/sbin/umount"@, mountpoint]
            &&& all.len() == 3
            &&& fuse.len() == 4
            &&& 1 <= i < all.len() ==> all[i].contains("-f"@) || all[i].contains("force"@)
        }),
{
    let all = crate::mount::nfs_unmount_words(mountpoint, false);
    assert(all.drop_first() =~= crate::mount::nfs_unmount_words(mountpoint, true));
    assert(all[1][1] == "-f"@);
    assert(all[2][2] == "force"@);
}

// ---------------------------------------------------------------------------
// Marker files.
// ---------------------------------------------------------------------------

proof fn lemma_trimmed(before: Seq<char>, s: Seq<char>, after: Seq<char>)
    requires
        s.len() > 0,
        !crate::scan::is_blank(s[0]),
        !crate::scan::is_blank(s.last()),
        forall|i: int| 0 <= i < before.len() ==> crate::scan::is_blank(#[trigger] before[i]),
        forall|i: int| 0 <= i < after.len() ==> crate::scan::is_blank(#[trigger] after[i]),
    ensures
        crate::scan::trimmed(before + s + after) == s,
{
    let text = before + s + after;
    let t = crate::scan::trimmed(text);
    crate::scan_laws::trimming_takes_only_blanks_at_the_ends(text);
    let a = before.len() as int;
    let b = a + s.len();
    assert(text[a] == s[0]);
    assert(text[b - 1] == s.last());
    let (from, to) = choose|from: int, to: int|
        0 <= from < to <= text.len() && t == #[trigger] text.subrange(from, to) && (forall|j: int|
            0 <= j < from || to <= j < text.len() ==> crate::scan::is_blank(#[trigger] text[j]));
    assert(t[0] == text[from] && t.last() == text[to - 1]);
    if from < a {
        assert(text[from] == before[from]);
    }
    if to > b {
        assert(text[to - 1] == after[to - 1 - b]);
    }
    assert(from == a && to == b);
    assert(t =~= s);
}

/// A marker file that holds a number, among blanks, names it; as a port only where it is one. One that was
/// written for a process names that process.
pub proof fn a_marker_names_the_number_that_it_holds(
    before: Seq<char>,
    n: nat,
    after: Seq<char>,
    port: Option<u16>,
    pid: Option<i32>,
)
    requires
        forall|i: int| 0 <= i < before.len() ==> crate::scan::is_blank(#[trigger] before[i]),
        forall|i: int| 0 <= i < after.len() ==> crate::scan::is_blank(#[trigger] after[i]),
        crate::mount::is_marker_port(port, before + crate::text::dec(n) + after),
        crate::mount::is_marker_pid(pid, before + crate::text::dec(n) + after),
    ensures
        n <= 65535 ==> port == Some(n as u16),
        n > 65535 ==> port is None,
        n <= 0x7fff_ffff ==> pid == Some(n as i32),
        n > 0x7fff_ffff ==> pid is None,
{
    let s = crate::text::dec(n);
    crate::text_laws::a_number_reads_back(n);
    crate::scan_laws::what_can_be_seen_is_not_blank(s[0]);
    crate::scan_laws::what_can_be_seen_is_not_blank(s.last());
    assert('0' <= s[s.len() - 1] <= '9');
    lemma_trimmed(before, s, after);
}

/// A number below zero, among blanks, names a process as far as it can be one, and never a port.
pub proof fn a_marker_below_zero_names_no_port(
    before: Seq<char>,
    n: nat,
    after: Seq<char>,
    port: Option<u16>,
    pid: Option<i32>,
)
    requires
        forall|i: int| 0 <= i < before.len() ==> crate::scan::is_blank(#[trigger] before[i]),
        forall|i: int| 0 <= i < after.len() ==> crate::scan::is_blank(#[trigger] after[i]),
        crate::mount::is_marker_port(port, before + (seq!['-'] + crate::text::dec(n)) + after),
        crate::mount::is_marker_pid(pid, before + (seq!['-'] + crate::text::dec(n)) + after),
    ensures
        port is None,
        n <= 0x8000_0000 ==> pid == Some((-(n as int)) as i32),
        n > 0x8000_0000 ==> pid is None,
{
    let d = crate::text::dec(n);
    let s = seq!['-'] + d;
    crate::text_laws::a_number_reads_back(n);
    crate::scan_laws::what_can_be_seen_is_not_blank('-');
    assert('0' <= d[d.len() - 1] <= '9');
    assert(s.last() == d[d.len() - 1]);
    crate::scan_laws::what_can_be_seen_is_not_blank(s.last());
    lemma_trimmed(before, s, after);
}

/// A mountpoint is compared as its name in the directory that holds it, with one slash between them, and as
/// it was given where that directory was not found.
pub proof fn a_mountpoint_is_compared_where_it_lies(
    mountpoint: Seq<char>,
    dir: Seq<char>,
    name: Seq<char>,
)
    ensures
        crate::mount::compared_as(mountpoint, None) == mountpoint,
        dir.len() > 0 && dir.last() != '/' ==> crate::mount::compared_as(mountpoint, Some((dir, name)))
            == dir + seq!['/'] + name,
        crate::mount::compared_as(mountpoint, Some((dir + seq!['/'], name))) == dir + seq!['/'] + name,
{
    one_slash_stands_between_directory_and_name(dir, name);
}

/// A marker file that holds anything but a number names neither a port nor a process.
pub proof fn a_marker_without_a_number_names_nothing(
    marker: Seq<char>,
    port: Option<u16>,
    pid: Option<i32>,
)
    requires
        crate::mount::is_marker_port(port, marker),
        crate::mount::is_marker_pid(pid, marker),
    ensures
        crate::scan::number(crate::scan::trimmed(marker), true) is None ==> pid is None && port is None,
        port matches Some(p) ==> crate::scan::number(crate::scan::trimmed(marker), false) == Some(p as int),
        pid matches Some(p) ==> crate::scan::number(crate::scan::trimmed(marker), true) == Some(p as int),
{
}

/// A table tells of what any of its lines tells of, and of nothing else: of what the first line tells of, and
/// of what the lines behind it do.
pub proof fn a_table_tells_what_its_lines_tell(
    first: Seq<char>,
    rest: Seq<char>,
    path: Seq<char>,
    nfs: bool,
    fuse: bool,
)
    requires
        !first.contains('\n'),
        first.len() == 0 || first.last() != '\r',
        crate::mount::nfs_mounted(first + seq!['\n'] + rest, path, nfs),
        crate::mount::fuse_mounted(first + seq!['\n'] + rest, path, fuse),
    ensures
        ({
            let behind = crate::scan::lines_from(
                first + seq!['\n'] + rest,
                first.len() as int + 1,
            );
            &&& nfs <==> crate::mount::is_nfs_line(first, path) || exists|i: int|
                0 <= i < behind.len() && crate::mount::is_nfs_line(#[trigger] behind[i], path)
            &&& fuse <==> crate::mount::is_fuse_line(first, path) || exists|i: int|
                0 <= i < behind.len() && crate::mount::is_fuse_line(#[trigger] behind[i], path)
        }),
{
    let table = first + seq!['\n'] + rest;
    crate::scan_laws::lines_come_one_after_the_other(first, rest);
    let lines = crate::scan::lines_from(table, 0);
    let behind = crate::scan::lines_from(table, first.len() as int + 1);
    assert(lines[0] == first);
    assert forall|i: int| 0 <= i < behind.len() implies #[trigger] behind[i] == lines[i + 1] by {
        assert(lines.drop_first()[i] == lines[i + 1]);
    }
    if nfs {
        let i = choose|i: int|
            0 <= i < lines.len() && crate::mount::is_nfs_line(#[trigger] lines[i], path);
        if i > 0 {
            assert(behind[i - 1] == lines[i]);
        }
    }
    if fuse {
        let i = choose|i: int|
            0 <= i < lines.len() && crate::mount::is_fuse_line(#[trigger] lines[i], path);
        if i > 0 {
            assert(behind[i - 1] == lines[i]);
        }
    }
}

} // verus!
