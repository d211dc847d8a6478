//! What holds of the directory tree as a whole.

use vstd::prelude::*;

use crate::tree::{AttrView, RemoteFile, TreeView, LISTING_TTL_MILLIS};

verus! {

/// Whether two maps hold the same under `k`, or both nothing.
pub open spec fn same_at<K, V>(m: Map<K, V>, n: Map<K, V>, k: K) -> bool {
    (m.contains_key(k) <==> n.contains_key(k)) && (m.contains_key(k) ==> m[k] == n[k])
}

/// A name that a listing still holds keeps its node.
pub proof fn listed_names_keep_their_nodes(
    t: TreeView,
    dir: u64,
    files: Seq<RemoteFile>,
    now: u64,
    name: Seq<char>,
)
    requires
        crate::tree::tree_wf(t),
        dir < t.next_id,
        t.next_id + files.len() <= u64::MAX,
        t.known.contains_key((dir, name)),
        crate::tree::names(files, name),
    ensures
        ({
            let u = crate::tree::listing_applied(t, dir, files, now);
            u.known.contains_key((dir, name)) && u.known[(dir, name)] == t.known[(dir, name)]
        }),
{
    crate::tree::lemma_assigned(t.known, t.next_id, dir, files, files.len() as int);
    crate::tree::lemma_gone_after_dir(t, dir, files);
}

/// A node's number is never used again: a name that was not known gets a number above all that were
/// ever handed out.
pub proof fn node_numbers_are_never_reused(
    t: TreeView,
    dir: u64,
    files: Seq<RemoteFile>,
    now: u64,
    key: (u64, Seq<char>),
)
    requires
        crate::tree::tree_wf(t),
        dir < t.next_id,
        t.next_id + files.len() <= u64::MAX,
    ensures
        ({
            let u = crate::tree::listing_applied(t, dir, files, now);
            &&& t.next_id <= u.next_id
            &&& u.known.contains_key(key) && !t.known.contains_key(key) ==> t.next_id <= u.known[key]
                < u.next_id
        }),
{
    crate::tree::lemma_assigned(t.known, t.next_id, dir, files, files.len() as int);
}

/// A child that a fresh listing no longer names takes all that lies below it along: nothing is known
/// of any of it afterwards, and none of it is listed.
pub proof fn a_ghost_takes_its_subtree_along(
    t: TreeView,
    dir: u64,
    files: Seq<RemoteFile>,
    now: u64,
    gone: u64,
    x: u64,
)
    requires
        crate::tree::tree_wf(t),
        crate::reach::edge(t.children, dir, gone),
        t.attrs.contains_key(gone),
        !crate::tree::names(files, t.attrs[gone].name),
        crate::reach::reaches(t.children, gone, x),
    ensures
        ({
            let u = crate::tree::listing_applied(t, dir, files, now);
            &&& !u.attrs.contains_key(x)
            &&& !u.children.contains_key(x)
            &&& !u.listed_at.contains_key(x)
        }),
{
    assert(crate::tree::ghosts(t, dir, files).contains(gone));
    assert(crate::reach::below(t.children, crate::tree::ghosts(t, dir, files)).contains(x));
    crate::tree::lemma_gone_after_dir(t, dir, files);
}

/// No node that a listing names goes with the ghosts of the same directory.
proof fn lemma_listed_not_gone(t: TreeView, dir: u64, files: Seq<RemoteFile>, i: int)
    requires
        crate::tree::tree_wf(t),
        dir < t.next_id,
        t.next_id + files.len() <= u64::MAX,
        0 <= i < files.len(),
    ensures
        ({
            let known = crate::tree::assigned(t.known, t.next_id, dir, files, files.len() as int).0;
            !crate::reach::below(t.children, crate::tree::ghosts(t, dir, files)).contains(
                known[(dir, files[i].name@)],
            )
        }),
{
    let n = files.len() as int;
    let known = crate::tree::assigned(t.known, t.next_id, dir, files, n).0;
    let key = (dir, files[i].name@);
    let c = known[key];
    crate::tree::lemma_assigned(t.known, t.next_id, dir, files, n);
    crate::tree::lemma_gone_after_dir(t, dir, files);
    assert(known.contains_key(key));
    let all = crate::reach::below(t.children, crate::tree::ghosts(t, dir, files));
    if all.contains(c) {
        let a = choose|a: u64| #[trigger]
            crate::tree::ghosts(t, dir, files).contains(a) && crate::reach::reaches(t.children, a, c);
        crate::reach::lemma_reaches_last(t.children, a, c);
        if a == c {
            let nm = choose|nm: Seq<char>| #[trigger]
                t.known.contains_key((dir, nm)) && t.known[(dir, nm)] == a;
            assert(known.contains_key((dir, nm)));
            assert(crate::tree::names(files, files[i].name@));
        } else {
            let p = choose|p: u64|
                crate::reach::reaches(t.children, a, p) && #[trigger] crate::reach::edge(
                    t.children,
                    p,
                    c,
                );
            assert(all.contains(p));
            let nm = choose|nm: Seq<char>| #[trigger]
                t.known.contains_key((p, nm)) && t.known[(p, nm)] == c;
            assert(known.contains_key((p, nm)));
        }
    }
}

/// What a directory shows after a listing is what the listing held, in the same order, each entry
/// under its node, provided that no name occurs twice in it.
pub proof fn a_directory_shows_what_was_listed(
    t: TreeView,
    dir: u64,
    files: Seq<RemoteFile>,
    now: u64,
)
    requires
        crate::tree::tree_wf(t),
        dir < t.next_id,
        t.next_id + files.len() <= u64::MAX,
        forall|i: int, j: int|
            0 <= i < j < files.len() ==> (#[trigger] files[i]).name@ != (#[trigger] files[j]).name@,
    ensures
        ({
            let u = crate::tree::listing_applied(t, dir, files, now);
            crate::tree::listed_rows(u, dir) == Seq::new(
                files.len(),
                |i: int| (u.known[(dir, files[i].name@)], crate::tree::attr_of(files[i])),
            )
        }),
{
    let n = files.len() as int;
    let u = crate::tree::listing_applied(t, dir, files, now);
    let asg = crate::tree::assigned(t.known, t.next_id, dir, files, n);
    let known = asg.0;
    crate::tree::lemma_assigned(t.known, t.next_id, dir, files, n);
    crate::tree::lemma_gone_after_dir(t, dir, files);
    assert forall|i: int| 0 <= i < n implies u.known.contains_key((dir, (#[trigger] files[i]).name@))
        && u.known[(dir, files[i].name@)] == known[(dir, files[i].name@)] by {
        assert(known.contains_key((dir, files[i].name@)));
        assert(crate::tree::names(files, files[i].name@));
    }
    assert forall|i: int| 0 <= i < n implies u.attrs.contains_key(
        known[(dir, (#[trigger] files[i]).name@)],
    ) && u.attrs[known[(dir, files[i].name@)]] == crate::tree::attr_of(files[i]) by {
        lemma_listed_not_gone(t, dir, files, i);
        lemma_listed_attr(t.attrs, known, asg.1, dir, files, n, i);
    }
    let ids = u.children[dir];
    lemma_rows_all_known(ids, u.attrs, n);
    assert(ids.subrange(0, n) =~= ids);
    assert(crate::tree::listed_rows(u, dir) =~= Seq::new(
        files.len(),
        |i: int| (u.known[(dir, files[i].name@)], crate::tree::attr_of(files[i])),
    ));
}

proof fn lemma_listed_attr(
    attrs: Map<u64, AttrView>,
    known: Map<(u64, Seq<char>), u64>,
    next_id: int,
    dir: u64,
    files: Seq<RemoteFile>,
    n: int,
    i: int,
)
    requires
        crate::tree::known_wf(known, next_id),
        0 <= i < n <= files.len(),
        forall|j: int| 0 <= j < n ==> #[trigger] known.contains_key((dir, files[j].name@)),
        forall|a: int, b: int|
            0 <= a < b < files.len() ==> (#[trigger] files[a]).name@ != (#[trigger] files[b]).name@,
    ensures
        ({
            let b = crate::tree::with_listed(attrs, known, dir, files, n);
            let id = known[(dir, files[i].name@)];
            b.contains_key(id) && b[id] == crate::tree::attr_of(files[i])
        }),
    decreases n,
{
    if i < n - 1 {
        lemma_listed_attr(attrs, known, next_id, dir, files, n - 1, i);
        assert(known.contains_key((dir, files[i].name@)));
        assert(known.contains_key((dir, files[n - 1].name@)));
        assert(files[i].name@ != files[n - 1].name@);
    }
}

proof fn lemma_rows_all_known(ids: Seq<u64>, attrs: Map<u64, AttrView>, n: int)
    requires
        0 <= n <= ids.len(),
        forall|i: int| 0 <= i < ids.len() ==> attrs.contains_key(#[trigger] ids[i]),
    ensures
        crate::tree::known_rows(ids.subrange(0, n), attrs) == Seq::new(
            n as nat,
            |i: int| (ids[i], attrs[ids[i]]),
        ),
    decreases n,
{
    let a = ids.subrange(0, n);
    if n > 0 {
        lemma_rows_all_known(ids, attrs, n - 1);
        assert(a.drop_last() =~= ids.subrange(0, n - 1));
        assert(a.last() == ids[n - 1]);
    }
    assert(crate::tree::known_rows(a, attrs) =~= Seq::new(
        n as nat,
        |i: int| (ids[i], attrs[ids[i]]),
    ));
}

/// A listing that was taken in is trusted until its time is over, so no other one is asked for.
pub proof fn a_fresh_listing_is_not_asked_for_again(
    t: TreeView,
    dir: u64,
    files: Seq<RemoteFile>,
    now: u64,
    later: u64,
)
    ensures
        crate::tree::is_fresh(crate::tree::listing_applied(t, dir, files, now), dir, later) <==> later
            - now < LISTING_TTL_MILLIS,
{
}

/// After a change at a path became known, neither the directory that lists it nor a directory at the
/// path itself is served from memory, and nothing is known of a file there.
pub proof fn invalidation_forces_a_new_listing(
    t: TreeView,
    remote_path: Seq<char>,
    node: u64,
    now: u64,
)
    requires
        t.attrs.contains_key(node),
    ensures
        ({
            let u = crate::tree::invalidated(t, remote_path);
            let a = t.attrs[node];
            &&& a.is_dir && a.remote_path == remote_path ==> !crate::tree::is_fresh(u, node, now)
                && u.attrs.contains_key(node)
            &&& a.is_dir && (crate::text::rsplit_once_at(remote_path, '/') matches Some(parts)
                && a.remote_path == parts.0) ==> !crate::tree::is_fresh(u, node, now)
            &&& !a.is_dir && a.remote_path == remote_path ==> !u.attrs.contains_key(node)
        }),
{
}

/// An entry that exists only here survives every listing of its directory, under the same node.
pub proof fn local_entries_survive_listings(
    t: TreeView,
    dir: u64,
    files: Seq<RemoteFile>,
    now: u64,
    name: Seq<char>,
)
    requires
        crate::tree::tree_wf(t),
        dir < t.next_id,
        t.next_id + files.len() <= u64::MAX,
        t.known.contains_key((dir, name)),
        t.attrs.contains_key(t.known[(dir, name)]),
        forall|p: u64| !#[trigger] crate::reach::edge(t.children, p, t.known[(dir, name)]),
    ensures
        ({
            let u = crate::tree::listing_applied(t, dir, files, now);
            &&& u.known.contains_key((dir, name))
            &&& u.known[(dir, name)] == t.known[(dir, name)]
            &&& u.attrs.contains_key(t.known[(dir, name)])
            &&& crate::tree::is_known_child(u, dir, t.known[(dir, name)])
        }),
{
    let n = files.len() as int;
    let id = t.known[(dir, name)];
    let u = crate::tree::listing_applied(t, dir, files, now);
    let asg = crate::tree::assigned(t.known, t.next_id, dir, files, n);
    crate::tree::lemma_assigned(t.known, t.next_id, dir, files, n);
    crate::tree::lemma_with_listed(t.attrs, asg.0, asg.1, dir, files, n);
    crate::tree::lemma_gone_after_dir(t, dir, files);
    let ghosts = crate::tree::ghosts(t, dir, files);
    if crate::reach::below(t.children, ghosts).contains(id) {
        let a = choose|a: u64| #[trigger]
            ghosts.contains(a) && crate::reach::reaches(t.children, a, id);
        crate::reach::lemma_reaches_last(t.children, a, id);
        assert(crate::reach::edge(t.children, dir, a));
    }
    assert(!crate::tree::names_in(dir, t.attrs, ghosts).contains((dir, name))) by {
        if crate::tree::names_in(dir, t.attrs, ghosts).contains((dir, name)) {
            let c = choose|c: u64| #[trigger] ghosts.contains(c) && t.attrs[c].name == name;
            assert(crate::reach::edge(t.children, dir, c));
            let nm = choose|nm: Seq<char>| #[trigger]
                t.known.contains_key((dir, nm)) && t.known[(dir, nm)] == c;
            assert(t.attrs[t.known[(dir, nm)]].name == nm);
        }
    }
    assert(u.known.contains_key((dir, name)));
}

/// A listing of one directory leaves every other directory as it is, unless that one lay below an entry
/// that the listing no longer holds: its listing, when it was taken, and the nodes that bear names in it.
pub proof fn a_listing_leaves_other_directories_alone(
    t: TreeView,
    dir: u64,
    files: Seq<RemoteFile>,
    now: u64,
    other: u64,
    name: Seq<char>,
)
    requires
        crate::tree::tree_wf(t),
        dir < t.next_id,
        t.next_id + files.len() <= u64::MAX,
        other != dir,
        forall|g: u64| #[trigger]
            crate::reach::edge(t.children, dir, g) && t.attrs.contains_key(g) && !(exists|i: int|
                0 <= i < files.len() && (#[trigger] files[i]).name@ == t.attrs[g].name)
                ==> !crate::reach::reaches(t.children, g, other),
    ensures
        ({
            let u = crate::tree::listing_applied(t, dir, files, now);
            &&& same_at(u.children, t.children, other)
            &&& same_at(u.listed_at, t.listed_at, other)
            &&& same_at(u.known, t.known, (other, name))
        }),
{
    let n = files.len() as int;
    let u = crate::tree::listing_applied(t, dir, files, now);
    let ghosts = crate::tree::ghosts(t, dir, files);
    let gone = crate::reach::below(t.children, ghosts);
    crate::tree::lemma_assigned(t.known, t.next_id, dir, files, n);
    if gone.contains(other) {
        let a = choose|a: u64| #[trigger]
            ghosts.contains(a) && crate::reach::reaches(t.children, a, other);
        assert(crate::reach::edge(t.children, dir, a));
    }
    let known = crate::tree::assigned(t.known, t.next_id, dir, files, n).0;
    lemma_assigned_elsewhere(t.known, t.next_id, dir, files, n, (other, name));
    let attrs = crate::tree::with_listed(t.attrs, known, dir, files, n);
    assert(!crate::tree::names_in(dir, t.attrs, ghosts).contains((other, name)));
    assert(!crate::tree::names_below(t.children, attrs, gone).contains((other, name)));
}

proof fn lemma_assigned_elsewhere(
    known: Map<(u64, Seq<char>), u64>,
    next_id: u64,
    dir: u64,
    files: Seq<RemoteFile>,
    n: int,
    key: (u64, Seq<char>),
)
    requires
        key.0 != dir,
        0 <= n <= files.len(),
    ensures
        ({
            let a = crate::tree::assigned(known, next_id, dir, files, n).0;
            (a.contains_key(key) <==> known.contains_key(key)) && a[key] == known[key]
        }),
    decreases n,
{
    if n > 0 {
        lemma_assigned_elsewhere(known, next_id, dir, files, n - 1, key);
    }
}

/// What is known of an entry is what the server told of it: its name, path and size, where the size is
/// told at all; it is a directory if and only if the server says so; and its version is the one that the
/// server named, or none.
pub proof fn an_entry_is_known_as_the_server_told(f: RemoteFile)
    ensures
        ({
            let a = crate::tree::attr_of(f);
            &&& a.name == f.name@
            &&& a.remote_path == f.path@
            &&& f.size >= 0 ==> a.size == f.size
            &&& f.size < 0 ==> a.size == 0
            &&& a.is_dir <==> f.file_type == 1
            &&& f.primary_entity matches Some(e) ==> a.etag == e@
            &&& f.primary_entity is None ==> a.etag == Seq::<char>::empty()
            &&& crate::tree::rfc3339_timestamp(f.updated_at@) matches Some(at) ==> a.mtime_secs == at
            &&& crate::tree::rfc3339_timestamp(f.updated_at@) is None ==> a.mtime_secs == 0
        }),
{
}

/// A change at a path makes nothing forgotten but the files there, and no listing old but that of the
/// directory there and of the one that holds it.
pub proof fn an_invalidation_touches_nothing_else(t: TreeView, remote_path: Seq<char>, node: u64)
    requires
        t.attrs.contains_key(node),
        t.attrs[node].remote_path != remote_path,
    ensures
        ({
            let u = crate::tree::invalidated(t, remote_path);
            let holds = crate::text::rsplit_once_at(remote_path, '/') matches Some(parts)
                && t.attrs[node].remote_path == parts.0;
            &&& u.attrs.contains_key(node)
            &&& u.attrs[node] == t.attrs[node]
            &&& !(t.attrs[node].is_dir && holds) ==> same_at(u.listed_at, t.listed_at, node)
            &&& u.children == t.children
            &&& u.known == t.known
            &&& u.next_id == t.next_id
        }),
{
}

/// A path that was removed or renamed is forgotten, whether it was a file or a directory, but for the root;
/// nothing else is, and no listing is made old but those that a change there makes old.
pub proof fn forgetting_takes_one_path(t: TreeView, remote_path: Seq<char>, node: u64, now: u64)
    requires
        t.attrs.contains_key(node),
    ensures
        ({
            let u = crate::tree::forgotten(t, remote_path);
            let a = t.attrs[node];
            let holds = crate::text::rsplit_once_at(remote_path, '/') matches Some(parts)
                && a.remote_path == parts.0;
            &&& u.attrs.contains_key(node) <==> a.remote_path != remote_path || node
                == crate::tree::ROOT_ID
            &&& u.attrs.contains_key(node) ==> u.attrs[node] == a
            &&& a.is_dir && (holds || a.remote_path == remote_path) ==> !crate::tree::is_fresh(
                u,
                node,
                now,
            )
            &&& !holds && a.remote_path != remote_path ==> same_at(u.listed_at, t.listed_at, node)
            &&& u.children == t.children
            &&& u.known == t.known
            &&& u.next_id == t.next_id
        }),
{
}

/// An entry that is made here bears its name in its directory from then on, as an empty file that the
/// server has not seen: under the node that bore the name before, or under one that no name ever bore. All
/// other names keep their nodes, and of no other node anything changes.
pub proof fn an_entry_made_here_is_an_empty_file(
    t: TreeView,
    parent: u64,
    name: Seq<char>,
    other: u64,
    key: (u64, Seq<char>),
)
    requires
        crate::tree::tree_wf(t),
        t.next_id < u64::MAX,
        t.attrs.contains_key(parent),
    ensures
        ({
            let u = crate::tree::local_inserted(t, parent, name);
            let id = u.known[(parent, name)];
            let a = u.attrs[id];
            &&& u.known.contains_key((parent, name))
            &&& t.known.contains_key((parent, name)) ==> id == t.known[(parent, name)]
            &&& !t.known.contains_key((parent, name)) ==> !t.attrs.contains_key(id) && id
                < u.next_id && (t.known.contains_key(key) ==> t.known[key] != id)
            &&& u.attrs.contains_key(id)
            &&& a.name == name
            &&& a.remote_path == t.attrs[parent].remote_path + seq!['/'] + name
            &&& a.size == 0
            &&& !a.is_dir
            &&& a.etag.len() == 0
            &&& other != id ==> (u.attrs.contains_key(other) <==> t.attrs.contains_key(other))
                && u.attrs[other] == t.attrs[other]
            &&& key != (parent, name) ==> (u.known.contains_key(key) <==> t.known.contains_key(key))
                && u.known[key] == t.known[key]
            &&& u.children == t.children
            &&& u.listed_at == t.listed_at
        }),
{
}

proof fn lemma_first_at_path(list: Seq<(u64, AttrView)>, remote_path: Seq<char>)
    ensures
        match crate::tree::first_at_path(list, remote_path) {
            Some(row) => exists|i: int|
                0 <= i < list.len() && #[trigger] list[i] == row && row.1.remote_path == remote_path
                    && forall|j: int| 0 <= j < i ==> (#[trigger] list[j]).1.remote_path != remote_path,
            None => forall|i: int| 0 <= i < list.len() ==> (#[trigger] list[i]).1.remote_path != remote_path,
        },
    decreases list.len(),
{
    if list.len() > 0 {
        let rest = list.drop_last();
        lemma_first_at_path(rest, remote_path);
        match crate::tree::first_at_path(rest, remote_path) {
            Some(row) => {
                let i = choose|i: int|
                    0 <= i < rest.len() && #[trigger] rest[i] == row && row.1.remote_path
                        == remote_path && forall|j: int|
                        0 <= j < i ==> (#[trigger] rest[j]).1.remote_path != remote_path;
                assert(list[i] == row);
                assert forall|j: int| 0 <= j < i implies (#[trigger] list[j]).1.remote_path
                    != remote_path by {
                    assert(rest[j] == list[j]);
                }
            },
            None => {
                assert forall|j: int| 0 <= j < list.len() - 1 implies (#[trigger] list[j]).1.remote_path
                    != remote_path by {
                    assert(rest[j] == list[j]);
                }
                assert(list[list.len() - 1] == list.last());
            },
        }
    }
}

/// The version that a listing tells of a path is that of the first entry there, and there is one if and
/// only if an entry of the listing has that path.
pub proof fn a_listing_tells_the_version_at_a_path(
    v: crate::vfs::VfsView,
    dir: u64,
    remote_path: Seq<char>,
    r: Option<String>,
)
    requires
        crate::vfs::etag_listed(v, dir, remote_path, r),
    ensures
        ({
            let rows = crate::tree::listed_rows(v.tree, dir);
            match r {
                Some(e) => exists|i: int|
                    0 <= i < rows.len() && (#[trigger] rows[i]).1.remote_path == remote_path
                        && rows[i].1.etag == e@ && forall|j: int|
                        0 <= j < i ==> (#[trigger] rows[j]).1.remote_path != remote_path,
                None => forall|i: int|
                    0 <= i < rows.len() ==> (#[trigger] rows[i]).1.remote_path != remote_path,
            }
        }),
{
    let rows = crate::tree::listed_rows(v.tree, dir);
    lemma_first_at_path(rows, remote_path);
    if let Some(row) = crate::tree::first_at_path(rows, remote_path) {
        let i = choose|i: int|
            0 <= i < rows.len() && #[trigger] rows[i] == row && row.1.remote_path == remote_path
                && forall|j: int| 0 <= j < i ==> (#[trigger] rows[j]).1.remote_path != remote_path;
        assert(rows[i].1.remote_path == remote_path);
    }
}

/// Before the version at a path is looked up, the directory that holds the path is listed again, if it is
/// known: its listing is old from then on, and nothing else changes.
pub proof fn the_directory_of_a_path_is_listed_again(
    v: crate::vfs::VfsView,
    dir: Seq<char>,
    name: Seq<char>,
    r: Option<crate::tree::NodeId>,
    w: crate::vfs::VfsView,
    node: u64,
    now: u64,
)
    requires
        !name.contains('/'),
        crate::vfs::listing_expired(v, dir + seq!['/'] + name, r, w),
    ensures
        r is None ==> w == v,
        r is None ==> !(v.tree.attrs.contains_key(node) && v.tree.attrs[node].is_dir
            && v.tree.attrs[node].remote_path == dir),
        r matches Some(d) ==> {
            &&& v.tree.attrs.contains_key(d.0)
            &&& v.tree.attrs[d.0].is_dir
            &&& v.tree.attrs[d.0].remote_path == dir
            &&& !crate::tree::is_fresh(w.tree, d.0, now)
            &&& node != d.0 ==> same_at(w.tree.listed_at, v.tree.listed_at, node)
            &&& w.tree.attrs == v.tree.attrs
            &&& w.tree.children == v.tree.children
            &&& w.drafts == v.drafts
        },
{
    crate::text_laws::splitting_undoes_joining(dir, '/', name);
    let path = dir + seq!['/'] + name;
    if r is None {
        let parts = crate::text::rsplit_once_at(path, '/')->0;
        assert(parts == (dir, name));
        assert(!crate::tree::is_dir_at(v.tree, node, parts.0));
    }
}

/// A name is looked up in a list from the front: what is found is the first entry of that name, and
/// nothing is found if and only if no entry has it.
pub proof fn a_name_is_looked_up_from_the_front(list: Seq<(u64, AttrView)>, name: Seq<char>)
    ensures
        match crate::tree::first_named(list, name) {
            Some(row) => exists|i: int|
                0 <= i < list.len() && #[trigger] list[i] == row && row.1.name == name && forall|j: int|
                    0 <= j < i ==> (#[trigger] list[j]).1.name != name,
            None => forall|i: int| 0 <= i < list.len() ==> (#[trigger] list[i]).1.name != name,
        },
    decreases list.len(),
{
    if list.len() > 0 {
        let rest = list.drop_last();
        a_name_is_looked_up_from_the_front(rest, name);
        match crate::tree::first_named(rest, name) {
            Some(row) => {
                let i = choose|i: int|
                    0 <= i < rest.len() && #[trigger] rest[i] == row && row.1.name == name && forall|
                        j: int,
                    |
                        0 <= j < i ==> (#[trigger] rest[j]).1.name != name;
                assert(list[i] == row);
                assert forall|j: int| 0 <= j < i implies (#[trigger] list[j]).1.name != name by {
                    assert(rest[j] == list[j]);
                }
            },
            None => {
                assert forall|j: int| 0 <= j < list.len() - 1 implies (#[trigger] list[j]).1.name
                    != name by {
                    assert(rest[j] == list[j]);
                }
                assert(list[list.len() - 1] == list.last());
            },
        }
    }
}

/// A listing that is five seconds old or more is asked for, under the path of its directory, wherever that
/// is known; a younger one is not.
pub proof fn an_old_listing_is_asked_for(
    t: TreeView,
    dir: u64,
    now: u64,
    r: Result<Option<String>, crate::error::VfsError>,
)
    requires
        crate::tree::listing_planned(t, dir, now, r),
    ensures
        ({
            let young = t.children.contains_key(dir) && t.listed_at.contains_key(dir) && now
                < t.listed_at[dir] + 5_000;
            &&& (r matches Ok(None)) <==> young
            &&& r is Err <==> !young && !t.attrs.contains_key(dir)
            &&& r matches Ok(Some(path)) ==> path@ == t.attrs[dir].remote_path
        }),
{
    assert(LISTING_TTL_MILLIS == 5_000);
}

} // verus!
