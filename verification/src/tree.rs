//! The lazy directory tree.
//!
//! A directory's children exist in memory only once something reads the directory, so mounting
//! costs nothing, however large the drive is. A listing is trusted for [`LISTING_TTL_MILLIS`] and
//! can be forgotten early by [`VfsTree::invalidate_path`]. This module says when a directory is to
//! be listed and takes the listing in; the caller talks to the server.

use vstd::prelude::*;

use crate::error::VfsError;
use crate::idmap::IdMap;
use crate::keymap::{KeyMap, MapKey};
use crate::text::{join_child, rsplit_once, same};

verus! {

/// How long a listing is trusted, in milliseconds.
pub const LISTING_TTL_MILLIS: u64 = 5_000;

/// How many entries one page of a listing holds.
pub const PAGE_SIZE: i32 = 200;

/// The server's number for a folder.
pub const FOLDER: i32 = 1;

/// Number of the root.
pub const ROOT_ID: u64 = 1;

/// A node of the tree. Each pair of a parent and a name gets one of its own, once and for all.
#[derive(Debug, Clone, Copy, PartialEq, Eq, Hash, Structural)]
pub struct NodeId(pub u64);

/// What is known of a node without listing it.
#[derive(Debug)]
pub struct NodeAttr {
    pub name: String,
    /// The full remote path, as the server gives it.
    pub remote_path: String,
    pub size: u64,
    pub mtime_secs: i64,
    pub is_dir: bool,
    /// Version of the content; empty for a directory.
    pub etag: String,
}

/// A [`NodeAttr`] as plain values.
#[verifier::ext_equal]
pub struct AttrView {
    pub name: Seq<char>,
    pub remote_path: Seq<char>,
    pub size: u64,
    pub mtime_secs: i64,
    pub is_dir: bool,
    pub etag: Seq<char>,
}

impl View for NodeAttr {
    type V = AttrView;

    open spec fn view(&self) -> AttrView {
        AttrView {
            name: self.name@,
            remote_path: self.remote_path@,
            size: self.size,
            mtime_secs: self.mtime_secs,
            is_dir: self.is_dir,
            etag: self.etag@,
        }
    }
}

impl Clone for NodeAttr {
    fn clone(&self) -> (r: Self)
        ensures
            r == *self,
    {
        NodeAttr {
            name: self.name.clone(),
            remote_path: self.remote_path.clone(),
            size: self.size,
            mtime_secs: self.mtime_secs,
            is_dir: self.is_dir,
            etag: self.etag.clone(),
        }
    }
}

/// One entry of a directory listing, as the server sends it.
#[derive(Debug)]
pub struct RemoteFile {
    pub name: String,
    pub path: String,
    pub size: i64,
    pub updated_at: String,
    pub file_type: i32,
    pub primary_entity: Option<String>,
}

/// A name in a directory.
pub struct ChildKey {
    pub parent: u64,
    pub name: String,
}

impl View for ChildKey {
    type V = (u64, Seq<char>);

    open spec fn view(&self) -> (u64, Seq<char>) {
        (self.parent, self.name@)
    }
}

impl MapKey for ChildKey {
    fn same_key(&self, other: &ChildKey) -> (r: bool) {
        self.parent == other.parent && same(self.name.as_str(), other.name.as_str())
    }
}

/// The directory tree.
pub struct VfsTree {
    attrs: IdMap<NodeAttr>,
    children: IdMap<Vec<u64>>,
    listed_at: IdMap<u64>,
    known_children: KeyMap<ChildKey, u64>,
    next_id: u64,
}

/// A [`VfsTree`] as plain values.
#[verifier::ext_equal]
pub struct TreeView {
    pub attrs: Map<u64, AttrView>,
    /// The children of each directory that was listed.
    pub children: Map<u64, Seq<u64>>,
    /// When each listing that is still trusted was made, in milliseconds.
    pub listed_at: Map<u64, u64>,
    /// The node of each name in a directory.
    pub known: Map<(u64, Seq<char>), u64>,
    pub next_id: u64,
}

impl View for VfsTree {
    type V = TreeView;

    closed spec fn view(&self) -> TreeView {
        TreeView {
            attrs: self.attrs@,
            children: self.children@,
            listed_at: self.listed_at@,
            known: self.known_children@,
            next_id: self.next_id,
        }
    }
}

// ---------------------------------------------------------------------------
// Listing entries.
// ---------------------------------------------------------------------------

/// The time that an RFC 3339 string names, in seconds since 1970; nothing where it names none.
pub uninterp spec fn rfc3339_timestamp(s: Seq<char>) -> Option<i64>;

/// Calls `chrono::DateTime::parse_from_rfc3339` and reads the parsed time as seconds since 1970.
///
/// The contract claims that the result depends on the string alone. Which strings are accepted is
/// left to the crate.
#[verifier::external_body]
fn parse_timestamp(s: &str) -> (r: Option<i64>)
    ensures
        r == rfc3339_timestamp(s@),
{
    chrono::DateTime::parse_from_rfc3339(s).ok().map(|t| t.timestamp())
}

/// Seconds since 1970 for a server's time: zero where the string cannot be read, so that one bad
/// clock does not spoil a listing.
pub fn parse_rfc3339(s: &str) -> (r: i64)
    ensures
        r == timestamp_or_zero(rfc3339_timestamp(s@)),
{
    or_zero(parse_timestamp(s))
}

/// The time that was read, or zero.
pub open spec fn timestamp_or_zero(parsed: Option<i64>) -> i64 {
    match parsed {
        Some(t) => t,
        None => 0,
    }
}

/// The time that was read, or zero.
pub fn or_zero(parsed: Option<i64>) -> (r: i64)
    ensures
        r == timestamp_or_zero(parsed),
{
    match parsed {
        Some(t) => t,
        None => 0,
    }
}

/// What a listing says of one entry.
pub open spec fn attr_of(f: RemoteFile) -> AttrView {
    AttrView {
        name: f.name@,
        remote_path: f.path@,
        size: (if f.size < 0 {
            0
        } else {
            f.size as int
        }) as u64,
        mtime_secs: timestamp_or_zero(rfc3339_timestamp(f.updated_at@)),
        is_dir: f.file_type == FOLDER,
        etag: match f.primary_entity {
            Some(e) => e@,
            None => Seq::empty(),
        },
    }
}

fn to_attr(f: &RemoteFile) -> (r: NodeAttr)
    ensures
        r@ == attr_of(*f),
{
    NodeAttr {
        name: f.name.clone(),
        remote_path: f.path.clone(),
        size: if f.size < 0 {
            0
        } else {
            f.size as u64
        },
        mtime_secs: parse_rfc3339(f.updated_at.as_str()),
        is_dir: f.file_type == FOLDER,
        etag: match &f.primary_entity {
            Some(e) => e.clone(),
            None => String::new(),
        },
    }
}

// ---------------------------------------------------------------------------
// What keeps the tree in order.
// ---------------------------------------------------------------------------

/// Whether the tree is in order: every known name has a node of its own, with a higher number than
/// its parent's; a directory lists only nodes known in it; a node's attributes bear the name by
/// which it is known; and the root is there.
pub open spec fn tree_wf(t: TreeView) -> bool {
    &&& forall|k: (u64, Seq<char>)| #[trigger]
        t.known.contains_key(k) ==> ROOT_ID < t.known[k] < t.next_id && k.0 < t.known[k]
    &&& forall|k: (u64, Seq<char>), j: (u64, Seq<char>)|
        #![trigger t.known.contains_key(k), t.known.contains_key(j)]
        t.known.contains_key(k) && t.known.contains_key(j) && t.known[k] == t.known[j] ==> k == j
    &&& forall|p: u64, c: u64| #[trigger]
        crate::reach::edge(t.children, p, c) ==> exists|name: Seq<char>| #[trigger]
            t.known.contains_key((p, name)) && t.known[(p, name)] == c
    &&& forall|k: (u64, Seq<char>)| #[trigger]
        t.known.contains_key(k) && t.attrs.contains_key(t.known[k]) ==> t.attrs[t.known[k]].name
            == k.1
    &&& t.attrs.contains_key(ROOT_ID)
    &&& t.attrs[ROOT_ID].is_dir
    &&& forall|id: u64| #[trigger] t.attrs.contains_key(id) ==> id < t.next_id
    &&& t.next_id > ROOT_ID
}

/// A tree with nothing but its root, which stands for the remote directory `remote_base`.
pub open spec fn new_tree(remote_base: Seq<char>) -> TreeView {
    TreeView {
        attrs: Map::empty().insert(
            ROOT_ID,
            AttrView {
                name: Seq::empty(),
                remote_path: remote_base,
                size: 0,
                mtime_secs: 0,
                is_dir: true,
                etag: Seq::empty(),
            },
        ),
        children: Map::empty(),
        listed_at: Map::empty(),
        known: Map::empty(),
        next_id: 2,
    }
}

impl VfsTree {
    /// Whether the tree is in order (see [`tree_wf`]).
    pub closed spec fn wf(&self) -> bool {
        &&& self.known_children.wf()
        &&& tree_wf(self@)
    }

    /// What being in order says of the tree.
    pub proof fn lemma_wf(&self)
        requires
            self.wf(),
        ensures
            tree_wf(self@),
    {
    }

    /// A tree with nothing but its root, which stands for the remote directory `remote_base`.
    pub fn new(remote_base: &str) -> (r: Self)
        ensures
            r.wf(),
            r@ == new_tree(remote_base@),
    {
        let mut attrs: IdMap<NodeAttr> = IdMap::new();
        attrs.insert(
            ROOT_ID,
            NodeAttr {
                name: String::new(),
                remote_path: remote_base.to_owned(),
                size: 0,
                mtime_secs: 0,
                is_dir: true,
                etag: String::new(),
            },
        );
        let tree = VfsTree {
            attrs,
            children: IdMap::new(),
            listed_at: IdMap::new(),
            known_children: KeyMap::new(),
            next_id: 2,
        };
        assert(tree@ =~= new_tree(remote_base@));
        tree
    }

    /// The root.
    pub fn root(&self) -> (r: NodeId)
        ensures
            r.0 == ROOT_ID,
    {
        NodeId(ROOT_ID)
    }

    /// What is known of a node. Never lists anything.
    pub fn getattr(&self, node: NodeId) -> (r: Option<NodeAttr>)
        requires
            self.wf(),
        ensures
            match r {
                Some(a) => self@.attrs.contains_key(node.0) && a@ == self@.attrs[node.0],
                None => !self@.attrs.contains_key(node.0),
            },
    {
        match self.attrs.get(&node.0) {
            Some(a) => Some(a.clone()),
            None => None,
        }
    }
}

// ---------------------------------------------------------------------------
// Taking a listing in.
// ---------------------------------------------------------------------------

/// Whether the listing of `dir` is still trusted at `now`.
pub open spec fn is_fresh(t: TreeView, dir: u64, now: u64) -> bool {
    &&& t.children.contains_key(dir)
    &&& t.listed_at.contains_key(dir)
    &&& now - t.listed_at[dir] < LISTING_TTL_MILLIS
}

/// Whether a listing names `name`.
pub open spec fn names(files: Seq<RemoteFile>, name: Seq<char>) -> bool {
    exists|i: int| 0 <= i < files.len() && (#[trigger] files[i]).name@ == name
}

/// The names known after the first `n` entries of a listing of `dir` were taken in, and the number
/// for the next new node: a name that was known keeps its node, every other gets a new one.
pub open spec fn assigned(
    known: Map<(u64, Seq<char>), u64>,
    next_id: u64,
    dir: u64,
    files: Seq<RemoteFile>,
    n: int,
) -> (Map<(u64, Seq<char>), u64>, int)
    decreases n,
{
    if n <= 0 {
        (known, next_id as int)
    } else {
        let before = assigned(known, next_id, dir, files, n - 1);
        let key = (dir, files[n - 1].name@);
        if before.0.contains_key(key) {
            before
        } else {
            (before.0.insert(key, before.1 as u64), before.1 + 1)
        }
    }
}

/// The attributes after the first `n` entries of a listing of `dir` were taken in.
pub open spec fn with_listed(
    attrs: Map<u64, AttrView>,
    known: Map<(u64, Seq<char>), u64>,
    dir: u64,
    files: Seq<RemoteFile>,
    n: int,
) -> Map<u64, AttrView>
    decreases n,
{
    if n <= 0 {
        attrs
    } else {
        with_listed(attrs, known, dir, files, n - 1).insert(
            known[(dir, files[n - 1].name@)],
            attr_of(files[n - 1]),
        )
    }
}

/// The children of `dir` that a fresh listing no longer names.
pub open spec fn ghosts(t: TreeView, dir: u64, files: Seq<RemoteFile>) -> Set<u64> {
    Set::new(
        |c: u64|
            crate::reach::edge(t.children, dir, c) && t.attrs.contains_key(c) && !names(
                files,
                t.attrs[c].name,
            ),
    )
}

/// The names in the directories of `gone`, of those children that have attributes.
pub open spec fn names_below(
    children: Map<u64, Seq<u64>>,
    attrs: Map<u64, AttrView>,
    gone: Set<u64>,
) -> Set<(u64, Seq<char>)> {
    Set::new(
        |k: (u64, Seq<char>)|
            gone.contains(k.0) && exists|c: u64| #[trigger]
                crate::reach::edge(children, k.0, c) && attrs.contains_key(c) && attrs[c].name
                    == k.1,
    )
}

/// The names of `ids` in `dir`.
pub open spec fn names_in(dir: u64, attrs: Map<u64, AttrView>, ids: Set<u64>) -> Set<
    (u64, Seq<char>),
> {
    Set::new(
        |k: (u64, Seq<char>)|
            k.0 == dir && exists|c: u64| #[trigger] ids.contains(c) && attrs[c].name == k.1,
    )
}

/// The tree after a fresh listing of `dir` was taken in.
///
/// Names that the listing holds keep their nodes. A child that it no longer names goes, with all
/// that lies below it.
pub open spec fn listing_applied(
    t: TreeView,
    dir: u64,
    files: Seq<RemoteFile>,
    now: u64,
) -> TreeView {
    let n = files.len() as int;
    let gone = crate::reach::below(t.children, ghosts(t, dir, files));
    let known = assigned(t.known, t.next_id, dir, files, n).0;
    let attrs = with_listed(t.attrs, known, dir, files, n);
    let dead = names_in(dir, t.attrs, ghosts(t, dir, files)).union(
        names_below(t.children, attrs, gone),
    );
    TreeView {
        attrs: attrs.remove_keys(gone),
        children: t.children.remove_keys(gone).insert(
            dir,
            Seq::new(files.len(), |i: int| known[(dir, files[i].name@)]),
        ),
        listed_at: t.listed_at.remove_keys(gone).insert(dir, now),
        known: known.remove_keys(dead),
        next_id: assigned(t.known, t.next_id, dir, files, n).1 as u64,
    }
}

fn contains_name(files: &Vec<RemoteFile>, name: &str) -> (r: bool)
    ensures
        r == names(files@, name@),
{
    let mut i: usize = 0;
    while i < files.len()
        invariant
            i <= files@.len(),
            forall|j: int| 0 <= j < i ==> (#[trigger] files@[j]).name@ != name@,
        decreases files@.len() - i,
    {
        if same(files[i].name.as_str(), name) {
            return true;
        }
        i = i + 1;
    }
    false
}

fn has_id(ids: &Vec<u64>, id: u64) -> (r: bool)
    ensures
        r == ids@.contains(id),
{
    let mut i: usize = 0;
    while i < ids.len()
        invariant
            i <= ids@.len(),
            forall|j: int| 0 <= j < i ==> ids@[j] != id,
        decreases ids@.len() - i,
    {
        if ids[i] == id {
            return true;
        }
        i = i + 1;
    }
    false
}

/// The nodes `roots` and all that lie below them.
fn collect_below(children: &IdMap<Vec<u64>>, roots: &Vec<u64>) -> (r: Vec<u64>)
    ensures
        r@.to_set() == crate::reach::below(children@, roots@.to_set()),
{
    let ghost g = children@;
    let ghost want = crate::reach::below(g, roots@.to_set());
    let mut found: Vec<u64> = Vec::new();
    let mut q: usize = 0;
    while q < roots.len()
        invariant
            q <= roots@.len(),
            g == children@,
            want == crate::reach::below(g, roots@.to_set()),
            found@.no_duplicates(),
            forall|x: u64| #[trigger] found@.contains(x) ==> want.contains(x),
            forall|j: int| 0 <= j < q ==> found@.contains(#[trigger] roots@[j]),
        decreases roots@.len() - q,
    {
        let a: u64 = roots[q];
        if !has_id(&found, a) {
            let ghost before = found@;
            found.push(a);
            proof {
                assert(roots@.to_set().contains(a)) by {
                    assert(roots@[q as int] == a);
                }
                crate::reach::lemma_reaches_self(g, a);
                assert(want.contains(a));
                lemma_push_contains(before, a);
            }
        }
        q = q + 1;
    }
    let mut i: usize = 0;
    proof {
        children.lemma_finite();
        assert(found@.subrange(0, 0).to_set() =~= Set::<u64>::empty());
        assert(g.dom().difference(found@.subrange(0, 0).to_set()) =~= g.dom());
    }
    while i < found.len()
        invariant
            i <= found@.len(),
            g == children@,
            g.dom().finite(),
            want == crate::reach::below(g, roots@.to_set()),
            found@.no_duplicates(),
            forall|x: u64| #[trigger] found@.contains(x) ==> want.contains(x),
            forall|j: int| 0 <= j < roots@.len() ==> found@.contains(#[trigger] roots@[j]),
            forall|j: int, c: u64|
                0 <= j < i && #[trigger] crate::reach::edge(g, found@[j], c) ==> found@.contains(c),
        decreases
            g.dom().difference(found@.subrange(0, i as int).to_set()).len(),
            found@.len() - i,
    {
        let ghost start = found@;
        let p: u64 = found[i];
        proof {
            assert(found@.contains(p)) by {
                assert(found@[i as int] == p);
            }
        }
        match children.get(&p) {
            Some(list) => {
                let mut j: usize = 0;
                while j < list.len()
                    invariant
                        j <= list@.len(),
                        i < start.len() <= found@.len(),
                        start == found@.subrange(0, start.len() as int),
                        start[i as int] == p,
                        g == children@,
                        g.contains_key(p),
                        g[p] == list@,
                        want == crate::reach::below(g, roots@.to_set()),
                        want.contains(p),
                        found@.no_duplicates(),
                        forall|x: u64| #[trigger] found@.contains(x) ==> want.contains(x),
                        forall|x: u64| #[trigger] start.contains(x) ==> found@.contains(x),
                        forall|k: int| 0 <= k < j ==> found@.contains(#[trigger] list@[k]),
                    decreases list@.len() - j,
                {
                    let c: u64 = list[j];
                    if !has_id(&found, c) {
                        let ghost before = found@;
                        found.push(c);
                        proof {
                            assert(crate::reach::edge(g, p, c)) by {
                                assert(list@[j as int] == c);
                            }
                            let a = choose|a: u64| #[trigger]
                                roots@.to_set().contains(a) && crate::reach::reaches(g, a, p);
                            crate::reach::lemma_reaches_step(g, a, p, c);
                            assert(want.contains(c));
                            lemma_push_contains(before, c);
                            assert(start =~= found@.subrange(0, start.len() as int));
                        }
                    }
                    j = j + 1;
                }
                proof {
                    let a = start.subrange(0, i as int);
                    let b = found@.subrange(0, i + 1);
                    assert(b =~= a.push(p)) by {
                        assert forall|k: int| 0 <= k < i implies b[k] == a[k] by {
                            assert(start[k] == found@.subrange(0, start.len() as int)[k]);
                        }
                        assert(start[i as int] == found@.subrange(0, start.len() as int)[i as int]);
                    }
                    lemma_done_shrinks(g.dom(), a, p);
                    assert forall|k: int, c: u64|
                        0 <= k < i + 1 && #[trigger] crate::reach::edge(g, found@[k], c) implies found@.contains(
                        c,
                    ) by {
                        assert(found@[k] == start[k]);
                        if k == i {
                            let z = choose|z: int| 0 <= z < list@.len() && list@[z] == c;
                            assert(found@.contains(list@[z]));
                        } else {
                            assert(crate::reach::edge(g, start[k], c));
                        }
                    }
                    assert forall|k: int| 0 <= k < roots@.len() implies found@.contains(
                        #[trigger] roots@[k],
                    ) by {
                        assert(start.contains(roots@[k]));
                    }
                }
            },
            None => {
                proof {
                    let a = start.subrange(0, i as int);
                    let b = found@.subrange(0, i + 1);
                    assert(b =~= a.push(p));
                    lemma_push_contains(a, p);
                    assert(g.dom().difference(b.to_set()) =~= g.dom().difference(a.to_set()));
                }
            },
        }
        i = i + 1;
    }
    proof {
        let s = found@.to_set();
        assert(roots@.to_set().subset_of(s)) by {
            assert forall|x: u64| roots@.to_set().contains(x) implies s.contains(x) by {
                let j = choose|j: int| 0 <= j < roots@.len() && roots@[j] == x;
                assert(found@.contains(roots@[j]));
            }
        }
        assert(crate::reach::closed_under(g, s)) by {
            assert forall|a: u64, b: u64| s.contains(a) && #[trigger] crate::reach::edge(g, a, b) implies s.contains(
                b,
            ) by {
                let j = choose|j: int| 0 <= j < found@.len() && found@[j] == a;
                assert(crate::reach::edge(g, found@[j], b));
            }
        }
        crate::reach::lemma_below_least(g, roots@.to_set(), s);
        assert(s =~= want);
    }
    found
}

proof fn lemma_push_contains(s: Seq<u64>, a: u64)
    ensures
        forall|x: u64| #[trigger] s.push(a).contains(x) <==> s.contains(x) || x == a,
{
    assert forall|x: u64| #[trigger] s.push(a).contains(x) <==> s.contains(x) || x == a by {
        if s.contains(x) {
            let i = choose|i: int| 0 <= i < s.len() && s[i] == x;
            assert(s.push(a)[i] == x);
        }
        if x == a {
            assert(s.push(a)[s.len() as int] == x);
        }
    }
}

proof fn lemma_done_shrinks(keys: Set<u64>, done: Seq<u64>, p: u64)
    requires
        keys.finite(),
        keys.contains(p),
        !done.contains(p),
    ensures
        keys.difference(done.push(p).to_set()).len() < keys.difference(done.to_set()).len(),
{
    lemma_push_contains(done, p);
    let a = keys.difference(done.to_set());
    let b = keys.difference(done.push(p).to_set());
    assert(b =~= a.remove(p));
    assert(a.contains(p));
}

/// Takes the rows of `ids` out of a map.
fn remove_rows<V: View>(map: &mut IdMap<V>, ids: &Vec<u64>)
    ensures
        final(map)@ == old(map)@.remove_keys(ids@.to_set()),
{
    let ghost m = map@;
    let mut i: usize = 0;
    assert(m =~= m.remove_keys(ids@.subrange(0, 0).to_set()));
    while i < ids.len()
        invariant
            i <= ids@.len(),
            map@ == m.remove_keys(ids@.subrange(0, i as int).to_set()),
        decreases ids@.len() - i,
    {
        let gone = map.remove(&ids[i]);
        proof {
            let a = ids@.subrange(0, i as int);
            assert(ids@.subrange(0, i + 1) =~= a.push(ids@[i as int]));
            lemma_push_contains(a, ids@[i as int]);
            assert(map@ =~= m.remove_keys(ids@.subrange(0, i + 1).to_set()));
        }
        i = i + 1;
    }
    assert(ids@.subrange(0, ids@.len() as int) =~= ids@);
}

/// Takes the names in the directories `ids` out of the known ones.
fn remove_names(
    known: &mut KeyMap<ChildKey, u64>,
    children: &IdMap<Vec<u64>>,
    attrs: &IdMap<NodeAttr>,
    ids: &Vec<u64>,
)
    requires
        old(known).wf(),
    ensures
        final(known).wf(),
        final(known)@ == old(known)@.remove_keys(names_below(children@, attrs@, ids@.to_set())),
{
    let ghost m = known@;
    let ghost g = children@;
    let ghost a = attrs@;
    let mut i: usize = 0;
    assert(names_below(g, a, ids@.subrange(0, 0).to_set()) =~= Set::<(u64, Seq<char>)>::empty());
    assert(m =~= m.remove_keys(Set::<(u64, Seq<char>)>::empty()));
    while i < ids.len()
        invariant
            i <= ids@.len(),
            known.wf(),
            g == children@,
            a == attrs@,
            known@ == m.remove_keys(names_below(g, a, ids@.subrange(0, i as int).to_set())),
        decreases ids@.len() - i,
    {
        let p: u64 = ids[i];
        let ghost done = ids@.subrange(0, i as int);
        let ghost before = known@;
        proof {
            assert(ids@.subrange(0, i + 1) =~= done.push(p));
            lemma_push_contains(done, p);
        }
        match children.get(&p) {
            Some(list) => {
                let mut j: usize = 0;
                assert(before =~= before.remove_keys(listed_names(p, list@, a, 0)));
                while j < list.len()
                    invariant
                        j <= list@.len(),
                        known.wf(),
                        a == attrs@,
                        known@ == before.remove_keys(listed_names(p, list@, a, j as int)),
                    decreases list@.len() - j,
                {
                    match attrs.get(&list[j]) {
                        Some(attr) => {
                            let gone = known.remove(
                                &(ChildKey { parent: p, name: attr.name.clone() }),
                            );
                        },
                        None => {},
                    }
                    proof {
                        assert(listed_names(p, list@, a, j + 1) =~= (if a.contains_key(
                            list@[j as int],
                        ) {
                            listed_names(p, list@, a, j as int).insert((p, a[list@[j as int]].name))
                        } else {
                            listed_names(p, list@, a, j as int)
                        }));
                        assert(known@ =~= before.remove_keys(listed_names(p, list@, a, j + 1)));
                    }
                    j = j + 1;
                }
                proof {
                    let n = list@.len() as int;
                    let all = names_below(g, a, done.push(p).to_set());
                    let old_names = names_below(g, a, done.to_set());
                    assert forall|k: (u64, Seq<char>)| all.contains(k) <==> old_names.contains(k)
                        || listed_names(p, list@, a, n).contains(k) by {
                        if listed_names(p, list@, a, n).contains(k) {
                            let z = choose|z: int|
                                0 <= z < n && a.contains_key(#[trigger] list@[z]) && a[list@[z]].name
                                    == k.1;
                            assert(crate::reach::edge(g, k.0, list@[z]));
                        }
                        if all.contains(k) && k.0 == p {
                            let c = choose|c: u64| #[trigger]
                                crate::reach::edge(g, k.0, c) && a.contains_key(c) && a[c].name
                                    == k.1;
                            let z = choose|z: int| 0 <= z < list@.len() && list@[z] == c;
                            assert(a.contains_key(list@[z]));
                        }
                        if old_names.contains(k) {
                            let c = choose|c: u64| #[trigger]
                                crate::reach::edge(g, k.0, c) && a.contains_key(c) && a[c].name
                                    == k.1;
                            assert(crate::reach::edge(g, k.0, c));
                        }
                    }
                    assert(known@ =~= m.remove_keys(all));
                }
            },
            None => {
                assert(names_below(g, a, done.push(p).to_set()) =~= names_below(
                    g,
                    a,
                    done.to_set(),
                ));
            },
        }
        i = i + 1;
    }
    assert(ids@.subrange(0, ids@.len() as int) =~= ids@);
}

/// The names in `p` of the first `n` listed children that have attributes.
spec fn listed_names(p: u64, list: Seq<u64>, attrs: Map<u64, AttrView>, n: int) -> Set<
    (u64, Seq<char>),
> {
    Set::new(
        |k: (u64, Seq<char>)|
            k.0 == p && exists|z: int|
                0 <= z < n && attrs.contains_key(#[trigger] list[z]) && attrs[list[z]].name == k.1,
    )
}

/// Every child has a higher number than its parent.
pub proof fn lemma_children_ascend(t: TreeView)
    requires
        tree_wf(t),
    ensures
        forall|p: u64, c: u64| #[trigger]
            crate::reach::edge(t.children, p, c) ==> p < c && ROOT_ID < c,
{
    assert forall|p: u64, c: u64| #[trigger] crate::reach::edge(t.children, p, c) implies p < c
        && ROOT_ID < c by {
        let name = choose|name: Seq<char>| #[trigger]
            t.known.contains_key((p, name)) && t.known[(p, name)] == c;
        assert(t.known.contains_key((p, name)));
    }
}

/// What goes with the ghosts of `dir` lies strictly after `dir`, so neither `dir` nor the root goes.
pub proof fn lemma_gone_after_dir(t: TreeView, dir: u64, files: Seq<RemoteFile>)
    requires
        tree_wf(t),
    ensures
        forall|x: u64| #[trigger]
            crate::reach::below(t.children, ghosts(t, dir, files)).contains(x) ==> dir < x && ROOT_ID
                < x,
{
    lemma_children_ascend(t);
    assert forall|x: u64| #[trigger]
        crate::reach::below(t.children, ghosts(t, dir, files)).contains(x) implies dir < x && ROOT_ID
        < x by {
        let a = choose|a: u64| #[trigger]
            ghosts(t, dir, files).contains(a) && crate::reach::reaches(t.children, a, x);
        assert(crate::reach::edge(t.children, dir, a));
        crate::reach::lemma_reaches_ascends(t.children, a, x);
    }
}

/// Whether every known name has a node of its own, with a higher number than its parent's.
pub open spec fn known_wf(known: Map<(u64, Seq<char>), u64>, next_id: int) -> bool {
    &&& forall|k: (u64, Seq<char>)| #[trigger]
        known.contains_key(k) ==> ROOT_ID < known[k] < next_id && k.0 < known[k]
    &&& forall|k: (u64, Seq<char>), j: (u64, Seq<char>)|
        #![trigger known.contains_key(k), known.contains_key(j)]
        known.contains_key(k) && known.contains_key(j) && known[k] == known[j] ==> k == j
}

/// Taking names in keeps the nodes of the names that were known, gives new names new nodes, and
/// knows every name that was taken in.
pub proof fn lemma_assigned(
    known: Map<(u64, Seq<char>), u64>,
    next_id: u64,
    dir: u64,
    files: Seq<RemoteFile>,
    n: int,
)
    requires
        known_wf(known, next_id as int),
        dir < next_id,
        ROOT_ID < next_id,
        0 <= n <= files.len(),
        next_id + files.len() <= u64::MAX,
    ensures
        ({
            let a = assigned(known, next_id, dir, files, n);
            &&& next_id <= a.1 <= next_id + n
            &&& known_wf(a.0, a.1)
            &&& forall|k: (u64, Seq<char>)| #[trigger]
                known.contains_key(k) ==> a.0.contains_key(k) && a.0[k] == known[k]
            &&& forall|i: int|
                0 <= i < n ==> #[trigger] a.0.contains_key((dir, files[i].name@))
            &&& forall|k: (u64, Seq<char>)| #[trigger]
                a.0.contains_key(k) && !known.contains_key(k) ==> k.0 == dir && names(files, k.1)
                    && a.0[k] >= next_id
        }),
    decreases n,
{
    if n > 0 {
        lemma_assigned(known, next_id, dir, files, n - 1);
        let before = assigned(known, next_id, dir, files, n - 1);
        let key = (dir, files[n - 1].name@);
        let a = assigned(known, next_id, dir, files, n);
        assert(names(files, files[n - 1].name@));
        assert forall|i: int| 0 <= i < n implies #[trigger] a.0.contains_key((dir, files[i].name@)) by {
            if i < n - 1 {
                assert(before.0.contains_key((dir, files[i].name@)));
            }
        }
    }
}

/// Which attributes a listing sets: those of the nodes that it names, each under its name; all
/// others stay.
pub proof fn lemma_with_listed(
    attrs: Map<u64, AttrView>,
    known: Map<(u64, Seq<char>), u64>,
    next_id: int,
    dir: u64,
    files: Seq<RemoteFile>,
    n: int,
)
    requires
        known_wf(known, next_id),
        0 <= n <= files.len(),
        forall|i: int| 0 <= i < n ==> #[trigger] known.contains_key((dir, files[i].name@)),
    ensures
        ({
            let b = with_listed(attrs, known, dir, files, n);
            &&& forall|id: u64| #[trigger] attrs.contains_key(id) ==> b.contains_key(id)
            &&& forall|id: u64| #[trigger]
                b.contains_key(id) ==> (attrs.contains_key(id) && b[id] == attrs[id]) || exists|
                    i: int,
                |
                    0 <= i < n && known[(dir, (#[trigger] files[i]).name@)] == id && b[id] == attr_of(
                        files[i],
                    )
            &&& forall|i: int|
                0 <= i < n ==> b.contains_key(known[(dir, (#[trigger] files[i]).name@)])
                    && b[known[(dir, files[i].name@)]].name == files[i].name@
        }),
    decreases n,
{
    if n > 0 {
        lemma_with_listed(attrs, known, next_id, dir, files, n - 1);
        let before = with_listed(attrs, known, dir, files, n - 1);
        let b = with_listed(attrs, known, dir, files, n);
        let id0 = known[(dir, files[n - 1].name@)];
        assert forall|id: u64| #[trigger] b.contains_key(id) implies (attrs.contains_key(id) && b[id]
            == attrs[id]) || exists|i: int|
            0 <= i < n && known[(dir, (#[trigger] files[i]).name@)] == id && b[id] == attr_of(
                files[i],
            ) by {
            if id == id0 {
                assert(known[(dir, files[n - 1].name@)] == id && b[id] == attr_of(files[n - 1]));
            } else {
                assert(before.contains_key(id));
                if !(attrs.contains_key(id) && before[id] == attrs[id]) {
                    let i = choose|i: int|
                        0 <= i < n - 1 && known[(dir, (#[trigger] files[i]).name@)] == id
                            && before[id] == attr_of(files[i]);
                    assert(known[(dir, files[i].name@)] == id && b[id] == attr_of(files[i]));
                }
            }
        }
        assert forall|i: int| 0 <= i < n implies b.contains_key(
            known[(dir, (#[trigger] files[i]).name@)],
        ) && b[known[(dir, files[i].name@)]].name == files[i].name@ by {
            assert(known.contains_key((dir, files[i].name@)));
            assert(known.contains_key((dir, files[n - 1].name@)));
            if known[(dir, files[i].name@)] != id0 {
                assert(i < n - 1);
            }
        }
    }
}

/// A tree in order stays in order when a listing is taken in.
pub proof fn lemma_listing_keeps_order(t: TreeView, dir: u64, files: Seq<RemoteFile>, now: u64)
    requires
        tree_wf(t),
        dir < t.next_id,
        t.next_id + files.len() <= u64::MAX,
    ensures
        tree_wf(listing_applied(t, dir, files, now)),
{
    let n = files.len() as int;
    let u = listing_applied(t, dir, files, now);
    let gone = crate::reach::below(t.children, ghosts(t, dir, files));
    let asg = assigned(t.known, t.next_id, dir, files, n);
    let known = asg.0;
    let attrs = with_listed(t.attrs, known, dir, files, n);
    let dead = names_in(dir, t.attrs, ghosts(t, dir, files)).union(
        names_below(t.children, attrs, gone),
    );
    lemma_assigned(t.known, t.next_id, dir, files, n);
    lemma_with_listed(t.attrs, known, asg.1, dir, files, n);
    lemma_gone_after_dir(t, dir, files);
    assert forall|p: u64, c: u64| #[trigger] crate::reach::edge(u.children, p, c) implies exists|
        name: Seq<char>,
    | #[trigger] u.known.contains_key((p, name)) && u.known[(p, name)] == c by {
        if p == dir {
            let i = choose|i: int| 0 <= i < u.children[dir].len() && u.children[dir][i] == c;
            let name = files[i].name@;
            assert(known.contains_key((dir, name)));
            assert(names(files, name));
            assert(!dead.contains((dir, name)));
            assert(u.known.contains_key((p, name)));
        } else {
            assert(crate::reach::edge(t.children, p, c));
            let name = choose|name: Seq<char>| #[trigger]
                t.known.contains_key((p, name)) && t.known[(p, name)] == c;
            assert(known.contains_key((p, name)));
            assert(!dead.contains((p, name)));
            assert(u.known.contains_key((p, name)));
        }
    }
    assert forall|k: (u64, Seq<char>)| #[trigger]
        u.known.contains_key(k) && u.attrs.contains_key(u.known[k]) implies u.attrs[u.known[k]].name
        == k.1 by {
        let id = known[k];
        assert(known.contains_key(k));
        assert(attrs.contains_key(id));
        if t.attrs.contains_key(id) && attrs[id] == t.attrs[id] {
            if t.known.contains_key(k) {
                assert(t.attrs[t.known[k]].name == k.1);
            } else {
                assert(id >= t.next_id);
            }
        } else {
            let i = choose|i: int|
                0 <= i < n && known[(dir, (#[trigger] files[i]).name@)] == id && attrs[id] == attr_of(
                    files[i],
                );
            assert(known.contains_key((dir, files[i].name@)));
            assert(k == (dir, files[i].name@));
        }
    }
    assert(u.attrs.contains_key(ROOT_ID) && u.attrs[ROOT_ID].is_dir) by {
        assert(attrs.contains_key(ROOT_ID));
        if !(attrs[ROOT_ID] == t.attrs[ROOT_ID]) {
            let i = choose|i: int|
                0 <= i < n && known[(dir, (#[trigger] files[i]).name@)] == ROOT_ID
                    && attrs[ROOT_ID] == attr_of(files[i]);
            assert(known.contains_key((dir, files[i].name@)));
        }
    }
    assert forall|id: u64| #[trigger] u.attrs.contains_key(id) implies id < u.next_id by {
        assert(attrs.contains_key(id));
        if !(t.attrs.contains_key(id) && attrs[id] == t.attrs[id]) {
            let i = choose|i: int|
                0 <= i < n && known[(dir, (#[trigger] files[i]).name@)] == id && attrs[id] == attr_of(
                    files[i],
                );
            assert(known.contains_key((dir, files[i].name@)));
        }
    }
}

/// Why a node cannot be listed.
pub open spec fn unknown_node_message() -> Seq<char> {
    "readdir/lookup on an unknown node"@
}

/// The nodes of a listing with what is known of them, without those of which nothing is.
pub open spec fn known_rows(ids: Seq<u64>, attrs: Map<u64, AttrView>) -> Seq<(u64, AttrView)>
    decreases ids.len(),
{
    if ids.len() == 0 {
        Seq::empty()
    } else if attrs.contains_key(ids.last()) {
        known_rows(ids.drop_last(), attrs).push((ids.last(), attrs[ids.last()]))
    } else {
        known_rows(ids.drop_last(), attrs)
    }
}

/// A list of nodes and attributes as plain values.
pub open spec fn rows(list: Seq<(NodeId, NodeAttr)>) -> Seq<(u64, AttrView)> {
    list.map_values(|r: (NodeId, NodeAttr)| (r.0.0, r.1@))
}

/// The children of `dir` as far as a listing told them.
pub open spec fn listed_rows(t: TreeView, dir: u64) -> Seq<(u64, AttrView)> {
    if t.children.contains_key(dir) {
        known_rows(t.children[dir], t.attrs)
    } else {
        Seq::empty()
    }
}

/// The first row with the given name.
pub open spec fn first_named(list: Seq<(u64, AttrView)>, name: Seq<char>) -> Option<
    (u64, AttrView),
>
    decreases list.len(),
{
    if list.len() == 0 {
        None
    } else if first_named(list.drop_last(), name) is Some {
        first_named(list.drop_last(), name)
    } else if list.last().1.name == name {
        Some(list.last())
    } else {
        None
    }
}

impl VfsTree {
    /// Whether the listing of `dir` is still trusted.
    fn fresh(&self, dir: u64, now: u64) -> (r: bool)
        requires
            self.wf(),
        ensures
            r == is_fresh(self@, dir, now),
    {
        if !self.children.contains_key(&dir) {
            return false;
        }
        match self.listed_at.get(&dir) {
            Some(t) => now.saturating_sub(*t) < LISTING_TTL_MILLIS,
            None => false,
        }
    }

    /// Says whether `dir` is to be listed before it is read, and which remote directory that is.
    /// A listing that is still trusted is served from memory, so a burst of reads costs one request.
    pub fn plan_listing(&self, dir: NodeId, now: u64) -> (r: Result<Option<String>, VfsError>)
        requires
            self.wf(),
        ensures
            listing_planned(self@, dir.0, now, r),
    {
        if self.fresh(dir.0, now) {
            return Ok(None);
        }
        match self.attrs.get(&dir.0) {
            Some(a) => Ok(Some(a.remote_path.clone())),
            None => Err(VfsError::Other("readdir/lookup on an unknown node".to_owned())),
        }
    }

    /// Number that the next new node gets.
    pub fn next_id(&self) -> (r: u64)
        ensures
            r == self@.next_id,
    {
        self.next_id
    }

    /// The node of a name in a directory, a new one where the name was not known.
    fn node_for(&mut self, dir: u64, name: &str) -> (r: u64)
        requires
            old(self).known_children.wf(),
            old(self).next_id < u64::MAX,
        ensures
            final(self).known_children.wf(),
            final(self).attrs == old(self).attrs,
            final(self).children == old(self).children,
            final(self).listed_at == old(self).listed_at,
            old(self)@.known.contains_key((dir, name@)) ==> final(self)@.known == old(self)@.known
                && final(self).next_id == old(self).next_id,
            !old(self)@.known.contains_key((dir, name@)) ==> final(self)@.known
                == old(self)@.known.insert((dir, name@), old(self).next_id) && final(self).next_id
                == old(self).next_id + 1,
            final(self)@.known.contains_key((dir, name@)),
            r == final(self)@.known[(dir, name@)],
    {
        let key = ChildKey { parent: dir, name: name.to_owned() };
        match self.known_children.get(&key) {
            Some(id) => *id,
            None => {
                let id: u64 = self.next_id;
                self.next_id = id + 1;
                self.known_children.insert(key, id);
                id
            },
        }
    }

    /// Takes in a listing of `dir` that the server sent, unless another one that is still trusted
    /// came first (see [`listing_applied`]).
    pub fn apply_listing(&mut self, dir: NodeId, files: &Vec<RemoteFile>, now: u64)
        requires
            old(self).wf(),
            dir.0 < old(self)@.next_id,
            old(self)@.next_id + files@.len() <= u64::MAX,
        ensures
            final(self).wf(),
            is_fresh(old(self)@, dir.0, now) ==> final(self)@ == old(self)@,
            !is_fresh(old(self)@, dir.0, now) ==> final(self)@ == listing_applied(
                old(self)@,
                dir.0,
                files@,
                now,
            ),
    {
        if self.fresh(dir.0, now) {
            return;
        }
        let ghost t = self@;
        let ghost n = files@.len() as int;
        let ghost asg = assigned(t.known, t.next_id, dir.0, files@, n);
        proof {
            lemma_assigned(t.known, t.next_id, dir.0, files@, n);
            lemma_with_listed(t.attrs, asg.0, asg.1, dir.0, files@, n);
            lemma_listing_keeps_order(t, dir.0, files@, now);
        }
        let mut ghost_ids: Vec<u64> = Vec::new();
        let mut ghost_keys: Vec<ChildKey> = Vec::new();
        self.find_ghosts(dir.0, files, &mut ghost_ids, &mut ghost_keys);
        let child_ids: Vec<u64> = self.take_entries(dir.0, files);
        let mut i: usize = 0;
        let ghost before = self.known_children@;
        let ghost gone_names = names_in(dir.0, t.attrs, ghosts(t, dir.0, files@));
        proof {
            assert(before =~= before.remove_keys(key_views(ghost_keys@, 0)));
        }
        while i < ghost_keys.len()
            invariant
                i <= ghost_keys@.len(),
                self.known_children.wf(),
                self.attrs@ == with_listed(t.attrs, asg.0, dir.0, files@, n),
                self.children@ == t.children,
                self.listed_at@ == t.listed_at,
                self.next_id == asg.1,
                self.known_children@ == before.remove_keys(key_views(ghost_keys@, i as int)),
            decreases ghost_keys@.len() - i,
        {
            let old_id = self.known_children.remove(&ghost_keys[i]);
            proof {
                assert(key_views(ghost_keys@, i + 1) =~= key_views(ghost_keys@, i as int).insert(
                    ghost_keys@[i as int]@,
                ));
                assert(self.known_children@ =~= before.remove_keys(key_views(ghost_keys@, i + 1)));
            }
            i = i + 1;
        }
        proof {
            assert(key_views(ghost_keys@, ghost_keys@.len() as int) == gone_names);
        }
        self.remove_subtree(&ghost_ids);
        self.children.insert(dir.0, child_ids);
        self.listed_at.insert(dir.0, now);
        proof {
            let u = listing_applied(t, dir.0, files@, now);
            assert(self.known_children@ =~= u.known);
            assert(self.attrs@ =~= u.attrs);
            assert(self.children@ =~= u.children);
            assert(self.listed_at@ =~= u.listed_at);
            assert(self@ =~= u);
        }
    }

    /// Forgets the nodes `roots` and all that lie below them, with the names listed there.
    fn remove_subtree(&mut self, roots: &Vec<u64>)
        requires
            old(self).known_children.wf(),
        ensures
            final(self).known_children.wf(),
            ({
                let gone = crate::reach::below(old(self)@.children, roots@.to_set());
                &&& final(self)@.attrs == old(self)@.attrs.remove_keys(gone)
                &&& final(self)@.children == old(self)@.children.remove_keys(gone)
                &&& final(self)@.listed_at == old(self)@.listed_at.remove_keys(gone)
                &&& final(self)@.known == old(self)@.known.remove_keys(
                    names_below(old(self)@.children, old(self)@.attrs, gone),
                )
                &&& final(self)@.next_id == old(self)@.next_id
            }),
    {
        let gone: Vec<u64> = collect_below(&self.children, roots);
        remove_names(&mut self.known_children, &self.children, &self.attrs, &gone);
        remove_rows(&mut self.attrs, &gone);
        remove_rows(&mut self.listed_at, &gone);
        remove_rows(&mut self.children, &gone);
    }

    /// Finds the children of `dir` that a fresh listing no longer names.
    fn find_ghosts(
        &self,
        dir: u64,
        files: &Vec<RemoteFile>,
        ids: &mut Vec<u64>,
        keys: &mut Vec<ChildKey>,
    )
        requires
            self.wf(),
            old(ids)@.len() == 0,
            old(keys)@.len() == 0,
        ensures
            final(ids)@.to_set() == ghosts(self@, dir, files@),
            key_views(final(keys)@, final(keys)@.len() as int) == names_in(
                dir,
                self@.attrs,
                ghosts(self@, dir, files@),
            ),
    {
        let ghost t = self@;
        let ghost want = ghosts(t, dir, files@);
        match self.children.get(&dir) {
            None => {
                assert(ids@.to_set() =~= want);
                assert(key_views(keys@, 0) =~= names_in(dir, t.attrs, want));
            },
            Some(list) => {
                let mut j: usize = 0;
                while j < list.len()
                    invariant
                        j <= list@.len(),
                        self.wf(),
                        t == self@,
                        t.children.contains_key(dir),
                        t.children[dir] == list@,
                        want == ghosts(t, dir, files@),
                        keys@.len() == ids@.len(),
                        forall|z: int| 0 <= z < ids@.len() ==> want.contains(#[trigger] ids@[z]),
                        forall|z: int|
                            0 <= z < ids@.len() ==> (#[trigger] keys@[z])@ == (
                                dir,
                                t.attrs[ids@[z]].name,
                            ),
                        forall|z: int|
                            0 <= z < j && want.contains(#[trigger] list@[z]) ==> ids@.contains(list@[z]),
                    decreases list@.len() - j,
                {
                    let c: u64 = list[j];
                    let ghost before = ids@;
                    match self.attrs.get(&c) {
                        Some(attr) => {
                            if !contains_name(files, attr.name.as_str()) {
                                assert(crate::reach::edge(t.children, dir, c)) by {
                                    assert(list@[j as int] == c);
                                }
                                keys.push(ChildKey { parent: dir, name: attr.name.clone() });
                                ids.push(c);
                                proof {
                                    lemma_push_contains(before, c);
                                    assert(ids@[before.len() as int] == c);
                                }
                            }
                        },
                        None => {},
                    }
                    j = j + 1;
                }
                proof {
                    assert forall|x: u64| ids@.to_set().contains(x) <==> want.contains(x) by {
                        if ids@.contains(x) {
                            let z = choose|z: int| 0 <= z < ids@.len() && ids@[z] == x;
                            assert(want.contains(ids@[z]));
                        }
                        if want.contains(x) {
                            let z = choose|z: int| 0 <= z < list@.len() && list@[z] == x;
                            assert(want.contains(list@[z]));
                        }
                    }
                    assert(ids@.to_set() =~= want);
                    let a = key_views(keys@, keys@.len() as int);
                    let b = names_in(dir, t.attrs, want);
                    assert forall|k: (u64, Seq<char>)| a.contains(k) <==> b.contains(k) by {
                        if a.contains(k) {
                            let z = choose|z: int| 0 <= z < keys@.len() && (#[trigger] keys@[z])@ == k;
                            assert(want.contains(ids@[z]));
                        }
                        if b.contains(k) {
                            let c = choose|c: u64| #[trigger] want.contains(c) && t.attrs[c].name == k.1;
                            let z = choose|z: int| 0 <= z < ids@.len() && ids@[z] == c;
                            assert(keys@[z]@ == k);
                        }
                    }
                    assert(a =~= b);
                }
            },
        }
    }

    /// Gives every entry of a listing its node and its attributes, and names the nodes in order.
    fn take_entries(&mut self, dir: u64, files: &Vec<RemoteFile>) -> (r: Vec<u64>)
        requires
            old(self).wf(),
            dir < old(self)@.next_id,
            old(self)@.next_id + files@.len() <= u64::MAX,
        ensures
            final(self).known_children.wf(),
            final(self)@.children == old(self)@.children,
            final(self)@.listed_at == old(self)@.listed_at,
            final(self)@.known == assigned(
                old(self)@.known,
                old(self)@.next_id,
                dir,
                files@,
                files@.len() as int,
            ).0,
            final(self)@.next_id == assigned(
                old(self)@.known,
                old(self)@.next_id,
                dir,
                files@,
                files@.len() as int,
            ).1,
            final(self)@.attrs == with_listed(
                old(self)@.attrs,
                final(self)@.known,
                dir,
                files@,
                files@.len() as int,
            ),
            r@ == Seq::new(files@.len(), |i: int| final(self)@.known[(dir, files@[i].name@)]),
    {
        let ghost t = self@;
        let ghost n = files@.len() as int;
        let ghost all = assigned(t.known, t.next_id, dir, files@, n).0;
        let mut out: Vec<u64> = Vec::new();
        let mut i: usize = 0;
        proof {
            lemma_assigned(t.known, t.next_id, dir, files@, 0);
        }
        while i < files.len()
            invariant
                i <= files@.len(),
                n == files@.len(),
                tree_wf(t),
                dir < t.next_id,
                t.next_id + files@.len() <= u64::MAX,
                all == assigned(t.known, t.next_id, dir, files@, n).0,
                self.known_children.wf(),
                self@.children == t.children,
                self@.listed_at == t.listed_at,
                self@.known == assigned(t.known, t.next_id, dir, files@, i as int).0,
                self@.next_id == assigned(t.known, t.next_id, dir, files@, i as int).1,
                self@.next_id <= t.next_id + i,
                self@.attrs == with_listed(t.attrs, all, dir, files@, i as int),
                out@.len() == i,
                forall|j: int| 0 <= j < i ==> #[trigger] out@[j] == all[(dir, files@[j].name@)],
            decreases files@.len() - i,
        {
            let f: &RemoteFile = &files[i];
            let id: u64 = self.node_for(dir, f.name.as_str());
            proof {
                lemma_assigned_prefix(t.known, t.next_id, dir, files@, i + 1, n);
                lemma_assigned(t.known, t.next_id, dir, files@, i + 1);
                assert(all[(dir, files@[i as int].name@)] == id);
            }
            let attr: NodeAttr = to_attr(f);
            self.attrs.insert(id, attr);
            out.push(id);
            i = i + 1;
        }
        proof {
            assert(out@ =~= Seq::new(files@.len(), |i: int| all[(dir, files@[i].name@)]));
        }
        out
    }
}

/// The first `n` keys as plain values.
spec fn key_views(keys: Seq<ChildKey>, n: int) -> Set<(u64, Seq<char>)> {
    Set::new(|k: (u64, Seq<char>)| exists|z: int| 0 <= z < n && (#[trigger] keys[z])@ == k)
}

/// A name keeps its node while more names are taken in.
proof fn lemma_assigned_prefix(
    known: Map<(u64, Seq<char>), u64>,
    next_id: u64,
    dir: u64,
    files: Seq<RemoteFile>,
    m: int,
    n: int,
)
    requires
        0 <= m <= n <= files.len(),
    ensures
        forall|k: (u64, Seq<char>)| #[trigger]
            assigned(known, next_id, dir, files, m).0.contains_key(k) ==> assigned(
                known,
                next_id,
                dir,
                files,
                n,
            ).0.contains_key(k) && assigned(known, next_id, dir, files, n).0[k] == assigned(
                known,
                next_id,
                dir,
                files,
                m,
            ).0[k],
    decreases n - m,
{
    if m < n {
        lemma_assigned_prefix(known, next_id, dir, files, m, n - 1);
    }
}

/// The directories that list `remote_path` or are it: their listings are no longer trusted once the
/// path has changed.
pub open spec fn listings_touched(t: TreeView, remote_path: Seq<char>) -> Set<u64> {
    Set::new(
        |d: u64|
            t.attrs.contains_key(d) && t.attrs[d].is_dir && (t.attrs[d].remote_path == remote_path
                || (crate::text::rsplit_once_at(remote_path, '/') matches Some(parts) && t.attrs[d].remote_path
                == parts.0)),
    )
}

/// The files that `remote_path` names.
pub open spec fn files_at(t: TreeView, remote_path: Seq<char>) -> Set<u64> {
    Set::new(
        |x: u64|
            t.attrs.contains_key(x) && !t.attrs[x].is_dir && t.attrs[x].remote_path == remote_path,
    )
}

/// The tree after a change at `remote_path` became known: the listing that holds it and, if it is a
/// directory, its own are no longer trusted, and what was known of a file there is forgotten.
///
/// The lists of children stay, for the next listing to be held against.
pub open spec fn invalidated(t: TreeView, remote_path: Seq<char>) -> TreeView {
    TreeView {
        listed_at: t.listed_at.remove_keys(listings_touched(t, remote_path)),
        attrs: t.attrs.remove_keys(files_at(t, remote_path)),
        ..t
    }
}

/// The entries that `remote_path` names, files and directories. The root is no entry.
pub open spec fn entries_at(t: TreeView, remote_path: Seq<char>) -> Set<u64> {
    Set::new(
        |x: u64|
            t.attrs.contains_key(x) && x != ROOT_ID && t.attrs[x].remote_path == remote_path,
    )
}

/// The tree after the entry at `remote_path` was removed or went elsewhere: as after any change there, and
/// what was known of a directory is forgotten too.
pub open spec fn forgotten(t: TreeView, remote_path: Seq<char>) -> TreeView {
    TreeView {
        listed_at: t.listed_at.remove_keys(listings_touched(t, remote_path)),
        attrs: t.attrs.remove_keys(entries_at(t, remote_path)),
        ..t
    }
}

/// What is forgotten at `remote_path`: files, and directories where those are gone too.
spec fn dropped_at(t: TreeView, remote_path: Seq<char>, directories: bool) -> Set<u64> {
    if directories {
        entries_at(t, remote_path)
    } else {
        files_at(t, remote_path)
    }
}

/// Whether `x` is among the first `n` of `ids`.
spec fn seen_key(ids: Seq<u64>, n: int, x: u64) -> bool {
    exists|j: int| 0 <= j < n && #[trigger] ids[j] == x
}

/// Whether one of the first `n` rows says that `id` is known in `parent`.
spec fn slot_child(
    map: KeyMap<ChildKey, u64>,
    t: TreeView,
    n: int,
    parent: u64,
    id: u64,
) -> bool {
    exists|j: int|
        0 <= j < n && (#[trigger] map.slot_key(j)).0 == parent && t.known[map.slot_key(j)] == id
}

/// What is known of an entry that exists only here.
pub open spec fn local_attr(parent_path: Seq<char>, name: Seq<char>) -> AttrView {
    AttrView {
        name,
        remote_path: crate::text::child_path(parent_path, name),
        size: 0,
        mtime_secs: 0,
        is_dir: false,
        etag: Seq::empty(),
    }
}

/// The tree with an entry in `parent` that exists only here. Listings are left alone, so that no
/// fresh listing of the parent takes the entry for one that is gone.
pub open spec fn local_inserted(t: TreeView, parent: u64, name: Seq<char>) -> TreeView {
    let key = (parent, name);
    let is_known = t.known.contains_key(key);
    let id = if is_known {
        t.known[key]
    } else {
        t.next_id
    };
    TreeView {
        known: t.known.insert(key, id),
        next_id: if is_known {
            t.next_id
        } else {
            (t.next_id + 1) as u64
        },
        attrs: t.attrs.insert(id, local_attr(t.attrs[parent].remote_path, name)),
        ..t
    }
}

/// The node known for a name in `parent`, where something is known of it.
pub open spec fn known_named(t: TreeView, parent: u64, name: Seq<char>) -> Option<(u64, AttrView)> {
    if t.known.contains_key((parent, name)) && t.attrs.contains_key(t.known[(parent, name)]) {
        Some((t.known[(parent, name)], t.attrs[t.known[(parent, name)]]))
    } else {
        None
    }
}

/// Whether `id` is known as a child of `parent`, and something is known of it.
pub open spec fn is_known_child(t: TreeView, parent: u64, id: u64) -> bool {
    t.attrs.contains_key(id) && exists|name: Seq<char>| #[trigger]
        t.known.contains_key((parent, name)) && t.known[(parent, name)] == id
}

impl VfsTree {
    /// The children of `dir` as far as a listing told them.
    pub fn readdir(&self, dir: NodeId) -> (r: Vec<(NodeId, NodeAttr)>)
        requires
            self.wf(),
        ensures
            rows(r@) == listed_rows(self@, dir.0),
    {
        let mut out: Vec<(NodeId, NodeAttr)> = Vec::new();
        assert(rows(out@) =~= Seq::<(u64, AttrView)>::empty());
        match self.children.get(&dir.0) {
            None => {},
            Some(list) => {
                let mut i: usize = 0;
                assert(list@.subrange(0, 0) =~= Seq::<u64>::empty());
                while i < list.len()
                    invariant
                        i <= list@.len(),
                        self.wf(),
                        rows(out@) == known_rows(list@.subrange(0, i as int), self@.attrs),
                    decreases list@.len() - i,
                {
                    let id: u64 = list[i];
                    let ghost before = rows(out@);
                    proof {
                        let a = list@.subrange(0, i + 1);
                        assert(a.drop_last() =~= list@.subrange(0, i as int));
                        assert(a.last() == id);
                    }
                    match self.attrs.get(&id) {
                        Some(attr) => {
                            out.push((NodeId(id), attr.clone()));
                            assert(rows(out@) =~= before.push((id, self@.attrs[id])));
                        },
                        None => {},
                    }
                    i = i + 1;
                }
                assert(list@.subrange(0, list@.len() as int) =~= list@);
            },
        }
        out
    }

    /// The child of `parent` with the given name, as far as a listing told it.
    pub fn lookup(&self, parent: NodeId, name: &str) -> (r: Option<(NodeId, NodeAttr)>)
        requires
            self.wf(),
        ensures
            match r {
                Some(p) => first_named(listed_rows(self@, parent.0), name@) == Some((p.0.0, p.1@)),
                None => first_named(listed_rows(self@, parent.0), name@) is None,
            },
    {
        let list: Vec<(NodeId, NodeAttr)> = self.readdir(parent);
        find_named(&list, name)
    }

    /// Every child of `parent` by its name, in no particular order, also those that no listing told.
    pub fn known_children_of(&self, parent: NodeId) -> (r: Vec<(NodeId, NodeAttr)>)
        requires
            self.wf(),
        ensures
            forall|id: u64, a: AttrView| #[trigger]
                rows(r@).contains((id, a)) <==> is_known_child(self@, parent.0, id) && a
                    == self@.attrs[id],
            forall|i: int, j: int|
                0 <= i < j < r@.len() ==> (#[trigger] r@[i]).0 != (#[trigger] r@[j]).0,
    {
        let n: usize = self.known_children.len();
        let mut out: Vec<(NodeId, NodeAttr)> = Vec::new();
        let mut i: usize = 0;
        let ghost t = self@;
        proof {
            self.known_children.lemma_slots();
        }
        while i < n
            invariant
                i <= n,
                n == self.known_children.slot_count(),
                self.wf(),
                t == self@,
                forall|z: int|
                    0 <= z < out@.len() ==> t.attrs.contains_key((#[trigger] out@[z]).0.0) && out@[z].1@
                        == t.attrs[out@[z].0.0] && slot_child(
                        self.known_children,
                        t,
                        i as int,
                        parent.0,
                        out@[z].0.0,
                    ),
                forall|j: int|
                    0 <= j < i && (#[trigger] self.known_children.slot_key(j)).0 == parent.0
                        && t.attrs.contains_key(t.known[self.known_children.slot_key(j)])
                        ==> exists|z: int|
                        0 <= z < out@.len() && (#[trigger] out@[z]).0.0
                            == t.known[self.known_children.slot_key(j)],
                forall|a: int, b: int|
                    0 <= a < b < out@.len() ==> (#[trigger] out@[a]).0 != (#[trigger] out@[b]).0,
            decreases n - i,
        {
            let key: &ChildKey = self.known_children.key_at(i);
            let id: u64 = *self.known_children.value_at(i);
            let ghost k = self.known_children.slot_key(i as int);
            let ghost before = out@;
            proof {
                self.known_children.lemma_slots();
                assert(t.known.contains_key(k) && t.known[k] == id);
            }
            if key.parent == parent.0 {
                match self.attrs.get(&id) {
                    Some(attr) => {
                        proof {
                            assert forall|z: int| 0 <= z < before.len() implies (#[trigger] before[z]).0.0
                                != id by {
                                let j = choose|j: int|
                                    0 <= j < i && (#[trigger] self.known_children.slot_key(j)).0
                                        == parent.0 && t.known[self.known_children.slot_key(j)]
                                        == before[z].0.0;
                                assert(t.known.contains_key(self.known_children.slot_key(j)));
                                assert(self.known_children.slot_key(j)
                                    != self.known_children.slot_key(i as int));
                            }
                        }
                        out.push((NodeId(id), attr.clone()));
                        assert(out@[before.len() as int].0.0 == id);
                    },
                    None => {},
                }
            }
            proof {
                assert forall|z: int| 0 <= z < out@.len() implies t.attrs.contains_key(
                    (#[trigger] out@[z]).0.0,
                ) && out@[z].1@ == t.attrs[out@[z].0.0] && slot_child(
                    self.known_children,
                    t,
                    i + 1,
                    parent.0,
                    out@[z].0.0,
                ) by {
                    if z < before.len() {
                        assert(out@[z] == before[z]);
                        let j = choose|j: int|
                            0 <= j < i && (#[trigger] self.known_children.slot_key(j)).0 == parent.0
                                && t.known[self.known_children.slot_key(j)] == before[z].0.0;
                        assert(self.known_children.slot_key(j).0 == parent.0);
                    } else {
                        assert(self.known_children.slot_key(i as int).0 == parent.0);
                    }
                }
                assert forall|j: int|
                    0 <= j < i + 1 && (#[trigger] self.known_children.slot_key(j)).0 == parent.0
                        && t.attrs.contains_key(t.known[self.known_children.slot_key(j)]) implies exists|
                    z: int,
                |
                    0 <= z < out@.len() && (#[trigger] out@[z]).0.0
                        == t.known[self.known_children.slot_key(j)] by {
                    if j < i {
                        let z = choose|z: int|
                            0 <= z < before.len() && (#[trigger] before[z]).0.0
                                == t.known[self.known_children.slot_key(j)];
                        assert(out@[z] == before[z]);
                    } else {
                        assert(out@[before.len() as int].0.0 == id);
                    }
                }
            }
            i = i + 1;
        }
        proof {
            self.known_children.lemma_slots();
            assert forall|id: u64, a: AttrView| #[trigger]
                rows(out@).contains((id, a)) <==> is_known_child(t, parent.0, id) && a
                    == t.attrs[id] by {
                if rows(out@).contains((id, a)) {
                    let z = choose|z: int| 0 <= z < rows(out@).len() && rows(out@)[z] == (id, a);
                    assert(out@[z].0.0 == id);
                    let j = choose|j: int|
                        0 <= j < n && (#[trigger] self.known_children.slot_key(j)).0 == parent.0
                            && t.known[self.known_children.slot_key(j)] == out@[z].0.0;
                    let k = self.known_children.slot_key(j);
                    assert(k == (parent.0, k.1));
                    assert(t.known.contains_key((parent.0, k.1)));
                }
                if is_known_child(t, parent.0, id) && a == t.attrs[id] {
                    let name = choose|name: Seq<char>| #[trigger]
                        t.known.contains_key((parent.0, name)) && t.known[(parent.0, name)] == id;
                    let j = choose|j: int|
                        0 <= j < self.known_children.slot_count()
                            && #[trigger] self.known_children.slot_key(j) == (parent.0, name);
                    assert(self.known_children.slot_key(j).0 == parent.0);
                    let z = choose|z: int|
                        0 <= z < out@.len() && (#[trigger] out@[z]).0.0
                            == t.known[self.known_children.slot_key(j)];
                    assert(rows(out@)[z] == (id, a));
                }
            }
        }
        out
    }

    /// The node known for a name in `parent`, where something is known of it, also if no listing told
    /// it.
    pub fn known_child(&self, parent: NodeId, name: &str) -> (r: Option<(NodeId, NodeAttr)>)
        requires
            self.wf(),
        ensures
            match r {
                Some(p) => known_named(self@, parent.0, name@) == Some((p.0.0, p.1@)),
                None => known_named(self@, parent.0, name@) is None,
            },
    {
        match self.known_children.get(&(ChildKey { parent: parent.0, name: name.to_owned() })) {
            Some(id) => match self.attrs.get(id) {
                Some(a) => Some((NodeId(*id), a.clone())),
                None => None,
            },
            None => None,
        }
    }

    /// Makes known that something changed at `remote_path` (see [`invalidated`]).
    pub fn invalidate_path(&mut self, remote_path: &str)
        requires
            old(self).wf(),
        ensures
            final(self).wf(),
            final(self)@ == invalidated(old(self)@, remote_path@),
    {
        self.drop_path(remote_path, false);
    }

    /// Makes known that the entry at `remote_path` was removed or went elsewhere (see [`forgotten`]).
    pub fn forget_path(&mut self, remote_path: &str)
        requires
            old(self).wf(),
        ensures
            final(self).wf(),
            final(self)@ == forgotten(old(self)@, remote_path@),
    {
        self.drop_path(remote_path, true);
    }

    /// See [`Self::invalidate_path`] and, with `directories`, [`Self::forget_path`].
    fn drop_path(&mut self, remote_path: &str, directories: bool)
        requires
            old(self).wf(),
        ensures
            final(self).wf(),
            final(self)@ == (if directories {
                forgotten(old(self)@, remote_path@)
            } else {
                invalidated(old(self)@, remote_path@)
            }),
    {
        let ghost t = self@;
        let parts: Option<(String, String)> = rsplit_once(remote_path, '/');
        let ids: Vec<u64> = self.attrs.keys();
        let mut stale: Vec<u64> = Vec::new();
        let mut dropped: Vec<u64> = Vec::new();
        let mut i: usize = 0;
        while i < ids.len()
            invariant
                i <= ids@.len(),
                ids@.to_set() == t.attrs.dom(),
                self.wf(),
                t == self@,
                match parts {
                    Some(p) => crate::text::rsplit_once_at(remote_path@, '/') == Some(
                        (p.0@, p.1@),
                    ),
                    None => crate::text::rsplit_once_at(remote_path@, '/') is None,
                },
                forall|x: u64| #[trigger]
                    stale@.contains(x) <==> listings_touched(t, remote_path@).contains(x) && seen_key(
                        ids@,
                        i as int,
                        x,
                    ),
                forall|x: u64| #[trigger]
                    dropped@.contains(x) <==> dropped_at(t, remote_path@, directories).contains(x)
                        && seen_key(ids@, i as int, x),
            decreases ids@.len() - i,
        {
            let id: u64 = ids[i];
            assert(ids@.to_set().contains(id));
            let (here, lists, is_dir): (bool, bool, bool) = match self.attrs.get(&id) {
                Some(attr) => (
                    same(attr.remote_path.as_str(), remote_path),
                    match &parts {
                        Some(p) => same(attr.remote_path.as_str(), p.0.as_str()),
                        None => false,
                    },
                    attr.is_dir,
                ),
                None => (false, false, false),
            };
            let ghost s0 = stale@;
            let ghost f0 = dropped@;
            if is_dir && (here || lists) {
                stale.push(id);
            }
            if here && (!is_dir || (directories && id != ROOT_ID)) {
                dropped.push(id);
            }
            proof {
                lemma_push_contains(s0, id);
                lemma_push_contains(f0, id);
                assert forall|x: u64| #[trigger]
                    seen_key(ids@, i + 1, x) <==> x == id || seen_key(ids@, i as int, x) by {
                    if x == id {
                        assert(ids@[i as int] == x);
                    }
                    if seen_key(ids@, i as int, x) {
                        let j = choose|j: int| 0 <= j < i && #[trigger] ids@[j] == x;
                        assert(ids@[j] == x);
                    }
                }
            }
            i = i + 1;
        }
        proof {
            assert forall|x: u64| t.attrs.contains_key(x) implies #[trigger] seen_key(
                ids@,
                ids@.len() as int,
                x,
            ) by {
                assert(ids@.to_set().contains(x));
            }
            assert(stale@.to_set() =~= listings_touched(t, remote_path@));
            assert(dropped@.to_set() =~= dropped_at(t, remote_path@, directories));
        }
        remove_rows(&mut self.listed_at, &stale);
        remove_rows(&mut self.attrs, &dropped);
        proof {
            if directories {
                assert(self@ =~= forgotten(t, remote_path@));
                lemma_forgetting_keeps_order(t, remote_path@);
            } else {
                assert(self@ =~= invalidated(t, remote_path@));
                lemma_invalidation_keeps_order(t, remote_path@);
            }
        }
    }

    /// Adds an entry that exists only here as a child of `parent`, and returns its node. It keeps that
    /// node if the server lists the name later.
    pub fn insert_local_entry(&mut self, parent: NodeId, name: &str) -> (r: Result<NodeId, VfsError>)
        requires
            old(self).wf(),
            old(self)@.next_id < u64::MAX,
        ensures
            final(self).wf(),
            match r {
                Ok(id) => {
                    &&& old(self)@.attrs.contains_key(parent.0)
                    &&& final(self)@ == local_inserted(old(self)@, parent.0, name@)
                    &&& id.0 == final(self)@.known[(parent.0, name@)]
                },
                Err(e) => {
                    &&& !old(self)@.attrs.contains_key(parent.0)
                    &&& final(self)@ == old(self)@
                    &&& e matches VfsError::Other(m) && m@ == "insert_local_entry: unknown parent"@
                },
            },
    {
        let ghost t = self@;
        let parent_path: String = match self.attrs.get(&parent.0) {
            Some(a) => a.remote_path.clone(),
            None => {
                return Err(VfsError::Other("insert_local_entry: unknown parent".to_owned()));
            },
        };
        let id: u64 = self.node_for(parent.0, name);
        self.attrs.insert(
            id,
            NodeAttr {
                name: name.to_owned(),
                remote_path: join_child(parent_path.as_str(), name),
                size: 0,
                mtime_secs: 0,
                is_dir: false,
                etag: String::new(),
            },
        );
        proof {
            let u = local_inserted(t, parent.0, name@);
            assert(self.known_children@ =~= u.known);
            assert(self@ =~= u);
            lemma_local_keeps_order(t, parent.0, name@);
        }
        Ok(NodeId(id))
    }
}

/// A tree in order stays in order when a change becomes known.
pub proof fn lemma_invalidation_keeps_order(t: TreeView, remote_path: Seq<char>)
    requires
        tree_wf(t),
    ensures
        tree_wf(invalidated(t, remote_path)),
{
    let u = invalidated(t, remote_path);
    assert forall|p: u64, c: u64| #[trigger] crate::reach::edge(u.children, p, c) implies exists|
        name: Seq<char>,
    | #[trigger] u.known.contains_key((p, name)) && u.known[(p, name)] == c by {
        assert(crate::reach::edge(t.children, p, c));
        let name = choose|name: Seq<char>| #[trigger]
            t.known.contains_key((p, name)) && t.known[(p, name)] == c;
        assert(u.known.contains_key((p, name)));
    }
}

/// A tree in order stays in order when an entry goes.
pub proof fn lemma_forgetting_keeps_order(t: TreeView, remote_path: Seq<char>)
    requires
        tree_wf(t),
    ensures
        tree_wf(forgotten(t, remote_path)),
{
    let u = forgotten(t, remote_path);
    assert forall|p: u64, c: u64| #[trigger] crate::reach::edge(u.children, p, c) implies exists|
        name: Seq<char>,
    | #[trigger] u.known.contains_key((p, name)) && u.known[(p, name)] == c by {
        assert(crate::reach::edge(t.children, p, c));
        let name = choose|name: Seq<char>| #[trigger]
            t.known.contains_key((p, name)) && t.known[(p, name)] == c;
        assert(u.known.contains_key((p, name)));
    }
}

/// A tree in order stays in order when an entry that exists only here is added.
pub proof fn lemma_local_keeps_order(t: TreeView, parent: u64, name: Seq<char>)
    requires
        tree_wf(t),
        t.attrs.contains_key(parent),
        t.next_id < u64::MAX,
    ensures
        tree_wf(local_inserted(t, parent, name)),
{
    let u = local_inserted(t, parent, name);
    let key = (parent, name);
    assert forall|p: u64, c: u64| #[trigger] crate::reach::edge(u.children, p, c) implies exists|
        nm: Seq<char>,
    | #[trigger] u.known.contains_key((p, nm)) && u.known[(p, nm)] == c by {
        assert(crate::reach::edge(t.children, p, c));
        let nm = choose|nm: Seq<char>| #[trigger]
            t.known.contains_key((p, nm)) && t.known[(p, nm)] == c;
        assert(u.known.contains_key((p, nm)));
    }
    assert forall|k: (u64, Seq<char>)| #[trigger]
        u.known.contains_key(k) && u.attrs.contains_key(u.known[k]) implies u.attrs[u.known[k]].name
        == k.1 by {
        if k != key {
            assert(t.known.contains_key(k));
            if t.known.contains_key(key) {
                assert(t.known[k] != t.known[key]);
            }
        }
    }
}

/// The first of `list` with the given name.
pub fn find_named(list: &Vec<(NodeId, NodeAttr)>, name: &str) -> (r: Option<(NodeId, NodeAttr)>)
    ensures
        match r {
            Some(p) => first_named(rows(list@), name@) == Some((p.0.0, p.1@)),
            None => first_named(rows(list@), name@) is None,
        },
{
    let mut i: usize = 0;
    assert(rows(list@).subrange(0, 0) =~= Seq::<(u64, AttrView)>::empty());
    while i < list.len()
        invariant
            i <= list@.len(),
            first_named(rows(list@).subrange(0, i as int), name@) is None,
        decreases list@.len() - i,
    {
        proof {
            let a = rows(list@).subrange(0, i + 1);
            assert(a.drop_last() =~= rows(list@).subrange(0, i as int));
            assert(a.last() == rows(list@)[i as int]);
        }
        if same(list[i].1.name.as_str(), name) {
            proof {
                lemma_first_named_prefix(rows(list@), i + 1, name@);
            }
            return Some((list[i].0, list[i].1.clone()));
        }
        i = i + 1;
    }
    assert(rows(list@).subrange(0, list@.len() as int) =~= rows(list@));
    None
}

/// A row that is found first among the first rows is found first among all.
proof fn lemma_first_named_prefix(list: Seq<(u64, AttrView)>, n: int, name: Seq<char>)
    requires
        0 <= n <= list.len(),
        first_named(list.subrange(0, n), name) is Some,
    ensures
        first_named(list, name) == first_named(list.subrange(0, n), name),
    decreases list.len() - n,
{
    if n == list.len() {
        assert(list.subrange(0, n) =~= list);
    } else {
        let a = list.subrange(0, n + 1);
        assert(a.drop_last() =~= list.subrange(0, n));
        lemma_first_named_prefix(list, n + 1, name);
    }
}

/// The first row with the given remote path.
pub open spec fn first_at_path(list: Seq<(u64, AttrView)>, remote_path: Seq<char>) -> Option<
    (u64, AttrView),
>
    decreases list.len(),
{
    if list.len() == 0 {
        None
    } else if first_at_path(list.drop_last(), remote_path) is Some {
        first_at_path(list.drop_last(), remote_path)
    } else if list.last().1.remote_path == remote_path {
        Some(list.last())
    } else {
        None
    }
}

/// Whether `d` is a directory known under `path`.
pub open spec fn is_dir_at(t: TreeView, d: u64, path: Seq<char>) -> bool {
    t.attrs.contains_key(d) && t.attrs[d].is_dir && t.attrs[d].remote_path == path
}

impl VfsTree {
    /// The directory known under `path`.
    fn directory_at(&self, path: &str) -> (r: Option<NodeId>)
        requires
            self.wf(),
        ensures
            match r {
                Some(d) => is_dir_at(self@, d.0, path@),
                None => forall|d: u64| !#[trigger] is_dir_at(self@, d, path@),
            },
    {
        let ids: Vec<u64> = self.attrs.keys();
        let mut i: usize = 0;
        while i < ids.len()
            invariant
                i <= ids@.len(),
                ids@.to_set() == self@.attrs.dom(),
                forall|j: int| 0 <= j < i ==> !is_dir_at(self@, #[trigger] ids@[j], path@),
            decreases ids@.len() - i,
        {
            if let Some(attr) = self.attrs.get(&ids[i]) {
                if attr.is_dir && same(attr.remote_path.as_str(), path) {
                    return Some(NodeId(ids[i]));
                }
            }
            i = i + 1;
        }
        assert forall|d: u64| !#[trigger] is_dir_at(self@, d, path@) by {
            if self@.attrs.contains_key(d) {
                assert(ids@.to_set().contains(d));
            }
        }
        None
    }

    /// Prepares to ask the server for the current version of `remote_path`: stops trusting the listing
    /// of the directory that holds it, and names that directory, which is to be listed next. `None`
    /// where no such directory is known.
    pub fn expire_listing_of(&mut self, remote_path: &str) -> (r: Option<NodeId>)
        requires
            old(self).wf(),
        ensures
            final(self).wf(),
            match r {
                Some(d) => {
                    &&& crate::text::rsplit_once_at(remote_path@, '/') matches Some(parts)
                    &&& is_dir_at(old(self)@, d.0, parts.0)
                    &&& final(self)@ == (TreeView {
                        listed_at: old(self)@.listed_at.remove(d.0),
                        ..old(self)@
                    })
                },
                None => {
                    &&& final(self)@ == old(self)@
                    &&& crate::text::rsplit_once_at(remote_path@, '/') matches Some(parts)
                        ==> forall|d: u64| !#[trigger] is_dir_at(old(self)@, d, parts.0)
                },
            },
    {
        match rsplit_once(remote_path, '/') {
            None => None,
            Some(parts) => match self.directory_at(parts.0.as_str()) {
                Some(d) => {
                    let was = self.listed_at.remove(&d.0);
                    proof {
                        lemma_same_order(old(self)@, self@);
                    }
                    Some(d)
                },
                None => None,
            },
        }
    }

    /// The version of `remote_path` that the listing of `dir` told.
    pub fn listed_etag(&self, dir: NodeId, remote_path: &str) -> (r: Option<String>)
        requires
            self.wf(),
        ensures
            match r {
                Some(e) => first_at_path(listed_rows(self@, dir.0), remote_path@) matches Some(row)
                    && row.1.etag == e@,
                None => first_at_path(listed_rows(self@, dir.0), remote_path@) is None,
            },
    {
        let list: Vec<(NodeId, NodeAttr)> = self.readdir(dir);
        let ghost all = rows(list@);
        let mut i: usize = 0;
        assert(all.subrange(0, 0) =~= Seq::<(u64, AttrView)>::empty());
        while i < list.len()
            invariant
                i <= list@.len(),
                all == rows(list@),
                all == listed_rows(self@, dir.0),
                first_at_path(all.subrange(0, i as int), remote_path@) is None,
            decreases list@.len() - i,
        {
            proof {
                let a = all.subrange(0, i + 1);
                assert(a.drop_last() =~= all.subrange(0, i as int));
                assert(a.last() == all[i as int]);
            }
            if same(list[i].1.remote_path.as_str(), remote_path) {
                proof {
                    lemma_first_at_prefix(all, i + 1, remote_path@);
                }
                return Some(list[i].1.etag.clone());
            }
            i = i + 1;
        }
        assert(all.subrange(0, list@.len() as int) =~= all);
        None
    }
}

/// Whether a tree is in order does not depend on which listings are trusted.
proof fn lemma_same_order(t: TreeView, u: TreeView)
    requires
        tree_wf(t),
        u == (TreeView { listed_at: u.listed_at, ..t }),
    ensures
        tree_wf(u),
{
    assert forall|p: u64, c: u64| #[trigger] crate::reach::edge(u.children, p, c) implies exists|
        name: Seq<char>,
    | #[trigger] u.known.contains_key((p, name)) && u.known[(p, name)] == c by {
        assert(crate::reach::edge(t.children, p, c));
        let name = choose|name: Seq<char>| #[trigger]
            t.known.contains_key((p, name)) && t.known[(p, name)] == c;
        assert(u.known.contains_key((p, name)));
    }
}

/// A row that is found first among the first rows is found first among all.
proof fn lemma_first_at_prefix(list: Seq<(u64, AttrView)>, n: int, path: Seq<char>)
    requires
        0 <= n <= list.len(),
        first_at_path(list.subrange(0, n), path) is Some,
    ensures
        first_at_path(list, path) == first_at_path(list.subrange(0, n), path),
    decreases list.len() - n,
{
    if n == list.len() {
        assert(list.subrange(0, n) =~= list);
    } else {
        let a = list.subrange(0, n + 1);
        assert(a.drop_last() =~= list.subrange(0, n));
        lemma_first_at_prefix(list, n + 1, path);
    }
}

/// Whether the plan for the listing of `dir` at time `now` is `r`.
pub open spec fn listing_planned(
    t: TreeView,
    dir: u64,
    now: u64,
    r: Result<Option<String>, VfsError>,
) -> bool {
    match r {
        Ok(None) => is_fresh(t, dir, now),
        Ok(Some(path)) => !is_fresh(t, dir, now) && t.attrs.contains_key(dir)
            && path@ == t.attrs[dir].remote_path,
        Err(e) => !is_fresh(t, dir, now) && !t.attrs.contains_key(dir) && (
        e matches VfsError::Other(m) && m@ == unknown_node_message()),
    }
}

} // verus!
