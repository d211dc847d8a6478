//! The file system: directory tree, block cache, drafts and write-back queue as one.
//!
//! Every operation is a few steps. A step decides and changes the state; between steps the caller does
//! what cannot be done here: it talks to the server and moves bytes. The names of the steps follow the
//! operation that they belong to.

use vstd::prelude::*;

use crate::cache::{BlockCache, EntryView, FileKey};
use crate::drafts::{DraftStore, DraftView};
use crate::error::VfsError;
use crate::idmap::IdMap;
use crate::keymap::{KeyMap, StrMap};
use crate::tree::{AttrView, NodeAttr, NodeId, RemoteFile, TreeView, VfsTree};
use crate::writeback::{QueueView, VfsEvent, WriteBackQueue};

pub mod cycle;
pub mod files;
pub mod handles;
pub mod namespace;
pub mod upload;

verus! {

/// Cap on the size of the block cache where nothing else is said: ten gibibytes.
pub const DEFAULT_CACHE_MAX_BYTES: u64 = 10_737_418_240;

/// A handle on an open file.
#[derive(Debug, Clone, Copy, PartialEq, Eq, Hash, Structural)]
pub struct FileHandle(pub u64);

/// An open file: the version that it was opened at, its size then, and the URL to read it from. There is
/// no URL for a file that was opened while it had a draft, for it is read from the draft.
#[derive(Debug)]
pub struct OpenFile {
    pub key: FileKey,
    pub size: u64,
    pub download_url: Option<String>,
}

/// An [`OpenFile`] as plain values.
#[verifier::ext_equal]
pub struct OpenView {
    pub remote_path: Seq<char>,
    pub etag: Seq<char>,
    pub size: u64,
    pub download_url: Option<Seq<char>>,
}

impl View for OpenFile {
    type V = OpenView;

    open spec fn view(&self) -> OpenView {
        OpenView {
            remote_path: self.key.remote_path@,
            etag: self.key.etag@,
            size: self.size,
            download_url: crate::writeback::opt_text(self.download_url),
        }
    }
}

impl OpenView {
    /// Directory of the version in the block cache.
    pub open spec fn hash(&self) -> Seq<char> {
        crate::cache::key_hash(self.remote_path, self.etag)
    }
}

/// The file system.
pub struct Vfs {
    tree: VfsTree,
    cache: BlockCache,
    drafts: DraftStore,
    queue: WriteBackQueue,
    open_files: IdMap<OpenFile>,
    next_handle: u64,
    next_tmp: u64,
    readahead: StrMap<()>,
}

/// A [`Vfs`] as plain values.
#[verifier::ext_equal]
pub struct VfsView {
    pub tree: TreeView,
    /// Cached versions, by directory name.
    pub cached: Map<Seq<char>, EntryView>,
    /// Number of handles on each version, by directory name.
    pub retains: Map<Seq<char>, u32>,
    pub cache_clock: u64,
    pub cache_budget: u64,
    pub cache_root: Seq<char>,
    /// Drafts, by directory name.
    pub drafts: Map<Seq<char>, DraftView>,
    pub draft_clock: u64,
    pub draft_root: Seq<char>,
    pub queue: QueueView,
    /// Open files, by handle.
    pub open: Map<u64, OpenView>,
    pub next_handle: u64,
    pub next_tmp: u64,
    /// Paths for which blocks are being fetched in advance.
    pub readahead: Set<Seq<char>>,
}

impl View for Vfs {
    type V = VfsView;

    closed spec fn view(&self) -> VfsView {
        VfsView {
            tree: self.tree@,
            cached: self.cache.entries(),
            retains: self.cache.retains(),
            cache_clock: self.cache.clock(),
            cache_budget: self.cache.budget(),
            cache_root: self.cache.root_dir(),
            drafts: self.drafts.drafts(),
            draft_clock: self.drafts.clock(),
            draft_root: self.drafts.root_dir(),
            queue: self.queue@,
            open: self.open_files@,
            next_handle: self.next_handle,
            next_tmp: self.next_tmp,
            readahead: self.readahead@.dom(),
        }
    }
}

// ---------------------------------------------------------------------------
// What the steps speak of.
// ---------------------------------------------------------------------------

impl VfsView {
    /// Whether `path` has a draft.
    pub open spec fn has_draft(&self, path: Seq<char>) -> bool {
        self.drafts.contains_key(crate::drafts::path_hash(path))
    }

    /// The draft of `path`.
    pub open spec fn draft(&self, path: Seq<char>) -> DraftView {
        self.drafts[crate::drafts::path_hash(path)]
    }

    /// The state with the draft of `path` set to `d`.
    pub open spec fn with_draft(&self, path: Seq<char>, d: DraftView) -> VfsView {
        VfsView { drafts: self.drafts.insert(crate::drafts::path_hash(path), d), ..*self }
    }

    /// Whether a draft lies strictly below `path`.
    pub open spec fn draft_strictly_under(&self, path: Seq<char>) -> bool {
        exists|k: Seq<char>| #[trigger]
            self.drafts.contains_key(k) && crate::text::is_strictly_under(
                self.drafts[k].remote_path,
                path,
            )
    }

    /// Whether a handle is open at `path` or below it.
    pub open spec fn subtree_open(&self, path: Seq<char>) -> bool {
        exists|h: u64| #[trigger]
            self.open.contains_key(h) && (self.open[h].remote_path == path
                || crate::text::is_strictly_under(self.open[h].remote_path, path))
    }

    /// What is shown of a node: where its path has a draft, size and time are the draft's.
    pub open spec fn overlaid(&self, a: AttrView) -> AttrView {
        if self.has_draft(a.remote_path) {
            AttrView {
                size: self.draft(a.remote_path).size,
                mtime_secs: self.draft(a.remote_path).last_write_unix,
                ..a
            }
        } else {
            a
        }
    }

    /// The entry that a name in `parent` resolves to: one that a listing told, or else one that exists
    /// only here.
    pub open spec fn entry(&self, parent: u64, name: Seq<char>) -> Option<(u64, AttrView)> {
        let listed = crate::tree::first_named(crate::tree::listed_rows(self.tree, parent), name);
        let found = if listed is Some {
            listed
        } else {
            crate::tree::known_named(self.tree, parent, name)
        };
        match found {
            Some(p) => Some((p.0, self.overlaid(p.1))),
            None => None,
        }
    }
}

/// Whether every counter can still count on: no number was ever handed out that often.
pub open spec fn room(v: VfsView) -> bool {
    &&& v.next_handle < u64::MAX
    &&& v.next_tmp < u64::MAX
    &&& v.cache_clock < u64::MAX
    &&& v.draft_clock < u64::MAX
    &&& v.queue.busy < u64::MAX
    &&& v.tree.next_id < u64::MAX
}

/// How many handles are open on the version in directory `k` of the cache.
pub open spec fn open_count(open: Map<u64, OpenView>, k: Seq<char>) -> nat {
    open.dom().filter(|h: u64| open[h].hash() == k).len()
}

/// Whether every open handle is counted in the block cache, so that what it reads is not evicted.
pub open spec fn handles_retained(v: VfsView) -> bool {
    forall|k: Seq<char>|
        open_count(v.open, k) > 0 ==> #[trigger] v.retains.contains_key(k) && open_count(v.open, k)
            <= v.retains[k]
}

/// Whether `e` is a plain failure with the given message.
pub open spec fn says(e: VfsError, message: Seq<char>) -> bool {
    e matches VfsError::Other(m) && m@ == message
}

fn failure(message: &str) -> (r: VfsError)
    ensures
        says(r, message@),
{
    VfsError::Other(message.to_owned())
}

/// A string in quotes, with what cannot be shown escaped.
pub uninterp spec fn quoted_text(s: Seq<char>) -> Seq<char>;

/// Calls the `Debug` formatting of `str`.
///
/// The contract claims that the result depends on the string alone. How characters are escaped is left
/// to the standard library.
#[verifier::external_body]
fn quoted(s: &str) -> (r: String)
    ensures
        r@ == quoted_text(s@),
{
    format!("{s:?}")
}

proof fn lemma_open_count_insert(open: Map<u64, OpenView>, h: u64, f: OpenView, k: Seq<char>)
    requires
        open.dom().finite(),
        !open.contains_key(h),
    ensures
        open_count(open.insert(h, f), k) == open_count(open, k) + (if f.hash() == k {
            1nat
        } else {
            0
        }),
{
    let a = open.dom().filter(|x: u64| open[x].hash() == k);
    let next = open.insert(h, f);
    let b = next.dom().filter(|x: u64| next[x].hash() == k);
    if f.hash() == k {
        assert(b =~= a.insert(h));
    } else {
        assert(b =~= a);
    }
}

proof fn lemma_open_count_remove(open: Map<u64, OpenView>, h: u64, k: Seq<char>)
    requires
        open.dom().finite(),
        open.contains_key(h),
    ensures
        open_count(open, k) == open_count(open.remove(h), k) + (if open[h].hash() == k {
            1nat
        } else {
            0
        }),
{
    let rest = open.remove(h);
    lemma_open_count_insert(rest, h, open[h], k);
    assert(rest.insert(h, open[h]) =~= open);
}

impl Vfs {
    /// Whether the parts are in order, every handle has a number below the next one, and every open
    /// handle is counted in the block cache.
    pub closed spec fn wf(&self) -> bool {
        &&& self.tree.wf()
        &&& self.cache.wf()
        &&& self.drafts.wf()
        &&& self.queue.wf()
        &&& self.readahead.wf()
        &&& forall|h: u64| #[trigger] self.open_files@.contains_key(h) ==> h < self.next_handle
        &&& handles_retained(self@)
    }

    /// What being in order says of the state.
    pub proof fn lemma_wf(&self)
        requires
            self.wf(),
        ensures
            crate::tree::tree_wf(self@.tree),
            crate::cache::entries_wf(self@.cached, self@.cache_clock),
            self@.cached.dom().finite(),
            self@.drafts.dom().finite(),
            self@.open.dom().finite(),
            forall|h: u64| #[trigger] self@.open.contains_key(h) ==> h < self@.next_handle,
            handles_retained(self@),
            self@.queue.timers.finite(),
            self@.queue.timers.len() <= self@.queue.busy,
            forall|k: Seq<char>|
                self@.drafts.contains_key(k) ==> (#[trigger] self@.drafts[k]).stamp
                    < self@.draft_clock,
    {
        self.tree.lemma_wf();
        self.cache.lemma_wf();
        self.drafts.lemma_wf();
        self.queue.lemma_wf();
        self.open_files.lemma_finite();
    }

    /// A file system over what was found on disk, with no open files. The drafts that were left waiting
    /// are queued at once; the second result names them, for their uploads to be started.
    pub fn new(remote_base: &str, cache: BlockCache, drafts: DraftStore) -> (r: (Self, Vec<String>))
        requires
            cache.wf(),
            drafts.wf(),
        ensures
            r.0.wf(),
            r.0@.cached == cache.entries(),
            r.0@.retains == cache.retains(),
            r.0@.cache_clock == cache.clock(),
            r.0@.cache_budget == cache.budget(),
            r.0@.cache_root == cache.root_dir(),
            r.0@.drafts == drafts.drafts(),
            r.0@.draft_clock == drafts.clock(),
            r.0@.draft_root == drafts.root_dir(),
            r.0@.open == Map::<u64, OpenView>::empty(),
            r.0@.next_handle == 1,
            r.0@.next_tmp == 1,
            r.0@.readahead == Set::<Seq<char>>::empty(),
            starts_with(r.0@, remote_base@, crate::text::texts(r.1@)),
    {
        let tree = VfsTree::new(remote_base);
        let resume: Vec<String> = drafts.pending();
        let mut queue = WriteBackQueue::new();
        let waiting: usize = resume.len();
        let queued: usize = queue.enqueue_immediate(&resume);
        let open_files: IdMap<OpenFile> = IdMap::new();
        let readahead: StrMap<()> = KeyMap::new();
        let v = Vfs { tree, cache, drafts, queue, open_files, next_handle: 1, next_tmp: 1, readahead };
        proof {
            assert(v.readahead@.dom() =~= Set::<Seq<char>>::empty());
            assert forall|k: Seq<char>| open_count(v@.open, k) == 0 by {
                assert(v@.open.dom().filter(|h: u64| v@.open[h].hash() == k) =~= Set::<u64>::empty());
            }
        }
        (v, resume)
    }

    /// Whether every counter can still count on (see [`room`]).
    pub fn has_room(&self) -> (r: bool)
        requires
            self.wf(),
        ensures
            r == room(self@),
    {
        self.next_handle < u64::MAX && self.next_tmp < u64::MAX && self.cache.next_seq() < u64::MAX
            && self.drafts.next_stamp() < u64::MAX && self.queue.busy() < u64::MAX
            && self.tree.next_id() < u64::MAX
    }

    /// Takes what was reported, oldest first.
    pub fn take_events(&mut self) -> (r: Vec<VfsEvent>)
        requires
            old(self).wf(),
        ensures
            final(self).wf(),
            crate::writeback::event_views(r@) == old(self)@.queue.events,
            final(self)@ == (VfsView {
                queue: (QueueView { events: Seq::empty(), ..old(self)@.queue }),
                ..old(self)@
            }),
    {
        let r = self.queue.take_events();
        proof {
            assert(self@ =~= (VfsView {
                queue: (QueueView { events: Seq::empty(), ..old(self)@.queue }),
                ..old(self)@
            }));
            self.keep_handles(*old(self));
        }
        r
    }

    /// The directory tree.
    pub fn tree(&self) -> (r: &VfsTree)
        requires
            self.wf(),
        ensures
            r.wf(),
            r@ == self@.tree,
    {
        &self.tree
    }

    /// The drafts.
    pub fn drafts(&self) -> (r: &DraftStore)
        requires
            self.wf(),
        ensures
            r.wf(),
            r.drafts() == self@.drafts,
            r.root_dir() == self@.draft_root,
            r.clock() == self@.draft_clock,
    {
        &self.drafts
    }

    /// The block cache.
    pub fn cache(&self) -> (r: &BlockCache)
        requires
            self.wf(),
        ensures
            r.wf(),
            r.entries() == self@.cached,
            r.retains() == self@.retains,
            r.clock() == self@.cache_clock,
            r.budget() == self@.cache_budget,
            r.root_dir() == self@.cache_root,
    {
        &self.cache
    }

    /// The write-back queue.
    pub fn queue(&self) -> (r: &WriteBackQueue)
        requires
            self.wf(),
        ensures
            r.wf(),
            r@ == self@.queue,
    {
        &self.queue
    }
}

// ---------------------------------------------------------------------------
// Looking things up.
// ---------------------------------------------------------------------------

impl Vfs {
    /// What is shown of a node (see [`VfsView::overlaid`]).
    fn overlay_draft(&self, attr: NodeAttr) -> (r: NodeAttr)
        requires
            self.wf(),
        ensures
            r@ == self@.overlaid(attr@),
    {
        match (
            self.drafts.size(attr.remote_path.as_str()),
            self.drafts.mtime_unix(attr.remote_path.as_str()),
        ) {
            (Some(size), Some(mtime_secs)) => NodeAttr { size, mtime_secs, ..attr },
            _ => attr,
        }
    }

    /// Whether `dir` is to be listed before it is read, and which remote directory that is.
    pub fn plan_listing(&self, dir: NodeId, now: u64) -> (r: Result<Option<String>, VfsError>)
        requires
            self.wf(),
        ensures
            listing_planned(self@, dir.0, now, r),
    {
        self.tree.plan_listing(dir, now)
    }

    /// Takes in a listing of `dir` (see [`VfsTree::apply_listing`]).
    pub fn apply_listing(&mut self, dir: NodeId, files: &Vec<RemoteFile>, now: u64)
        requires
            old(self).wf(),
            dir.0 < old(self)@.tree.next_id,
            old(self)@.tree.next_id + files@.len() <= u64::MAX,
        ensures
            final(self).wf(),
            listing_taken(old(self)@, dir.0, files@, now, final(self)@),
    {
        self.tree.apply_listing(dir, files, now);
        proof {
            assert(self@ =~= (VfsView { tree: self@.tree, ..old(self)@ }));
            self.keep_handles(*old(self));
        }
    }

    /// Makes known that something changed at `remote_path` (see [`VfsTree::invalidate_path`]).
    pub fn invalidate_path(&mut self, remote_path: &str)
        requires
            old(self).wf(),
        ensures
            final(self).wf(),
            final(self)@ == (VfsView {
                tree: crate::tree::invalidated(old(self)@.tree, remote_path@),
                ..old(self)@
            }),
    {
        self.tree.invalidate_path(remote_path);
        proof {
            assert(self@ =~= (VfsView { tree: self@.tree, ..old(self)@ }));
            self.keep_handles(*old(self));
        }
    }

    /// Prepares to ask the server for the current version of `remote_path` (see
    /// [`VfsTree::expire_listing_of`]).
    pub fn expire_listing_of(&mut self, remote_path: &str) -> (r: Option<NodeId>)
        requires
            old(self).wf(),
        ensures
            final(self).wf(),
            listing_expired(old(self)@, remote_path@, r, final(self)@),
    {
        let r = self.tree.expire_listing_of(remote_path);
        proof {
            assert(self@ =~= (VfsView { tree: self@.tree, ..old(self)@ }));
            self.keep_handles(*old(self));
        }
        r
    }

    /// The version of `remote_path` that the listing of `dir` told.
    pub fn listed_etag(&self, dir: NodeId, remote_path: &str) -> (r: Option<String>)
        requires
            self.wf(),
        ensures
            etag_listed(self@, dir.0, remote_path@, r),
    {
        self.tree.listed_etag(dir, remote_path)
    }

    /// What is shown of a node. Never lists anything.
    pub fn getattr(&self, node: NodeId) -> (r: Option<NodeAttr>)
        requires
            self.wf(),
        ensures
            getattr_shows(self@, node.0, r),
    {
        match self.tree.getattr(node) {
            Some(a) => Some(self.overlay_draft(a)),
            None => None,
        }
    }

    /// The entry that a name in `parent` resolves to (see [`VfsView::entry`]). The parent's listing is
    /// taken as it is.
    pub fn lookup(&self, parent: NodeId, name: &str) -> (r: Option<(NodeId, NodeAttr)>)
        requires
            self.wf(),
        ensures
            lookup_shows(self@, parent.0, name@, r),
    {
        match self.tree.lookup(parent, name) {
            Some(p) => Some((p.0, self.overlay_draft(p.1))),
            None => match self.tree.known_child(parent, name) {
                Some(p) => Some((p.0, self.overlay_draft(p.1))),
                None => None,
            },
        }
    }

    /// The entries of `dir`: those that its listing told, in that order, then those that exist only here,
    /// in no particular order. The listing is taken as it is.
    pub fn readdir(&self, dir: NodeId) -> (r: Vec<(NodeId, NodeAttr)>)
        requires
            self.wf(),
        ensures
            readdir_shows(self@, dir.0, r@),
    {
        let listed: Vec<(NodeId, NodeAttr)> = self.tree.readdir(dir);
        let known: Vec<(NodeId, NodeAttr)> = self.tree.known_children_of(dir);
        let ghost all_listed = crate::tree::rows(listed@);
        let mut out: Vec<(NodeId, NodeAttr)> = Vec::new();
        let ghost mut shown: Seq<(u64, AttrView)> = Seq::empty();
        let ghost show = |p: (u64, AttrView)| (p.0, self@.overlaid(p.1));
        let mut i: usize = 0;
        proof {
            assert(crate::tree::rows(out@) =~= shown.map_values(show));
        }
        while i < listed.len()
            invariant
                i <= listed@.len(),
                self.wf(),
                all_listed == crate::tree::rows(listed@),
                shown == all_listed.subrange(0, i as int),
                show == (|p: (u64, AttrView)| (p.0, self@.overlaid(p.1))),
                crate::tree::rows(out@) == shown.map_values(show),
            decreases listed@.len() - i,
        {
            let ghost before = crate::tree::rows(out@);
            let ghost row = all_listed[i as int];
            out.push((listed[i].0, self.overlay_draft(listed[i].1.clone())));
            proof {
                assert(row == (listed@[i as int].0.0, listed@[i as int].1@));
                assert(crate::tree::rows(out@) =~= before.push(show(row)));
                assert(shown.push(row).map_values(show) =~= shown.map_values(show).push(show(row)));
                shown = shown.push(row);
                assert(shown =~= all_listed.subrange(0, i + 1));
            }
            i = i + 1;
        }
        assert(shown =~= all_listed);
        let mut j: usize = 0;
        let ghost mut extra: Seq<(u64, AttrView)> = Seq::empty();
        assert(all_listed + extra =~= all_listed);
        while j < known.len()
            invariant
                j <= known@.len(),
                self.wf(),
                all_listed == crate::tree::rows(listed@),
                show == (|p: (u64, AttrView)| (p.0, self@.overlaid(p.1))),
                crate::tree::rows(out@) == (all_listed + extra).map_values(show),
                forall|z: int|
                    0 <= z < extra.len() ==> !lists_id(all_listed, (#[trigger] extra[z]).0) && exists|
                        k: int,
                    | 0 <= k < j && extra[z] == ((#[trigger] known@[k]).0.0, known@[k].1@),
                forall|k: int|
                    0 <= k < j && !lists_id(all_listed, (#[trigger] known@[k]).0.0)
                        ==> extra.contains((known@[k].0.0, known@[k].1@)),
                forall|a: int, b: int|
                    0 <= a < b < known@.len() ==> (#[trigger] known@[a]).0 != (#[trigger] known@[b]).0,
                forall|a: int, b: int|
                    0 <= a < b < extra.len() ==> (#[trigger] extra[a]).0 != (#[trigger] extra[b]).0,
            decreases known@.len() - j,
        {
            let ghost before = extra;
            let ghost row = (known@[j as int].0.0, known@[j as int].1@);
            if !contains_node(&listed, known[j].0) {
                let ghost had = crate::tree::rows(out@);
                out.push((known[j].0, self.overlay_draft(known[j].1.clone())));
                proof {
                    extra = before.push(row);
                    assert(crate::tree::rows(out@) =~= had.push(show(row)));
                    assert((all_listed + extra).map_values(show) =~= (all_listed + before).map_values(
                        show,
                    ).push(show(row)));
                    assert forall|a: int, b: int| 0 <= a < b < extra.len() implies (
                    #[trigger] extra[a]).0 != (#[trigger] extra[b]).0 by {
                        if b == before.len() {
                            let k = choose|k: int|
                                0 <= k < j && before[a] == ((#[trigger] known@[k]).0.0, known@[k].1@);
                            assert(known@[k].0 != known@[j as int].0);
                        }
                    }
                    assert(extra[before.len() as int] == row);
                }
            }
            proof {
                assert forall|z: int| 0 <= z < extra.len() implies !lists_id(
                    all_listed,
                    (#[trigger] extra[z]).0,
                ) && exists|k: int|
                    0 <= k < j + 1 && extra[z] == ((#[trigger] known@[k]).0.0, known@[k].1@) by {
                    if z < before.len() {
                        assert(extra[z] == before[z]);
                        let k = choose|k: int|
                            0 <= k < j && before[z] == ((#[trigger] known@[k]).0.0, known@[k].1@);
                        assert(extra[z] == (known@[k].0.0, known@[k].1@));
                    } else {
                        assert(extra[z] == (known@[j as int].0.0, known@[j as int].1@));
                    }
                }
                assert forall|k: int|
                    0 <= k < j + 1 && !lists_id(all_listed, (#[trigger] known@[k]).0.0) implies extra.contains(
                    (known@[k].0.0, known@[k].1@),
                ) by {
                    if k < j {
                        let z = choose|z: int|
                            0 <= z < before.len() && before[z] == (known@[k].0.0, known@[k].1@);
                        assert(extra[z] == (known@[k].0.0, known@[k].1@));
                    } else {
                        assert(extra[before.len() as int] == row);
                    }
                }
            }
            j = j + 1;
        }
        proof {
            let t = self@.tree;
            assert(only_here(t, dir.0, extra)) by {
                assert forall|id: u64, a: AttrView| #[trigger]
                    extra.contains((id, a)) <==> crate::tree::is_known_child(t, dir.0, id) && a
                        == t.attrs[id] && !lists_id(crate::tree::listed_rows(t, dir.0), id) by {
                    let r = crate::tree::rows(known@);
                    if extra.contains((id, a)) {
                        let z = choose|z: int| 0 <= z < extra.len() && extra[z] == (id, a);
                        let k = choose|k: int|
                            0 <= k < known@.len() && extra[z] == (
                                (#[trigger] known@[k]).0.0,
                                known@[k].1@,
                            );
                        assert(r[k] == (id, a));
                        assert(r.contains((id, a)));
                    }
                    if crate::tree::is_known_child(t, dir.0, id) && a == t.attrs[id] && !lists_id(
                        crate::tree::listed_rows(t, dir.0),
                        id,
                    ) {
                        assert(r.contains((id, a)));
                        let k = choose|k: int| 0 <= k < r.len() && r[k] == (id, a);
                        assert(known@[k].0.0 == id);
                        assert(extra.contains((known@[k].0.0, known@[k].1@)));
                    }
                }
            }
            assert(only_here(t, dir.0, extra) && crate::tree::rows(out@) == (
            crate::tree::listed_rows(t, dir.0) + extra).map_values(show));
        }
        out
    }
}

/// Whether one of the rows is of node `id`.
pub open spec fn lists_id(list: Seq<(u64, AttrView)>, id: u64) -> bool {
    exists|i: int| 0 <= i < list.len() && (#[trigger] list[i]).0 == id
}

/// Whether `extra` are the children of `dir` that its listing did not tell, each once.
pub open spec fn only_here(t: TreeView, dir: u64, extra: Seq<(u64, AttrView)>) -> bool {
    &&& forall|id: u64, a: AttrView| #[trigger]
        extra.contains((id, a)) <==> crate::tree::is_known_child(t, dir, id) && a == t.attrs[id]
            && !lists_id(crate::tree::listed_rows(t, dir), id)
    &&& forall|i: int, j: int|
        0 <= i < j < extra.len() ==> (#[trigger] extra[i]).0 != (#[trigger] extra[j]).0
}

fn contains_node(list: &Vec<(NodeId, NodeAttr)>, id: NodeId) -> (r: bool)
    ensures
        r == lists_id(crate::tree::rows(list@), id.0),
{
    let ghost all = crate::tree::rows(list@);
    let mut i: usize = 0;
    while i < list.len()
        invariant
            i <= list@.len(),
            all == crate::tree::rows(list@),
            forall|j: int| 0 <= j < i ==> (#[trigger] all[j]).0 != id.0,
        decreases list@.len() - i,
    {
        if list[i].0 == id {
            assert(all[i as int].0 == id.0);
            return true;
        }
        i = i + 1;
    }
    false
}

/// Whether the plan for the listing of `dir` at time `now` is `r`.
pub open spec fn listing_planned(
    v: VfsView,
    dir: u64,
    now: u64,
    r: Result<Option<String>, VfsError>,
) -> bool {
    match r {
        Ok(None) => crate::tree::is_fresh(v.tree, dir, now),
        Ok(Some(path)) => !crate::tree::is_fresh(v.tree, dir, now)
            && v.tree.attrs.contains_key(dir) && path@
            == v.tree.attrs[dir].remote_path,
        Err(e) => !crate::tree::is_fresh(v.tree, dir, now)
            && !v.tree.attrs.contains_key(dir) && says(
            e,
            crate::tree::unknown_node_message(),
        ),
    }
}

/// Whether `r` is what is shown of `node`.
pub open spec fn getattr_shows(
    v: VfsView,
    node: u64,
    r: Option<NodeAttr>,
) -> bool {
    match r {
        Some(a) => v.tree.attrs.contains_key(node) && a@ == v.overlaid(
            v.tree.attrs[node],
        ),
        None => !v.tree.attrs.contains_key(node),
    }
}

/// Whether `r` is what is shown of the entry `name` in `parent`.
pub open spec fn lookup_shows(
    v: VfsView,
    parent: u64,
    name: Seq<char>,
    r: Option<(NodeId, NodeAttr)>,
) -> bool {
    match r {
        Some(p) => v.entry(parent, name) == Some((p.0.0, p.1@)),
        None => v.entry(parent, name) is None,
    }
}

/// Whether `r` is what is shown of the directory `dir`.
pub open spec fn readdir_shows(
    v: VfsView,
    dir: u64,
    r: Seq<(NodeId, NodeAttr)>,
) -> bool {
    exists|extra: Seq<(u64, AttrView)>| #[trigger]
        only_here(v.tree, dir, extra) && crate::tree::rows(r) == (
        crate::tree::listed_rows(v.tree, dir) + extra).map_values(
            |p: (u64, AttrView)| (p.0, v.overlaid(p.1)),
        )
}

/// Whether the listing of the directory that holds `remote_path` expires, as `r` tells, from `v` to `w`.
pub open spec fn listing_expired(
    v: VfsView,
    remote_path: Seq<char>,
    r: Option<NodeId>,
    w: VfsView,
) -> bool {
    match r {
        Some(d) => {
            &&& crate::text::rsplit_once_at(remote_path, '/') matches Some(parts)
            &&& crate::tree::is_dir_at(v.tree, d.0, parts.0)
            &&& w == (VfsView {
                tree: (TreeView {
                    listed_at: v.tree.listed_at.remove(d.0),
                    ..v.tree
                }),
                ..v
            })
        },
        None => {
            &&& w == v
            &&& crate::text::rsplit_once_at(remote_path, '/') matches Some(parts)
                ==> forall|d: u64| !#[trigger] crate::tree::is_dir_at(
                v.tree,
                d,
                parts.0,
            )
        },
    }
}

/// Whether `r` is the version that the listing of `dir` tells of `remote_path`.
pub open spec fn etag_listed(
    v: VfsView,
    dir: u64,
    remote_path: Seq<char>,
    r: Option<String>,
) -> bool {
    match r {
        Some(e) => crate::tree::first_at_path(
            crate::tree::listed_rows(v.tree, dir),
            remote_path,
        ) matches Some(row) && row.1.etag == e@,
        None => crate::tree::first_at_path(
            crate::tree::listed_rows(v.tree, dir),
            remote_path,
        ) is None,
    }
}

/// Whether taking a listing of `dir` in leads from `v` to `w`.
pub open spec fn listing_taken(
    v: VfsView,
    dir: u64,
    files: Seq<RemoteFile>,
    now: u64,
    w: VfsView,
) -> bool {
    w == (VfsView {
        tree: if crate::tree::is_fresh(v.tree, dir, now) {
            v.tree
        } else {
            crate::tree::listing_applied(v.tree, dir, files, now)
        },
        ..v
    })
}

/// Whether a file system starts as `w`, over the directory `remote_base`, with the drafts of `waiting` to be
/// uploaded.
pub open spec fn starts_with(
    w: VfsView,
    remote_base: Seq<char>,
    waiting: Seq<Seq<char>>,
) -> bool {
    &&& w.tree == crate::tree::new_tree(remote_base)
    &&& crate::drafts::lists_waiting(w.drafts, waiting)
    &&& w.queue == crate::writeback::enqueued(
        crate::writeback::idle_queue(),
        waiting,
        waiting.len() as int,
    )
}

} // verus!
