//! Index of the local drafts that absorb every write.
//!
//! One directory per remote file that is being edited, named by [`hash16`]. It holds `data`, the
//! whole local content, and `draft.json`, which records the draft. Drafts live apart from the block
//! cache, so that no eviction can reach one. This module decides what is recorded, read and written
//! where; the caller moves the bytes.

use vstd::prelude::*;

use crate::error::VfsError;
use crate::hash::shard_name;
use crate::keymap::StrMap;
use crate::text::{concat, join_child, strictly_under};

verus! {

/// Where a draft is in its life.
#[derive(Debug, Clone, Copy, PartialEq, Eq, Structural)]
pub enum DraftState {
    /// Changed locally, not yet queued.
    Editing,
    /// Queued for upload, not yet in flight.
    Pending,
    /// An upload is in progress.
    Uploading,
}

/// What a new draft starts from.
#[derive(Debug)]
pub enum DraftInit {
    /// Nothing: a new file, or one that is cut to nothing.
    Empty,
    /// A copy of the remote content, already on disk at this path. It is moved, not copied.
    Materialized(String),
}

/// What `draft.json` holds.
#[derive(Debug)]
pub struct DraftMeta {
    pub remote_path: String,
    pub base_etag: String,
    pub size: u64,
    pub state: DraftState,
    pub last_write_unix: i64,
}

/// A directory found under the drafts root: its name, and its `draft.json` where that could be
/// read.
pub struct ScannedDraft {
    pub hash: String,
    pub meta: Option<DraftMeta>,
}

/// A stretch of a draft's data file.
#[derive(Debug, Clone, Copy, PartialEq, Eq, Structural)]
pub struct DraftSpan {
    pub offset: u64,
    pub len: u64,
}

/// The directories that a renamed draft moves between, and what is to be recorded of it.
#[derive(Debug)]
pub struct DraftMove {
    pub from_hash: String,
    pub to_hash: String,
    pub meta: DraftMeta,
}

/// One draft.
pub struct Draft {
    remote_path: String,
    base_etag: String,
    size: u64,
    state: DraftState,
    last_write_unix: i64,
    stamp: u64,
}

/// A [`Draft`] as plain values.
#[verifier::ext_equal]
pub struct DraftView {
    pub remote_path: Seq<char>,
    /// Etag of the remote content that the draft started from; empty for a file that the server has
    /// never seen.
    pub base_etag: Seq<char>,
    pub size: u64,
    pub state: DraftState,
    pub last_write_unix: i64,
    /// Number of the last change to the content; every change gets one of its own.
    pub stamp: u64,
}

impl View for Draft {
    type V = DraftView;

    closed spec fn view(&self) -> DraftView {
        DraftView {
            remote_path: self.remote_path@,
            base_etag: self.base_etag@,
            size: self.size,
            state: self.state,
            last_write_unix: self.last_write_unix,
            stamp: self.stamp,
        }
    }
}

/// The index of drafts.
pub struct DraftStore {
    root: String,
    entries: StrMap<Draft>,
    next_stamp: u64,
}

/// Directory name for a remote path.
pub open spec fn path_hash(remote_path: Seq<char>) -> Seq<char> {
    crate::hash::shard_of(vstd::utf8::encode_utf8(remote_path))
}

/// Directory name for a remote path.
pub fn hash16(remote_path: &str) -> (r: String)
    ensures
        r@ == path_hash(remote_path@),
{
    shard_name(remote_path.as_bytes())
}

/// Whether `meta` records the draft `d`.
pub open spec fn records(meta: DraftMeta, d: DraftView) -> bool {
    &&& meta.remote_path@ == d.remote_path
    &&& meta.base_etag@ == d.base_etag
    &&& meta.size == d.size
    &&& meta.state == d.state
    &&& meta.last_write_unix == d.last_write_unix
}

/// The state in which a draft is found again after a restart: an upload that was in progress is not
/// known to have reached the server, so it is queued again.
pub open spec fn state_after_restart(state: DraftState) -> DraftState {
    if state == DraftState::Uploading {
        DraftState::Pending
    } else {
        state
    }
}

/// Whether a draft waits for an upload or is being uploaded.
pub open spec fn is_waiting(state: DraftState) -> bool {
    state == DraftState::Pending || state == DraftState::Uploading
}

/// Whether `paths` are the paths of the drafts in the directories `keys`, and those are the ones that wait.
pub open spec fn waits_in(
    drafts: Map<Seq<char>, DraftView>,
    keys: Seq<Seq<char>>,
    paths: Seq<Seq<char>>,
) -> bool {
    &&& keys.no_duplicates()
    &&& keys.len() == paths.len()
    &&& forall|k: Seq<char>|
        keys.contains(k) <==> drafts.contains_key(k) && is_waiting(#[trigger] drafts[k].state)
    &&& forall|i: int| 0 <= i < keys.len() ==> #[trigger] paths[i] == drafts[keys[i]].remote_path
}

/// Whether `paths` names every draft that waits or is being uploaded, each once, in some order.
pub open spec fn lists_waiting(drafts: Map<Seq<char>, DraftView>, paths: Seq<Seq<char>>) -> bool {
    exists|keys: Seq<Seq<char>>| #[trigger] waits_in(drafts, keys, paths)
}

/// A path is named where a draft of it waits, and only there.
pub proof fn lemma_lists_waiting(drafts: Map<Seq<char>, DraftView>, paths: Seq<Seq<char>>)
    requires
        lists_waiting(drafts, paths),
    ensures
        forall|p: Seq<char>| #[trigger]
            paths.contains(p) <==> exists|k: Seq<char>| #[trigger]
                drafts.contains_key(k) && drafts[k].remote_path == p && is_waiting(drafts[k].state),
{
    let keys = choose|keys: Seq<Seq<char>>| #[trigger] waits_in(drafts, keys, paths);
    assert forall|p: Seq<char>| #[trigger] paths.contains(p) <==> exists|k: Seq<char>| #[trigger]
        drafts.contains_key(k) && drafts[k].remote_path == p && is_waiting(drafts[k].state) by {
        if paths.contains(p) {
            let i = choose|i: int| 0 <= i < paths.len() && paths[i] == p;
            assert(keys.contains(keys[i]));
            assert(drafts.contains_key(keys[i]) && is_waiting(drafts[keys[i]].state));
        }
        if exists|k: Seq<char>| #[trigger]
            drafts.contains_key(k) && drafts[k].remote_path == p && is_waiting(drafts[k].state) {
            let k = choose|k: Seq<char>| #[trigger]
                drafts.contains_key(k) && drafts[k].remote_path == p && is_waiting(drafts[k].state);
            assert(is_waiting(drafts[k].state));
            assert(keys.contains(k));
            let i = choose|i: int| 0 <= i < keys.len() && keys[i] == k;
            assert(paths[i] == p);
        }
    }
}

/// The draft that a scanned `draft.json` brings back.
pub open spec fn restored(meta: DraftMeta) -> DraftView {
    DraftView {
        remote_path: meta.remote_path@,
        base_etag: meta.base_etag@,
        size: meta.size,
        state: state_after_restart(meta.state),
        last_write_unix: meta.last_write_unix,
        stamp: 0,
    }
}

/// Whether no two scanned directories have the same name.
pub open spec fn distinct_names(scanned: Seq<ScannedDraft>) -> bool {
    forall|i: int, j: int|
        #![trigger scanned[i], scanned[j]]
        0 <= i < j < scanned.len() ==> scanned[i].hash@ != scanned[j].hash@
}

/// Whether `entries` holds what the first `n` scanned directories recorded, and nothing else.
pub open spec fn loaded_from_scan(
    entries: Map<Seq<char>, DraftView>,
    scanned: Seq<ScannedDraft>,
    n: int,
) -> bool {
    &&& forall|i: int|
        0 <= i < n && (#[trigger] scanned[i]).meta is Some ==> entries.contains_key(
            scanned[i].hash@,
        ) && entries[scanned[i].hash@] == restored(scanned[i].meta->0)
    &&& forall|k: Seq<char>| #[trigger]
        entries.contains_key(k) ==> exists|i: int|
            0 <= i < n && (#[trigger] scanned[i]).meta is Some && scanned[i].hash@ == k
}

/// Names of the first `n` scanned directories without a readable `draft.json`, in scan order.
pub open spec fn orphan_names(scanned: Seq<ScannedDraft>, n: int) -> Seq<Seq<char>>
    decreases n,
{
    if n <= 0 {
        Seq::empty()
    } else if scanned[n - 1].meta is None {
        orphan_names(scanned, n - 1).push(scanned[n - 1].hash@)
    } else {
        orphan_names(scanned, n - 1)
    }
}

/// Names of the first `n` scanned directories whose draft was found mid-upload, in scan order.
pub open spec fn demoted_names(scanned: Seq<ScannedDraft>, n: int) -> Seq<Seq<char>>
    decreases n,
{
    if n <= 0 {
        Seq::empty()
    } else if scanned[n - 1].meta is Some && scanned[n - 1].meta->0.state == DraftState::Uploading {
        demoted_names(scanned, n - 1).push(scanned[n - 1].hash@)
    } else {
        demoted_names(scanned, n - 1)
    }
}

/// Message for a path without a draft.
pub open spec fn no_draft_message(remote_path: Seq<char>) -> Seq<char> {
    "no draft open for "@ + remote_path
}

fn no_draft(remote_path: &str) -> (r: VfsError)
    ensures
        r matches VfsError::Other(m) && m@ == no_draft_message(remote_path@),
{
    VfsError::Other(concat("no draft open for ", remote_path))
}

/// Whether `e` says that `remote_path` has no draft.
pub open spec fn says_no_draft(e: VfsError, remote_path: Seq<char>) -> bool {
    e matches VfsError::Other(m) && m@ == no_draft_message(remote_path)
}

/// A draft after a change to its content, which is the change number `stamp`.
pub open spec fn edited(d: DraftView, size: u64, now: i64, stamp: u64) -> DraftView {
    DraftView { size, last_write_unix: now, stamp, ..d }
}

/// Size of a draft after `len` bytes are written at `offset`.
pub open spec fn size_after_write(size: u64, offset: u64, len: int) -> int {
    if size as int > offset + len {
        size as int
    } else {
        offset + len
    }
}

/// How many bytes a read of `len` bytes at `offset` gets from a file of `size` bytes.
pub open spec fn readable_len(size: u64, offset: u64, len: u32) -> int {
    if offset >= size {
        0
    } else if len as int > size - offset {
        size - offset
    } else {
        len as int
    }
}

/// Size that a new draft starts with, where `file_len` is the length of the copy that it starts from.
pub fn initial_size(initial: &DraftInit, file_len: u64) -> (r: u64)
    ensures
        r == (match initial {
            DraftInit::Empty => 0,
            DraftInit::Materialized(_) => file_len,
        }),
{
    match initial {
        DraftInit::Empty => 0,
        DraftInit::Materialized(_) => file_len,
    }
}

/// What is recorded of a draft that begins.
pub fn fresh_meta(remote_path: &str, base_etag: &str, size: u64, now: i64) -> (r: DraftMeta)
    ensures
        r.remote_path@ == remote_path@,
        r.base_etag@ == base_etag@,
        r.size == size,
        r.state == DraftState::Editing,
        r.last_write_unix == now,
{
    DraftMeta {
        remote_path: remote_path.to_owned(),
        base_etag: base_etag.to_owned(),
        size,
        state: DraftState::Editing,
        last_write_unix: now,
    }
}

impl Draft {
    fn to_meta(&self) -> (r: DraftMeta)
        ensures
            records(r, self@),
    {
        DraftMeta {
            remote_path: self.remote_path.clone(),
            base_etag: self.base_etag.clone(),
            size: self.size,
            state: self.state,
            last_write_unix: self.last_write_unix,
        }
    }
}

impl DraftStore {
    /// The drafts, by directory name.
    pub closed spec fn drafts(&self) -> Map<Seq<char>, DraftView> {
        self.entries@
    }

    /// Directory that holds the drafts.
    pub closed spec fn root_dir(&self) -> Seq<char> {
        self.root@
    }

    /// Number that the next change to any draft's content gets.
    pub closed spec fn clock(&self) -> u64 {
        self.next_stamp
    }

    /// Whether the index is in order: the list behind it is, and no draft bears a number that was not
    /// handed out yet.
    pub closed spec fn wf(&self) -> bool {
        &&& self.entries.wf()
        &&& forall|k: Seq<char>|
            self.entries@.contains_key(k) ==> (#[trigger] self.entries@[k]).stamp < self.next_stamp
    }

    /// Whether `remote_path` has a draft.
    pub open spec fn has(&self, remote_path: Seq<char>) -> bool {
        self.drafts().contains_key(path_hash(remote_path))
    }

    /// The draft of `remote_path`.
    pub open spec fn of(&self, remote_path: Seq<char>) -> DraftView {
        self.drafts()[path_hash(remote_path)]
    }

    /// The index is finite, and no draft bears a number that was not handed out yet.
    pub proof fn lemma_wf(&self)
        requires
            self.wf(),
        ensures
            self.drafts().dom().finite(),
            forall|k: Seq<char>|
                self.drafts().contains_key(k) ==> (#[trigger] self.drafts()[k]).stamp < self.clock(),
    {
        self.entries.lemma_slots();
    }

    /// Number that the next change to any draft's content gets.
    pub fn next_stamp(&self) -> (r: u64)
        ensures
            r == self.clock(),
    {
        self.next_stamp
    }

    /// Builds the index from the directories found under `root`.
    ///
    /// The second result names the directories without a readable `draft.json`, which are to be
    /// deleted. The third names those whose draft was found mid-upload and is queued again; what
    /// [`Self::meta_of_dir`] says of them is to be recorded at once.
    pub fn open(root: &str, scanned: &Vec<ScannedDraft>) -> (r: (Self, Vec<String>, Vec<String>))
        requires
            distinct_names(scanned@),
        ensures
            r.0.wf(),
            r.0.root_dir() == root@,
            r.0.clock() == 1,
            loaded_from_scan(r.0.drafts(), scanned@, scanned@.len() as int),
            crate::text::texts(r.1@) == orphan_names(scanned@, scanned@.len() as int),
            crate::text::texts(r.2@) == demoted_names(scanned@, scanned@.len() as int),
    {
        let mut entries: StrMap<Draft> = StrMap::new();
        let mut orphans: Vec<String> = Vec::new();
        let mut demoted: Vec<String> = Vec::new();
        let n: usize = scanned.len();
        let mut i: usize = 0;
        assert(crate::text::texts(orphans@) =~= orphan_names(scanned@, 0));
        assert(crate::text::texts(demoted@) =~= demoted_names(scanned@, 0));
        while i < n
            invariant
                i <= n,
                n == scanned@.len(),
                distinct_names(scanned@),
                entries.wf(),
                loaded_from_scan(entries@, scanned@, i as int),
                crate::text::texts(orphans@) == orphan_names(scanned@, i as int),
                crate::text::texts(demoted@) == demoted_names(scanned@, i as int),
            decreases n - i,
        {
            let ghost before = entries@;
            let ghost hash = scanned@[i as int].hash@;
            let ghost a = crate::text::texts(orphans@);
            let ghost b = crate::text::texts(demoted@);
            match &scanned[i].meta {
                None => {
                    orphans.push(scanned[i].hash.clone());
                    assert(crate::text::texts(orphans@) =~= a.push(hash));
                },
                Some(meta) => {
                    let state: DraftState = if meta.state == DraftState::Uploading {
                        demoted.push(scanned[i].hash.clone());
                        assert(crate::text::texts(demoted@) =~= b.push(hash));
                        DraftState::Pending
                    } else {
                        meta.state
                    };
                    let draft = Draft {
                        remote_path: meta.remote_path.clone(),
                        base_etag: meta.base_etag.clone(),
                        size: meta.size,
                        state,
                        last_write_unix: meta.last_write_unix,
                        stamp: 0,
                    };
                    assert(draft@ == restored(scanned@[i as int].meta->0));
                    entries.insert(scanned[i].hash.clone(), draft);
                },
            }
            proof {
                assert forall|j: int|
                    0 <= j < i + 1 && (#[trigger] scanned@[j]).meta is Some implies entries@.contains_key(
                    scanned@[j].hash@,
                ) && entries@[scanned@[j].hash@] == restored(scanned@[j].meta->0) by {
                    if j < i {
                        assert(scanned@[j].hash@ != scanned@[i as int].hash@);
                    }
                }
                assert forall|k: Seq<char>| #[trigger] entries@.contains_key(k) implies exists|j: int|
                    0 <= j < i + 1 && (#[trigger] scanned@[j]).meta is Some && scanned@[j].hash@ == k by {
                    if before.contains_key(k) {
                        let j = choose|j: int|
                            0 <= j < i && (#[trigger] scanned@[j]).meta is Some && scanned@[j].hash@
                                == k;
                        assert(scanned@[j].hash@ == k);
                    } else {
                        assert(scanned@[i as int].hash@ == k);
                    }
                }
            }
            i = i + 1;
        }
        proof {
            assert forall|k: Seq<char>| entries@.contains_key(k) implies (#[trigger] entries@[k]).stamp
                < 1 by {
                let j = choose|j: int|
                    0 <= j < n && (#[trigger] scanned@[j]).meta is Some && scanned@[j].hash@ == k;
                assert(entries@[scanned@[j].hash@] == restored(scanned@[j].meta->0));
            }
        }
        (DraftStore { root: root.to_owned(), entries, next_stamp: 1 }, orphans, demoted)
    }

    /// What is recorded of the draft in the directory `hash`.
    pub fn meta_of_dir(&self, hash: &str) -> (r: Option<DraftMeta>)
        requires
            self.wf(),
        ensures
            match r {
                Some(m) => self.drafts().contains_key(hash@) && records(m, self.drafts()[hash@]),
                None => !self.drafts().contains_key(hash@),
            },
    {
        match self.entries.get(&hash.to_owned()) {
            Some(d) => Some(d.to_meta()),
            None => None,
        }
    }

    /// Starts a draft, in place of one that the path may have had. `meta` is what was recorded of it
    /// (see [`fresh_meta`]) and its data file is in place.
    pub fn begin(&mut self, meta: &DraftMeta)
        requires
            old(self).wf(),
            old(self).clock() < u64::MAX,
        ensures
            final(self).wf(),
            final(self).clock() == old(self).clock() + 1,
            final(self).root_dir() == old(self).root_dir(),
            final(self).drafts() == old(self).drafts().insert(
                path_hash(meta.remote_path@),
                DraftView {
                    remote_path: meta.remote_path@,
                    base_etag: meta.base_etag@,
                    size: meta.size,
                    state: meta.state,
                    last_write_unix: meta.last_write_unix,
                    stamp: old(self).clock(),
                },
            ),
    {
        let stamp: u64 = self.next_stamp;
        self.next_stamp = stamp + 1;
        let draft = Draft {
            remote_path: meta.remote_path.clone(),
            base_etag: meta.base_etag.clone(),
            size: meta.size,
            state: meta.state,
            last_write_unix: meta.last_write_unix,
            stamp,
        };
        let hash: String = hash16(meta.remote_path.as_str());
        self.entries.insert(hash, draft);
    }

    /// Records that `len` bytes were written at `offset` of a draft's data file: the draft grows
    /// where they reach past its end. The result is what is to be recorded.
    pub fn write(&mut self, remote_path: &str, offset: u64, len: u64, now: i64) -> (r: Result<
        DraftMeta,
        VfsError,
    >)
        requires
            old(self).wf(),
            old(self).clock() < u64::MAX,
            offset + len <= u64::MAX,
        ensures
            final(self).wf(),
            final(self).clock() == old(self).clock() + (if r is Ok {
                1int
            } else {
                0
            }),
            final(self).root_dir() == old(self).root_dir(),
            r is Ok <==> old(self).has(remote_path@),
            match r {
                Ok(meta) => {
                    &&& final(self).drafts() == old(self).drafts().insert(
                        path_hash(remote_path@),
                        edited(
                            old(self).of(remote_path@),
                            size_after_write(old(self).of(remote_path@).size, offset, len as int) as u64,
                            now,
                            old(self).clock(),
                        ),
                    )
                    &&& records(meta, final(self).of(remote_path@))
                },
                Err(e) => final(self).drafts() == old(self).drafts() && says_no_draft(
                    e,
                    remote_path@,
                ),
            },
    {
        let hash: String = hash16(remote_path);
        match self.entries.remove(&hash) {
            Some(mut draft) => {
                let end: u64 = offset + len;
                let size: u64 = if draft.size > end {
                    draft.size
                } else {
                    end
                };
                draft.size = size;
                draft.last_write_unix = now;
                draft.stamp = self.next_stamp;
                self.next_stamp = self.next_stamp + 1;
                let meta = draft.to_meta();
                let ghost d = draft@;
                self.entries.insert(hash, draft);
                assert(self.entries@ =~= old(self).entries@.insert(path_hash(remote_path@), d));
                Ok(meta)
            },
            None => {
                assert(self.entries@ =~= old(self).entries@);
                Err(no_draft(remote_path))
            },
        }
    }

    /// Where the bytes of a read lie in a draft's data file. A read that reaches past the end gets
    /// what is there, one at or past the end gets nothing.
    pub fn read(&self, remote_path: &str, offset: u64, len: u32) -> (r: Result<DraftSpan, VfsError>)
        requires
            self.wf(),
        ensures
            r is Ok <==> self.has(remote_path@),
            match r {
                Ok(span) => span.offset == offset && span.len == readable_len(
                    self.of(remote_path@).size,
                    offset,
                    len,
                ),
                Err(e) => says_no_draft(e, remote_path@),
            },
    {
        match self.entries.get(&hash16(remote_path)) {
            Some(draft) => {
                let n: u64 = if offset >= draft.size {
                    0
                } else if len as u64 > draft.size - offset {
                    draft.size - offset
                } else {
                    len as u64
                };
                Ok(DraftSpan { offset, len: n })
            },
            None => Err(no_draft(remote_path)),
        }
    }

    /// Records that a draft's data file was cut or filled up with zeros to `size` bytes. The result
    /// is what is to be recorded.
    pub fn truncate(&mut self, remote_path: &str, size: u64, now: i64) -> (r: Result<
        DraftMeta,
        VfsError,
    >)
        requires
            old(self).wf(),
            old(self).clock() < u64::MAX,
        ensures
            final(self).wf(),
            final(self).clock() == old(self).clock() + (if r is Ok {
                1int
            } else {
                0
            }),
            final(self).root_dir() == old(self).root_dir(),
            r is Ok <==> old(self).has(remote_path@),
            match r {
                Ok(meta) => {
                    &&& final(self).drafts() == old(self).drafts().insert(
                        path_hash(remote_path@),
                        edited(old(self).of(remote_path@), size, now, old(self).clock()),
                    )
                    &&& records(meta, final(self).of(remote_path@))
                },
                Err(e) => final(self).drafts() == old(self).drafts() && says_no_draft(
                    e,
                    remote_path@,
                ),
            },
    {
        let hash: String = hash16(remote_path);
        match self.entries.remove(&hash) {
            Some(mut draft) => {
                draft.size = size;
                draft.last_write_unix = now;
                draft.stamp = self.next_stamp;
                self.next_stamp = self.next_stamp + 1;
                let meta = draft.to_meta();
                let ghost d = draft@;
                self.entries.insert(hash, draft);
                assert(self.entries@ =~= old(self).entries@.insert(path_hash(remote_path@), d));
                Ok(meta)
            },
            None => {
                assert(self.entries@ =~= old(self).entries@);
                Err(no_draft(remote_path))
            },
        }
    }

    /// Size of a path's draft.
    pub fn size(&self, remote_path: &str) -> (r: Option<u64>)
        requires
            self.wf(),
        ensures
            r == (if self.has(remote_path@) {
                Some(self.of(remote_path@).size)
            } else {
                None
            }),
    {
        match self.entries.get(&hash16(remote_path)) {
            Some(d) => Some(d.size),
            None => None,
        }
    }

    /// State of a path's draft.
    pub fn state(&self, remote_path: &str) -> (r: Option<DraftState>)
        requires
            self.wf(),
        ensures
            r == (if self.has(remote_path@) {
                Some(self.of(remote_path@).state)
            } else {
                None
            }),
    {
        match self.entries.get(&hash16(remote_path)) {
            Some(d) => Some(d.state),
            None => None,
        }
    }

    /// When a path's draft was last written to, in seconds since 1970.
    pub fn mtime_unix(&self, remote_path: &str) -> (r: Option<i64>)
        requires
            self.wf(),
        ensures
            r == (if self.has(remote_path@) {
                Some(self.of(remote_path@).last_write_unix)
            } else {
                None
            }),
    {
        match self.entries.get(&hash16(remote_path)) {
            Some(d) => Some(d.last_write_unix),
            None => None,
        }
    }

    /// Number of the last change to the content of a path's draft.
    pub fn stamp(&self, remote_path: &str) -> (r: Option<u64>)
        requires
            self.wf(),
        ensures
            r == (if self.has(remote_path@) {
                Some(self.of(remote_path@).stamp)
            } else {
                None
            }),
    {
        match self.entries.get(&hash16(remote_path)) {
            Some(d) => Some(d.stamp),
            None => None,
        }
    }

    /// Etag that a path's draft started from; empty where the server has never seen the file.
    pub fn base_etag(&self, remote_path: &str) -> (r: Option<String>)
        requires
            self.wf(),
        ensures
            match r {
                Some(e) => self.has(remote_path@) && e@ == self.of(remote_path@).base_etag,
                None => !self.has(remote_path@),
            },
    {
        match self.entries.get(&hash16(remote_path)) {
            Some(d) => Some(d.base_etag.clone()),
            None => None,
        }
    }

    /// The data file of a path's draft.
    pub fn data_path(&self, remote_path: &str) -> (r: Option<String>)
        requires
            self.wf(),
        ensures
            match r {
                Some(p) => self.has(remote_path@) && p@ == crate::text::child_path(
                    crate::text::child_path(self.root_dir(), path_hash(remote_path@)),
                    "data"@,
                ),
                None => !self.has(remote_path@),
            },
    {
        let hash: String = hash16(remote_path);
        if self.entries.contains_key(&hash) {
            Some(self.data_path_for_hash(hash.as_str()))
        } else {
            None
        }
    }

    /// Sets the state of a path's draft, whatever it was. The state holds from then on, also where
    /// recording the result fails.
    pub fn set_state(&mut self, remote_path: &str, s: DraftState) -> (r: Result<DraftMeta, VfsError>)
        requires
            old(self).wf(),
        ensures
            final(self).wf(),
            final(self).clock() == old(self).clock(),
            final(self).root_dir() == old(self).root_dir(),
            r is Ok <==> old(self).has(remote_path@),
            match r {
                Ok(meta) => {
                    &&& final(self).drafts() == old(self).drafts().insert(
                        path_hash(remote_path@),
                        (DraftView { state: s, ..old(self).of(remote_path@) }),
                    )
                    &&& records(meta, final(self).of(remote_path@))
                },
                Err(e) => final(self).drafts() == old(self).drafts() && says_no_draft(
                    e,
                    remote_path@,
                ),
            },
    {
        let hash: String = hash16(remote_path);
        match self.entries.remove(&hash) {
            Some(mut draft) => {
                draft.state = s;
                let meta = draft.to_meta();
                let ghost d = draft@;
                self.entries.insert(hash, draft);
                assert(self.entries@ =~= old(self).entries@.insert(path_hash(remote_path@), d));
                Ok(meta)
            },
            None => {
                assert(self.entries@ =~= old(self).entries@);
                Err(no_draft(remote_path))
            },
        }
    }

    /// Makes a path's draft a change of the remote content `etag`, so that its upload replaces that
    /// content.
    pub fn rebase(&mut self, remote_path: &str, etag: &str) -> (r: Result<DraftMeta, VfsError>)
        requires
            old(self).wf(),
        ensures
            final(self).wf(),
            final(self).clock() == old(self).clock(),
            final(self).root_dir() == old(self).root_dir(),
            r is Ok <==> old(self).has(remote_path@),
            match r {
                Ok(meta) => {
                    &&& final(self).drafts() == old(self).drafts().insert(
                        path_hash(remote_path@),
                        (DraftView { base_etag: etag@, ..old(self).of(remote_path@) }),
                    )
                    &&& records(meta, final(self).of(remote_path@))
                },
                Err(e) => final(self).drafts() == old(self).drafts() && says_no_draft(
                    e,
                    remote_path@,
                ),
            },
    {
        let hash: String = hash16(remote_path);
        match self.entries.remove(&hash) {
            Some(mut draft) => {
                draft.base_etag = etag.to_owned();
                let meta = draft.to_meta();
                let ghost d = draft@;
                self.entries.insert(hash, draft);
                assert(self.entries@ =~= old(self).entries@.insert(path_hash(remote_path@), d));
                Ok(meta)
            },
            None => {
                assert(self.entries@ =~= old(self).entries@);
                Err(no_draft(remote_path))
            },
        }
    }

    /// Forgets a path's draft and names its directory, which is to be deleted where it exists. A path
    /// without a draft is no error.
    pub fn remove(&mut self, remote_path: &str) -> (r: String)
        requires
            old(self).wf(),
        ensures
            final(self).wf(),
            final(self).clock() == old(self).clock(),
            final(self).root_dir() == old(self).root_dir(),
            final(self).drafts() == old(self).drafts().remove(path_hash(remote_path@)),
            r@ == crate::text::child_path(old(self).root_dir(), path_hash(remote_path@)),
    {
        let hash: String = hash16(remote_path);
        let gone = self.entries.remove(&hash);
        self.entry_dir(hash.as_str())
    }

    /// Moves a draft to another remote path, in place of a draft that that path may have. The result
    /// says which directory moves where, and what is to be recorded there.
    pub fn rename(&mut self, from: &str, to: &str) -> (r: Result<DraftMove, VfsError>)
        requires
            old(self).wf(),
        ensures
            final(self).wf(),
            final(self).clock() == old(self).clock(),
            final(self).root_dir() == old(self).root_dir(),
            r is Ok <==> old(self).has(from@),
            match r {
                Ok(m) => {
                    &&& final(self).drafts() == old(self).drafts().remove(path_hash(from@)).insert(
                        path_hash(to@),
                        (DraftView { remote_path: to@, ..old(self).of(from@) }),
                    )
                    &&& m.from_hash@ == path_hash(from@)
                    &&& m.to_hash@ == path_hash(to@)
                    &&& records(m.meta, final(self).of(to@))
                },
                Err(e) => final(self).drafts() == old(self).drafts() && says_no_draft(e, from@),
            },
    {
        let from_hash: String = hash16(from);
        match self.entries.remove(&from_hash) {
            Some(mut draft) => {
                draft.remote_path = to.to_owned();
                let to_hash: String = hash16(to);
                let meta = draft.to_meta();
                self.entries.insert(to_hash.clone(), draft);
                Ok(DraftMove { from_hash, to_hash, meta })
            },
            None => {
                assert(self.entries@ =~= old(self).entries@);
                Err(no_draft(from))
            },
        }
    }

    /// Paths of the drafts that wait for an upload or are being uploaded, in no particular order.
    pub fn pending(&self) -> (r: Vec<String>)
        requires
            self.wf(),
        ensures
            lists_waiting(self.drafts(), crate::text::texts(r@)),
    {
        let n: usize = self.entries.len();
        let mut out: Vec<String> = Vec::new();
        let mut i: usize = 0;
        let ghost m = self.entries@;
        let ghost mut keys: Seq<Seq<char>> = Seq::empty();
        proof {
            self.entries.lemma_slots();
        }
        while i < n
            invariant
                i <= n,
                n == self.entries.slot_count(),
                self.wf(),
                self.entries.wf(),
                m == self.entries@,
                keys.len() == out@.len(),
                forall|q: int|
                    0 <= q < keys.len() ==> m.contains_key(#[trigger] keys[q]) && is_waiting(
                        m[keys[q]].state,
                    ) && out@[q]@ == m[keys[q]].remote_path,
                forall|q: int|
                    0 <= q < keys.len() ==> exists|j: int|
                        0 <= j < i && self.entries.slot_key(j) == #[trigger] keys[q],
                keys.no_duplicates(),
                forall|j: int|
                    0 <= j < i && is_waiting(m[#[trigger] self.entries.slot_key(j)].state)
                        ==> keys.contains(self.entries.slot_key(j)),
            decreases n - i,
        {
            let draft: &Draft = self.entries.value_at(i);
            let ghost k = self.entries.slot_key(i as int);
            let ghost before = keys;
            let waiting: bool = draft.state == DraftState::Pending || draft.state
                == DraftState::Uploading;
            if waiting {
                out.push(draft.remote_path.clone());
                proof {
                    self.entries.lemma_slots();
                    assert forall|q: int| 0 <= q < before.len() implies before[q] != k by {
                        let j = choose|j: int| 0 <= j < i && self.entries.slot_key(j) == before[q];
                        assert(self.entries.slot_key(j) != self.entries.slot_key(i as int));
                    }
                    keys = before.push(k);
                }
            }
            proof {
                assert forall|q: int| 0 <= q < keys.len() implies exists|j: int|
                    0 <= j < i + 1 && self.entries.slot_key(j) == #[trigger] keys[q] by {
                    if q < before.len() {
                        let j = choose|j: int| 0 <= j < i && self.entries.slot_key(j) == before[q];
                        assert(self.entries.slot_key(j) == keys[q]);
                    } else {
                        assert(self.entries.slot_key(i as int) == keys[q]);
                    }
                }
                assert forall|j: int|
                    0 <= j < i + 1 && is_waiting(m[#[trigger] self.entries.slot_key(j)].state) implies keys.contains(
                    self.entries.slot_key(j),
                ) by {
                    if j < i {
                        let q = choose|q: int|
                            0 <= q < before.len() && before[q] == self.entries.slot_key(j);
                        assert(keys[q] == self.entries.slot_key(j));
                    } else {
                        assert(keys[before.len() as int] == k);
                    }
                }
            }
            i = i + 1;
        }
        proof {
            self.entries.lemma_slots();
            assert forall|k: Seq<char>|
                keys.contains(k) <==> m.contains_key(k) && is_waiting(#[trigger] m[k].state) by {
                if m.contains_key(k) && is_waiting(m[k].state) {
                    let j = choose|j: int|
                        0 <= j < self.entries.slot_count() && #[trigger] self.entries.slot_key(j) == k;
                    assert(keys.contains(self.entries.slot_key(j)));
                }
                if keys.contains(k) {
                    let q = choose|q: int| 0 <= q < keys.len() && keys[q] == k;
                    assert(m.contains_key(keys[q]));
                }
            }
            let paths = crate::text::texts(out@);
            assert forall|q: int| 0 <= q < keys.len() implies #[trigger] paths[q]
                == m[keys[q]].remote_path by {
                assert(m.contains_key(keys[q]));
            }
            assert(waits_in(m, keys, paths));
        }
        out
    }

    /// Whether some draft lies strictly below the directory `dir`.
    pub fn has_draft_strictly_under(&self, dir: &str) -> (r: bool)
        requires
            self.wf(),
        ensures
            r <==> exists|k: Seq<char>| #[trigger]
                self.drafts().contains_key(k) && crate::text::is_strictly_under(
                    self.drafts()[k].remote_path,
                    dir@,
                ),
    {
        let n: usize = self.entries.len();
        let mut i: usize = 0;
        proof {
            self.entries.lemma_slots();
        }
        while i < n
            invariant
                i <= n,
                n == self.entries.slot_count(),
                self.wf(),
                self.entries.wf(),
                forall|j: int|
                    0 <= j < i ==> !crate::text::is_strictly_under(
                        self.entries@[#[trigger] self.entries.slot_key(j)].remote_path,
                        dir@,
                    ),
            decreases n - i,
        {
            let draft: &Draft = self.entries.value_at(i);
            if strictly_under(draft.remote_path.as_str(), dir) {
                assert(self.drafts().contains_key(self.entries.slot_key(i as int)));
                return true;
            }
            i = i + 1;
        }
        proof {
            self.entries.lemma_slots();
        }
        false
    }

    /// Directory of a draft.
    pub fn entry_dir(&self, hash: &str) -> (r: String)
        ensures
            r@ == crate::text::child_path(self.root_dir(), hash@),
    {
        join_child(self.root.as_str(), hash)
    }

    /// Data file of a draft.
    pub fn data_path_for_hash(&self, hash: &str) -> (r: String)
        ensures
            r@ == crate::text::child_path(
                crate::text::child_path(self.root_dir(), hash@),
                "data"@,
            ),
    {
        join_child(self.entry_dir(hash).as_str(), "data")
    }
}

} // verus!
