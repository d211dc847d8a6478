//! Index of the on-disk block cache.
//!
//! One directory per version of a remote file (its path together with its etag), named by
//! [`hash_key`]. It holds `data`, a sparse file with block `i` at offset `i * BLOCK_SIZE`, and
//! `meta.json`, which records what `data` holds. This module decides what is cached, what is read
//! and written where, and what is evicted; the caller moves the bytes.
//!
//! A directory belongs to one path and one etag, so two handles that disagree about a file's etag
//! never evict each other's blocks: another etag is a plain miss. What an older etag left behind
//! goes with [`BlockCache::purge`] or by eviction.

use vstd::prelude::*;

use crate::blockset::BlockSet;
use crate::hash::shard_name;
use crate::keymap::StrMap;
use crate::text::{join_child, same};

verus! {

/// Size of a block in bytes; the last block of a file may be shorter.
pub const BLOCK_SIZE: u64 = 1_048_576;

/// Block indices lie below this, so that every block ends within the range of a `u64` offset.
pub const BLOCK_LIMIT: u64 = 17_592_186_044_415;

/// One version of one remote file.
#[derive(Debug, PartialEq, Eq, Hash)]
pub struct FileKey {
    pub remote_path: String,
    pub etag: String,
}

impl Clone for FileKey {
    fn clone(&self) -> (r: Self)
        ensures
            r == *self,
    {
        FileKey { remote_path: self.remote_path.clone(), etag: self.etag.clone() }
    }
}

/// What `meta.json` holds.
#[derive(Debug)]
pub struct MetaFile {
    pub remote_path: String,
    pub etag: String,
    pub blocks: Vec<u64>,
    pub last_used_unix: i64,
}

/// A directory found under the cache root: its name, its `meta.json` where that could be read, and
/// the length of its `data` file.
pub struct ScannedEntry {
    pub hash: String,
    pub meta: Option<MetaFile>,
    pub data_len: u64,
}

/// A stretch of a `data` file.
#[derive(Debug, Clone, Copy, PartialEq, Eq, Structural)]
pub struct BlockSpan {
    pub offset: u64,
    pub len: u64,
}

/// One cached version of a file.
pub struct Entry {
    remote_path: String,
    etag: String,
    blocks: BlockSet,
    last_used_unix: i64,
    seq: u64,
    data_len: u64,
}

/// An [`Entry`] as plain values.
#[verifier::ext_equal]
pub struct EntryView {
    pub remote_path: Seq<char>,
    pub etag: Seq<char>,
    /// Indices of the blocks that are present, in ascending order.
    pub blocks: Seq<u64>,
    pub last_used_unix: i64,
    /// Recency: the entry with the lowest number was used least recently.
    pub seq: u64,
    /// Length of the entry's `data` file.
    pub data_len: u64,
}

impl View for Entry {
    type V = EntryView;

    closed spec fn view(&self) -> EntryView {
        EntryView {
            remote_path: self.remote_path@,
            etag: self.etag@,
            blocks: self.blocks@,
            last_used_unix: self.last_used_unix,
            seq: self.seq,
            data_len: self.data_len,
        }
    }
}

/// The index of the block cache.
pub struct BlockCache {
    root: String,
    max_bytes: u64,
    entries: StrMap<Entry>,
    retains: StrMap<u32>,
    next_seq: u64,
}

// ---------------------------------------------------------------------------
// Names of directories.
// ---------------------------------------------------------------------------

/// What is hashed for a path and an etag: the two, apart by a zero byte.
pub open spec fn key_bytes(remote_path: Seq<char>, etag: Seq<char>) -> Seq<u8> {
    vstd::utf8::encode_utf8(remote_path) + seq![0u8] + vstd::utf8::encode_utf8(etag)
}

/// Directory name of one version of a file.
pub open spec fn key_hash(remote_path: Seq<char>, etag: Seq<char>) -> Seq<char> {
    crate::hash::shard_of(key_bytes(remote_path, etag))
}

impl FileKey {
    /// Directory name of this version.
    pub open spec fn hash(&self) -> Seq<char> {
        key_hash(self.remote_path@, self.etag@)
    }
}

fn extend(out: &mut Vec<u8>, more: &[u8])
    ensures
        final(out)@ == old(out)@ + more@,
{
    let ghost before = out@;
    let mut i: usize = 0;
    while i < more.len()
        invariant
            i <= more@.len(),
            out@ == before + more@.subrange(0, i as int),
        decreases more@.len() - i,
    {
        out.push(more[i]);
        assert(out@ =~= before + more@.subrange(0, i + 1));
        i = i + 1;
    }
    assert(out@ =~= before + more@);
}

/// Directory name of the version `etag` of `remote_path`.
pub fn hash_key(remote_path: &str, etag: &str) -> (r: String)
    ensures
        r@ == key_hash(remote_path@, etag@),
{
    let mut input: Vec<u8> = Vec::new();
    extend(&mut input, remote_path.as_bytes());
    input.push(0);
    extend(&mut input, etag.as_bytes());
    assert(input@ =~= key_bytes(remote_path@, etag@));
    shard_name(input.as_slice())
}

// ---------------------------------------------------------------------------
// How much an entry holds.
// ---------------------------------------------------------------------------

/// Length of the highest block `idx` in a data file of `data_len` bytes.
pub open spec fn last_block_len(data_len: int, idx: int) -> int {
    if data_len <= idx * BLOCK_SIZE {
        0
    } else if data_len - idx * BLOCK_SIZE < BLOCK_SIZE {
        data_len - idx * BLOCK_SIZE
    } else {
        BLOCK_SIZE as int
    }
}

/// Length of block `idx` among `blocks` in a data file of `file_len` bytes.
pub open spec fn block_len(blocks: Seq<u64>, idx: u64, file_len: int) -> int {
    if idx == blocks.last() {
        last_block_len(file_len, idx as int)
    } else {
        BLOCK_SIZE as int
    }
}

/// Bytes of block data that an entry holds: all blocks are full but the highest.
pub open spec fn entry_bytes(e: EntryView) -> int {
    if e.blocks.len() == 0 {
        0
    } else {
        (e.blocks.len() - 1) * BLOCK_SIZE + last_block_len(
            e.data_len as int,
            e.blocks.last() as int,
        )
    }
}

/// Bytes of block data in all entries.
pub open spec fn total_bytes(m: Map<Seq<char>, EntryView>) -> int
    decreases m.dom().len(),
    when m.dom().finite()
{
    if m.dom().len() == 0 {
        0
    } else {
        let k = m.dom().choose();
        entry_bytes(m[k]) + total_bytes(m.remove(k))
    }
}

/// Which entry is counted first makes no difference to the sum.
pub proof fn lemma_total_remove(m: Map<Seq<char>, EntryView>, k: Seq<char>)
    requires
        m.dom().finite(),
        m.contains_key(k),
    ensures
        total_bytes(m) == entry_bytes(m[k]) + total_bytes(m.remove(k)),
    decreases m.dom().len(),
{
    let c = m.dom().choose();
    assert(m.dom().contains(k));
    assert(m.dom().contains(c));
    if c != k {
        let mc = m.remove(c);
        let mk = m.remove(k);
        lemma_total_remove(mc, k);
        lemma_total_remove(mk, c);
        assert(mc.remove(k) =~= mk.remove(c));
    }
}

/// Whether an entry's block indices ascend and are in range.
pub open spec fn entry_wf(e: EntryView) -> bool {
    &&& crate::blockset::ascending(e.blocks)
    &&& forall|i: int| 0 <= i < e.blocks.len() ==> e.blocks[i] < BLOCK_LIMIT
}

/// Whether `meta` records the entry `e`.
pub open spec fn meta_of(e: EntryView, meta: MetaFile) -> bool {
    &&& meta.remote_path@ == e.remote_path
    &&& meta.etag@ == e.etag
    &&& meta.blocks@ == e.blocks
    &&& meta.last_used_unix == e.last_used_unix
}

proof fn lemma_entry_bytes(e: EntryView)
    requires
        entry_wf(e),
    ensures
        0 <= entry_bytes(e) <= BLOCK_LIMIT * BLOCK_SIZE,
{
    let n = e.blocks.len() as int;
    crate::blockset::lemma_len_bound(e.blocks, BLOCK_LIMIT);
    if n > 0 {
        assert(0 <= (n - 1) * BLOCK_SIZE <= (BLOCK_LIMIT - 1) * BLOCK_SIZE) by (nonlinear_arith)
            requires
                0 < n <= BLOCK_LIMIT,
        ;
    }
}

impl Entry {
    fn bytes_on_disk(&self) -> (r: u64)
        requires
            entry_wf(self@),
        ensures
            r == entry_bytes(self@),
    {
        proof {
            lemma_entry_bytes(self@);
        }
        match self.blocks.greatest() {
            None => 0,
            Some(m) => {
                let full: u64 = self.blocks.len() as u64 - 1;
                let offset: u64 = m * BLOCK_SIZE;
                let tail: u64 = self.data_len.saturating_sub(offset);
                let last: u64 = if tail < BLOCK_SIZE {
                    tail
                } else {
                    BLOCK_SIZE
                };
                proof {
                    crate::blockset::lemma_len_bound(self.blocks@, BLOCK_LIMIT);
                    assert(full * BLOCK_SIZE <= (BLOCK_LIMIT - 1) * BLOCK_SIZE) by (nonlinear_arith)
                        requires
                            full < BLOCK_LIMIT,
                    ;
                }
                full * BLOCK_SIZE + last
            },
        }
    }

    fn to_meta(&self) -> (r: MetaFile)
        ensures
            meta_of(self@, r),
    {
        MetaFile {
            remote_path: self.remote_path.clone(),
            etag: self.etag.clone(),
            blocks: self.blocks.to_vec(),
            last_used_unix: self.last_used_unix,
        }
    }
}

// ---------------------------------------------------------------------------
// Opening.
// ---------------------------------------------------------------------------

/// Whether the scanned directory `j` was used before directory `i`: by the recorded time, and by
/// the order of the scan where the times are the same.
pub open spec fn used_before(scanned: Seq<ScannedEntry>, j: int, i: int) -> bool {
    &&& scanned[j].meta is Some
    &&& {
        let a = scanned[j].meta->0.last_used_unix;
        let b = scanned[i].meta->0.last_used_unix;
        a < b || (a == b && j < i)
    }
}

/// How many of the first `n` scanned directories were used before directory `i`.
pub open spec fn recency_rank(scanned: Seq<ScannedEntry>, i: int, n: int) -> int
    decreases n,
{
    if n <= 0 {
        0
    } else {
        recency_rank(scanned, i, n - 1) + (if used_before(scanned, n - 1, i) {
            1int
        } else {
            0
        })
    }
}

/// How many of the first `n` scanned directories have a readable `meta.json`.
pub open spec fn readable_count(scanned: Seq<ScannedEntry>, n: int) -> int
    decreases n,
{
    if n <= 0 {
        0
    } else {
        readable_count(scanned, n - 1) + (if scanned[n - 1].meta is Some {
            1int
        } else {
            0
        })
    }
}

/// Names of the first `n` scanned directories that have no readable `meta.json`, in scan order.
pub open spec fn orphan_names(scanned: Seq<ScannedEntry>, n: int) -> Seq<Seq<char>>
    decreases n,
{
    if n <= 0 {
        Seq::empty()
    } else if scanned[n - 1].meta is None {
        orphan_names(scanned, n - 1).push(scanned[n - 1].hash@)
    } else {
        orphan_names(scanned, n - 1)
    }
}

/// Whether no two scanned directories have the same name.
pub open spec fn distinct_names(scanned: Seq<ScannedEntry>) -> bool {
    forall|i: int, j: int|
        #![trigger scanned[i], scanned[j]]
        0 <= i < j < scanned.len() ==> scanned[i].hash@ != scanned[j].hash@
}

/// Whether `e` is what the scanned directory `i` recorded, with its place in the order of use.
pub open spec fn entry_from_scan(e: EntryView, scanned: Seq<ScannedEntry>, i: int) -> bool {
    let meta = scanned[i].meta->0;
    &&& e.remote_path == meta.remote_path@
    &&& e.etag == meta.etag@
    &&& crate::blockset::ascending(e.blocks)
    &&& e.blocks.to_set() == meta.blocks@.to_set()
    &&& e.last_used_unix == meta.last_used_unix
    &&& e.data_len == scanned[i].data_len
    &&& e.seq == recency_rank(scanned, i, scanned.len() as int)
}

/// Whether `entries` holds what the first `n` scanned directories recorded, and nothing else.
pub open spec fn loaded_from_scan(
    entries: Map<Seq<char>, EntryView>,
    scanned: Seq<ScannedEntry>,
    n: int,
) -> bool {
    &&& forall|i: int|
        0 <= i < n && (#[trigger] scanned[i]).meta is Some ==> entries.contains_key(
            scanned[i].hash@,
        ) && entry_from_scan(entries[scanned[i].hash@], scanned, i)
    &&& forall|k: Seq<char>| #[trigger]
        entries.contains_key(k) ==> exists|i: int|
            0 <= i < n && (#[trigger] scanned[i]).meta is Some && scanned[i].hash@ == k
}

pub proof fn lemma_rank_lt(scanned: Seq<ScannedEntry>, i: int, j: int, n: int)
    requires
        0 <= i < scanned.len(),
        0 <= j < scanned.len(),
        scanned[i].meta is Some,
        scanned[j].meta is Some,
        used_before(scanned, i, j),
        n <= scanned.len(),
    ensures
        recency_rank(scanned, i, n) <= recency_rank(scanned, j, n),
        n > i ==> recency_rank(scanned, i, n) < recency_rank(scanned, j, n),
    decreases n,
{
    if n > 0 {
        lemma_rank_lt(scanned, i, j, n - 1);
    }
}

proof fn lemma_rank_bound(scanned: Seq<ScannedEntry>, i: int, n: int)
    requires
        0 <= i < scanned.len(),
        n <= scanned.len(),
        scanned[i].meta is Some,
    ensures
        0 <= recency_rank(scanned, i, n) <= readable_count(scanned, n),
        n > i ==> recency_rank(scanned, i, n) < readable_count(scanned, n),
        n >= 0 ==> readable_count(scanned, n) <= n,
    decreases n,
{
    if n > 0 {
        lemma_rank_bound(scanned, i, n - 1);
    }
}

/// The place of directory `i` in the order of use.
fn recency_of(scanned: &Vec<ScannedEntry>, i: usize, last_used: i64) -> (r: u64)
    requires
        i < scanned@.len(),
        scanned@[i as int].meta is Some,
        scanned@[i as int].meta->0.last_used_unix == last_used,
    ensures
        r == recency_rank(scanned@, i as int, scanned@.len() as int),
{
    let mut j: usize = 0;
    let mut count: u64 = 0;
    while j < scanned.len()
        invariant
            i < scanned@.len(),
            j <= scanned@.len(),
            scanned@[i as int].meta is Some,
            scanned@[i as int].meta->0.last_used_unix == last_used,
            count == recency_rank(scanned@, i as int, j as int),
            count <= j,
        decreases scanned@.len() - j,
    {
        if let Some(meta) = &scanned[j].meta {
            if meta.last_used_unix < last_used || (meta.last_used_unix == last_used && j < i) {
                count = count + 1;
            }
        }
        j = j + 1;
    }
    count
}

// ---------------------------------------------------------------------------
// Eviction.
// ---------------------------------------------------------------------------

/// Whether `k` is the entry to evict next: not retained, and used least recently among those that
/// are not.
pub open spec fn is_victim(
    m: Map<Seq<char>, EntryView>,
    retains: Map<Seq<char>, u32>,
    k: Seq<char>,
) -> bool {
    &&& m.contains_key(k)
    &&& !retains.contains_key(k)
    &&& forall|j: Seq<char>|
        m.contains_key(j) && !retains.contains_key(j) ==> m[k].seq <= (#[trigger] m[j]).seq
}

/// Whether some entry may be evicted.
pub open spec fn has_victim(m: Map<Seq<char>, EntryView>, retains: Map<Seq<char>, u32>) -> bool {
    exists|k: Seq<char>| m.contains_key(k) && !#[trigger] retains.contains_key(k)
}

/// Whether the cache must evict: it is over budget, and some entry may go.
pub open spec fn must_evict(
    m: Map<Seq<char>, EntryView>,
    retains: Map<Seq<char>, u32>,
    max_bytes: u64,
) -> bool {
    total_bytes(m) > max_bytes && has_victim(m, retains)
}

/// Whether `after` is left of `before` once the entries named in `gone` were evicted one by one,
/// each of them because it had to be.
pub open spec fn eviction_steps(
    before: Map<Seq<char>, EntryView>,
    retains: Map<Seq<char>, u32>,
    max_bytes: u64,
    gone: Seq<Seq<char>>,
    after: Map<Seq<char>, EntryView>,
) -> bool
    decreases gone.len(),
{
    if gone.len() == 0 {
        after == before
    } else {
        &&& must_evict(before, retains, max_bytes)
        &&& is_victim(before, retains, gone[0])
        &&& eviction_steps(before.remove(gone[0]), retains, max_bytes, gone.drop_first(), after)
    }
}

/// Whether `after` is left of `before` once entries were evicted, in the order of `gone`, until no
/// more had to go.
pub open spec fn evicts_to(
    before: Map<Seq<char>, EntryView>,
    retains: Map<Seq<char>, u32>,
    max_bytes: u64,
    gone: Seq<Seq<char>>,
    after: Map<Seq<char>, EntryView>,
) -> bool {
    &&& eviction_steps(before, retains, max_bytes, gone, after)
    &&& !must_evict(after, retains, max_bytes)
}

proof fn lemma_steps_push(
    before: Map<Seq<char>, EntryView>,
    retains: Map<Seq<char>, u32>,
    max_bytes: u64,
    gone: Seq<Seq<char>>,
    mid: Map<Seq<char>, EntryView>,
    k: Seq<char>,
)
    requires
        eviction_steps(before, retains, max_bytes, gone, mid),
        must_evict(mid, retains, max_bytes),
        is_victim(mid, retains, k),
    ensures
        eviction_steps(before, retains, max_bytes, gone.push(k), mid.remove(k)),
    decreases gone.len(),
{
    let more = gone.push(k);
    if gone.len() == 0 {
        assert(more.drop_first() =~= Seq::<Seq<char>>::empty());
        assert(eviction_steps(before.remove(k), retains, max_bytes, more.drop_first(), mid.remove(k)));
    } else {
        lemma_steps_push(before.remove(gone[0]), retains, max_bytes, gone.drop_first(), mid, k);
        assert(more.drop_first() =~= gone.drop_first().push(k));
    }
}

// ---------------------------------------------------------------------------
// Counting handles.
// ---------------------------------------------------------------------------

/// `retains` with one more handle on `k`.
pub open spec fn retained(retains: Map<Seq<char>, u32>, k: Seq<char>) -> Map<Seq<char>, u32> {
    retains.insert(
        k,
        (if retains.contains_key(k) {
            retains[k] + 1
        } else {
            1
        }) as u32,
    )
}

/// `retains` with one handle less on `k`; a key without a handle is not kept.
pub open spec fn released(retains: Map<Seq<char>, u32>, k: Seq<char>) -> Map<Seq<char>, u32> {
    if !retains.contains_key(k) {
        retains
    } else if retains[k] == 1 {
        retains.remove(k)
    } else {
        retains.insert(k, (retains[k] - 1) as u32)
    }
}

// ---------------------------------------------------------------------------
// The cache.
// ---------------------------------------------------------------------------

/// Whether `after` is `before` with block `idx` written to a data file that is then `file_len`
/// bytes long. `before` is `None` where nothing was cached yet.
pub open spec fn entry_written(
    before: Option<EntryView>,
    key: FileKey,
    idx: u64,
    file_len: u64,
    now: i64,
    seq: u64,
    after: EntryView,
) -> bool {
    &&& after.remote_path == (match before {
        Some(e) => e.remote_path,
        None => key.remote_path@,
    })
    &&& after.etag == key.etag@
    &&& crate::blockset::with_index(
        match before {
            Some(e) => e.blocks,
            None => Seq::empty(),
        },
        idx,
        after.blocks,
    )
    &&& after.last_used_unix == now
    &&& after.seq == seq
    &&& after.data_len == file_len
}

/// `m` without the entries of `remote_path`.
pub open spec fn without_path(
    m: Map<Seq<char>, EntryView>,
    remote_path: Seq<char>,
) -> Map<Seq<char>, EntryView> {
    m.restrict(Set::new(|k: Seq<char>| m.contains_key(k) && m[k].remote_path != remote_path))
}

/// Whether block `idx` is cached in the directory `k`.
pub open spec fn is_cached(m: Map<Seq<char>, EntryView>, k: Seq<char>, idx: u64) -> bool {
    m.contains_key(k) && m[k].blocks.contains(idx)
}

/// The entry of `k`.
pub open spec fn lookup_entry(m: Map<Seq<char>, EntryView>, k: Seq<char>) -> Option<EntryView> {
    if m.contains_key(k) {
        Some(m[k])
    } else {
        None
    }
}

impl BlockCache {
    /// The cached versions, by directory name.
    pub closed spec fn entries(&self) -> Map<Seq<char>, EntryView> {
        self.entries@
    }

    /// How many handles are open on each version, by directory name.
    pub closed spec fn retains(&self) -> Map<Seq<char>, u32> {
        self.retains@
    }

    /// Cap on the bytes of all entries that are not retained.
    pub closed spec fn budget(&self) -> u64 {
        self.max_bytes
    }

    /// The recency number that the next use gets.
    pub closed spec fn clock(&self) -> u64 {
        self.next_seq
    }

    /// Directory that holds the entries.
    pub closed spec fn root_dir(&self) -> Seq<char> {
        self.root@
    }

    /// Whether the index is in order: block indices ascend and are in range, no two entries have the
    /// same recency number, all such numbers were handed out already, and a version is counted as
    /// retained only while a handle is open on it.
    pub closed spec fn wf(&self) -> bool {
        &&& self.entries.wf()
        &&& self.retains.wf()
        &&& entries_wf(self.entries@, self.next_seq)
        &&& forall|k: Seq<char>|
            self.retains@.contains_key(k) ==> (#[trigger] self.retains@[k]) > 0
    }

    /// What being in order says of the entries.
    pub proof fn lemma_wf(&self)
        requires
            self.wf(),
        ensures
            entries_wf(self.entries(), self.clock()),
            self.entries().dom().finite(),
            forall|k: Seq<char>|
                self.retains().contains_key(k) ==> (#[trigger] self.retains()[k]) > 0,
    {
        self.entries.lemma_slots();
    }
}

/// Whether the entries are in order: block indices ascend and are in range, and each entry has its
/// own recency number below `clock`.
pub open spec fn entries_wf(m: Map<Seq<char>, EntryView>, clock: u64) -> bool {
    &&& forall|k: Seq<char>|
        m.contains_key(k) ==> entry_wf(#[trigger] m[k]) && m[k].seq < clock
    &&& forall|k: Seq<char>, j: Seq<char>|
        m.contains_key(k) && m.contains_key(j) && k != j ==> (#[trigger] m[k]).seq != (
        #[trigger] m[j]).seq
}

impl BlockCache {
    /// Builds the index from the directories found under `root`.
    ///
    /// Recency numbers follow the recorded times of use, so that the first eviction after a restart
    /// takes what was used least recently before it. The second result names the directories without
    /// a readable `meta.json`: their data cannot be used, so they are to be deleted. Nothing is
    /// retained: no handle survives a restart.
    pub fn open(root: &str, max_bytes: u64, scanned: &Vec<ScannedEntry>) -> (r: (Self, Vec<String>))
        requires
            distinct_names(scanned@),
            forall|i: int, j: int|
                0 <= i < scanned@.len() && scanned@[i].meta is Some && 0 <= j
                    < scanned@[i].meta->0.blocks@.len() ==> #[trigger] scanned@[i].meta->0.blocks@[j]
                    < BLOCK_LIMIT,
        ensures
            r.0.wf(),
            r.0.root_dir() == root@,
            r.0.budget() == max_bytes,
            r.0.retains() == Map::<Seq<char>, u32>::empty(),
            r.0.clock() == readable_count(scanned@, scanned@.len() as int),
            loaded_from_scan(r.0.entries(), scanned@, scanned@.len() as int),
            crate::text::texts(r.1@) == orphan_names(scanned@, scanned@.len() as int),
    {
        let mut entries: StrMap<Entry> = StrMap::new();
        let mut orphans: Vec<String> = Vec::new();
        let mut next_seq: u64 = 0;
        let mut i: usize = 0;
        let n: usize = scanned.len();
        assert(crate::text::texts(orphans@) =~= orphan_names(scanned@, 0));
        while i < n
            invariant
                i <= n,
                n == scanned@.len(),
                distinct_names(scanned@),
                forall|i: int, j: int|
                    0 <= i < scanned@.len() && scanned@[i].meta is Some && 0 <= j
                        < scanned@[i].meta->0.blocks@.len()
                        ==> #[trigger] scanned@[i].meta->0.blocks@[j] < BLOCK_LIMIT,
                entries.wf(),
                next_seq == readable_count(scanned@, i as int),
                next_seq <= i,
                loaded_from_scan(entries@, scanned@, i as int),
                forall|k: Seq<char>| entries@.contains_key(k) ==> entry_wf(#[trigger] entries@[k]),
                crate::text::texts(orphans@) == orphan_names(scanned@, i as int),
            decreases n - i,
        {
            let ghost before = entries@;
            let ghost names = orphans@;
            let ghost hash = scanned@[i as int].hash@;
            match &scanned[i].meta {
                None => {
                    orphans.push(scanned[i].hash.clone());
                    assert(crate::text::texts(orphans@) =~= crate::text::texts(names).push(hash));
                    assert(loaded_from_scan(entries@, scanned@, i + 1)) by {
                        assert forall|k: Seq<char>| #[trigger] entries@.contains_key(k) implies exists|
                            j: int,
                        |
                            0 <= j < i + 1 && (#[trigger] scanned@[j]).meta is Some
                                && scanned@[j].hash@ == k by {
                            let j = choose|j: int|
                                0 <= j < i && (#[trigger] scanned@[j]).meta is Some
                                    && scanned@[j].hash@ == k;
                            assert(scanned@[j].hash@ == k);
                        }
                    }
                },
                Some(meta) => {
                    let seq: u64 = recency_of(scanned, i, meta.last_used_unix);
                    let entry = Entry {
                        remote_path: meta.remote_path.clone(),
                        etag: meta.etag.clone(),
                        blocks: BlockSet::from_vec(&meta.blocks),
                        last_used_unix: meta.last_used_unix,
                        seq,
                        data_len: scanned[i].data_len,
                    };
                    let ghost e = entry@;
                    proof {
                        assert forall|j: int| 0 <= j < e.blocks.len() implies e.blocks[j]
                            < BLOCK_LIMIT by {
                            assert(e.blocks.to_set().contains(e.blocks[j]));
                            assert(meta.blocks@.to_set().contains(e.blocks[j]));
                            let q = choose|q: int|
                                0 <= q < meta.blocks@.len() && meta.blocks@[q] == e.blocks[j];
                            assert(scanned@[i as int].meta->0.blocks@[q] < BLOCK_LIMIT);
                        }
                    }
                    entries.insert(scanned[i].hash.clone(), entry);
                    next_seq = next_seq + 1;
                    assert(loaded_from_scan(entries@, scanned@, i + 1)) by {
                        assert forall|j: int|
                            0 <= j < i + 1 && (#[trigger] scanned@[j]).meta is Some implies entries@.contains_key(
                            scanned@[j].hash@,
                        ) && entry_from_scan(entries@[scanned@[j].hash@], scanned@, j) by {
                            if j < i {
                                assert(scanned@[j].hash@ != scanned@[i as int].hash@);
                            }
                        }
                        assert forall|k: Seq<char>| #[trigger] entries@.contains_key(k) implies exists|
                            j: int,
                        |
                            0 <= j < i + 1 && (#[trigger] scanned@[j]).meta is Some
                                && scanned@[j].hash@ == k by {
                            if k == hash {
                                assert(scanned@[i as int].hash@ == k);
                            } else {
                                assert(before.contains_key(k));
                                let j = choose|j: int|
                                    0 <= j < i && (#[trigger] scanned@[j]).meta is Some
                                        && scanned@[j].hash@ == k;
                                assert(scanned@[j].hash@ == k);
                            }
                        }
                    }
                },
            }
            i = i + 1;
        }
        let retains: StrMap<u32> = StrMap::new();
        let cache = BlockCache { root: root.to_owned(), max_bytes, entries, retains, next_seq };
        proof {
            let m = cache.entries@;
            assert forall|k: Seq<char>| m.contains_key(k) implies entry_wf(#[trigger] m[k]) && m[k].seq
                < cache.next_seq by {
                let a = choose|a: int|
                    0 <= a < n && (#[trigger] scanned@[a]).meta is Some && scanned@[a].hash@ == k;
                lemma_rank_bound(scanned@, a, n as int);
            }
            assert forall|k: Seq<char>, j: Seq<char>|
                m.contains_key(k) && m.contains_key(j) && k != j implies (#[trigger] m[k]).seq != (
            #[trigger] m[j]).seq by {
                let a = choose|a: int|
                    0 <= a < n && (#[trigger] scanned@[a]).meta is Some && scanned@[a].hash@ == k;
                let b = choose|b: int|
                    0 <= b < n && (#[trigger] scanned@[b]).meta is Some && scanned@[b].hash@ == j;
                if used_before(scanned@, a, b) {
                    lemma_rank_lt(scanned@, a, b, n as int);
                } else {
                    lemma_rank_lt(scanned@, b, a, n as int);
                }
            }
        }
        (cache, orphans)
    }
}

impl BlockCache {
    /// The recency number that the next use gets.
    pub fn next_seq(&self) -> (r: u64)
        ensures
            r == self.clock(),
    {
        self.next_seq
    }

    /// Where block `block_idx` of `key` lies in its data file, given the length of that file.
    ///
    /// `None` is a miss: the block is not cached for this path and etag. Only the highest block of a
    /// file can be short, so its length is read off the file; every other block is full.
    pub fn read_block(&self, key: &FileKey, block_idx: u64, file_len: u64) -> (r: Option<BlockSpan>)
        requires
            self.wf(),
        ensures
            block_found(self.entries(), key.hash(), block_idx, file_len, r),
    {
        let hash: String = hash_key(key.remote_path.as_str(), key.etag.as_str());
        match self.entries.get(&hash) {
            None => None,
            Some(entry) => {
                assert(entry_wf(self.entries@[hash@]));
                if !entry.blocks.contains(block_idx) {
                    return None;
                }
                let ghost blocks = entry.blocks@;
                assert(block_idx < BLOCK_LIMIT) by {
                    let i = choose|i: int| 0 <= i < blocks.len() && blocks[i] == block_idx;
                    assert(blocks[i] < BLOCK_LIMIT);
                }
                let offset: u64 = block_idx * BLOCK_SIZE;
                let highest: bool = match entry.blocks.greatest() {
                    Some(m) => m == block_idx,
                    None => false,
                };
                let len: u64 = if highest {
                    let tail: u64 = file_len.saturating_sub(offset);
                    if tail < BLOCK_SIZE {
                        tail
                    } else {
                        BLOCK_SIZE
                    }
                } else {
                    BLOCK_SIZE
                };
                Some(BlockSpan { offset, len })
            },
        }
    }

    /// Records how a read of block `block_idx` of `key` ended.
    ///
    /// A read that got all its bytes only makes the entry the most recently used. One that met the
    /// end of the file early shows that the file was never flushed to what `meta.json` claims: the
    /// block is dropped from the index, and the result is what `meta.json` is to hold from then on.
    pub fn finish_read(&mut self, key: &FileKey, block_idx: u64, complete: bool, now: i64) -> (r: Option<
        MetaFile,
    >)
        requires
            old(self).wf(),
            old(self).clock() < u64::MAX,
        ensures
            final(self).wf(),
            final(self).root_dir() == old(self).root_dir(),
            final(self).budget() == old(self).budget(),
            final(self).retains() == old(self).retains(),
            complete ==> r is None && final(self).clock() == old(self).clock() + 1
                && final(self).entries() == touched(
                old(self).entries(),
                key.hash(),
                old(self).clock(),
                now,
            ),
            !complete ==> final(self).clock() == old(self).clock() && block_dropped(
                old(self).entries(),
                key.hash(),
                block_idx,
                final(self).entries(),
                r,
            ),
    {
        let hash: String = hash_key(key.remote_path.as_str(), key.etag.as_str());
        if complete {
            self.touch(&hash, now);
            None
        } else {
            self.drop_block(&hash, block_idx)
        }
    }

    /// Makes an entry the most recently used, in memory alone: `meta.json` is rewritten only when the
    /// set of blocks changes.
    fn touch(&mut self, hash: &String, now: i64)
        requires
            old(self).wf(),
            old(self).clock() < u64::MAX,
        ensures
            final(self).wf(),
            final(self).root_dir() == old(self).root_dir(),
            final(self).budget() == old(self).budget(),
            final(self).retains() == old(self).retains(),
            final(self).clock() == old(self).clock() + 1,
            final(self).entries() == touched(old(self).entries(), hash@, old(self).clock(), now),
    {
        let seq: u64 = self.next_seq;
        self.next_seq = seq + 1;
        match self.entries.remove(hash) {
            Some(mut entry) => {
                entry.last_used_unix = now;
                entry.seq = seq;
                self.entries.insert(hash.clone(), entry);
            },
            None => {},
        }
        assert(self.entries@ =~= touched(old(self).entries@, hash@, seq, now));
    }

    /// Drops one block from an entry; the result is what its `meta.json` is to hold from then on.
    fn drop_block(&mut self, hash: &String, block_idx: u64) -> (r: Option<MetaFile>)
        requires
            old(self).wf(),
        ensures
            final(self).wf(),
            final(self).root_dir() == old(self).root_dir(),
            final(self).budget() == old(self).budget(),
            final(self).retains() == old(self).retains(),
            final(self).clock() == old(self).clock(),
            block_dropped(old(self).entries(), hash@, block_idx, final(self).entries(), r),
    {
        match self.entries.remove(hash) {
            Some(mut entry) => {
                assert(entry_wf(old(self).entries@[hash@]));
                let ghost before = entry.blocks@;
                entry.blocks.remove(block_idx);
                assert forall|i: int| 0 <= i < entry.blocks@.len() implies entry.blocks@[i]
                    < BLOCK_LIMIT by {
                    assert(entry.blocks@.to_set().contains(entry.blocks@[i]));
                    let j = choose|j: int| 0 <= j < before.len() && before[j] == entry.blocks@[i];
                    assert(before[j] < BLOCK_LIMIT);
                }
                let meta = entry.to_meta();
                let ghost e = entry@;
                self.entries.insert(hash.clone(), entry);
                assert(self.entries@ =~= old(self).entries@.insert(hash@, e));
                Some(meta)
            },
            None => {
                assert(self.entries@ =~= old(self).entries@);
                None
            },
        }
    }

    /// Records that block `block_idx` of `key` was written to its data file, which is then `file_len`
    /// bytes long. The result is what `meta.json` is to hold from then on.
    ///
    /// Whether the entry may be evicted is decided by the handles on it alone, also for an entry that
    /// this call makes.
    pub fn write_block(&mut self, key: &FileKey, block_idx: u64, file_len: u64, now: i64) -> (r: MetaFile)
        requires
            old(self).wf(),
            old(self).clock() < u64::MAX,
            block_idx < BLOCK_LIMIT,
        ensures
            final(self).wf(),
            final(self).root_dir() == old(self).root_dir(),
            final(self).budget() == old(self).budget(),
            final(self).retains() == old(self).retains(),
            final(self).clock() == old(self).clock() + 1,
            final(self).entries() == old(self).entries().insert(
                key.hash(),
                final(self).entries()[key.hash()],
            ),
            entry_written(
                lookup_entry(old(self).entries(), key.hash()),
                *key,
                block_idx,
                file_len,
                now,
                old(self).clock(),
                final(self).entries()[key.hash()],
            ),
            meta_of(final(self).entries()[key.hash()], r),
    {
        let hash: String = hash_key(key.remote_path.as_str(), key.etag.as_str());
        let seq: u64 = self.next_seq;
        self.next_seq = seq + 1;
        let ghost m = self.entries@;
        let mut entry: Entry = match self.entries.remove(&hash) {
            Some(e) => e,
            None => Entry {
                remote_path: key.remote_path.clone(),
                etag: key.etag.clone(),
                blocks: BlockSet::new(),
                last_used_unix: 0,
                seq: 0,
                data_len: 0,
            },
        };
        let ghost before = entry.blocks@;
        assert(m.contains_key(hash@) ==> entry_wf(m[hash@]));
        entry.etag = key.etag.clone();
        entry.blocks.insert(block_idx);
        entry.last_used_unix = now;
        entry.seq = seq;
        entry.data_len = file_len;
        assert forall|i: int| 0 <= i < entry.blocks@.len() implies entry.blocks@[i] < BLOCK_LIMIT by {
            assert(entry.blocks@.to_set().contains(entry.blocks@[i]));
            if entry.blocks@[i] != block_idx {
                assert(before.to_set().contains(entry.blocks@[i]));
                let j = choose|j: int| 0 <= j < before.len() && before[j] == entry.blocks@[i];
                assert(before[j] < BLOCK_LIMIT);
            }
        }
        let meta = entry.to_meta();
        let ghost e = entry@;
        self.entries.insert(hash, entry);
        assert(self.entries@ =~= m.insert(hash@, e));
        meta
    }

    /// Registers an open handle on `key`. While one is open its entry is never evicted, also where
    /// nothing of it is cached yet.
    pub fn retain(&mut self, key: &FileKey)
        requires
            old(self).wf(),
            old(self).retains().contains_key(key.hash()) ==> old(self).retains()[key.hash()]
                < u32::MAX,
        ensures
            final(self).wf(),
            final(self).root_dir() == old(self).root_dir(),
            final(self).budget() == old(self).budget(),
            final(self).clock() == old(self).clock(),
            final(self).entries() == old(self).entries(),
            final(self).retains() == retained(old(self).retains(), key.hash()),
    {
        let hash: String = hash_key(key.remote_path.as_str(), key.etag.as_str());
        let count: u32 = match self.retains.get(&hash) {
            Some(n) => *n,
            None => 0,
        };
        self.retains.insert(hash, count + 1);
    }

    /// Number of open handles on `key`.
    pub fn handles_on(&self, key: &FileKey) -> (r: u32)
        requires
            self.wf(),
        ensures
            r == (if self.retains().contains_key(key.hash()) {
                self.retains()[key.hash()]
            } else {
                0
            }),
    {
        let hash: String = hash_key(key.remote_path.as_str(), key.etag.as_str());
        match self.retains.get(&hash) {
            Some(n) => *n,
            None => 0,
        }
    }

    /// Drops one handle registered by `retain`; where none is, nothing changes.
    pub fn release(&mut self, key: &FileKey)
        requires
            old(self).wf(),
        ensures
            final(self).wf(),
            final(self).root_dir() == old(self).root_dir(),
            final(self).budget() == old(self).budget(),
            final(self).clock() == old(self).clock(),
            final(self).entries() == old(self).entries(),
            final(self).retains() == released(old(self).retains(), key.hash()),
    {
        let hash: String = hash_key(key.remote_path.as_str(), key.etag.as_str());
        let ghost before = self.retains@;
        match self.retains.remove(&hash) {
            Some(n) => {
                assert(before[hash@] > 0);
                if n > 1 {
                    self.retains.insert(hash, n - 1);
                }
            },
            None => {},
        }
        assert(self.retains@ =~= released(before, hash@));
    }
}

/// `m` with the entry of `k`, if there is one, used at `now` under the recency number `seq`.
pub open spec fn touched(
    m: Map<Seq<char>, EntryView>,
    k: Seq<char>,
    seq: u64,
    now: i64,
) -> Map<Seq<char>, EntryView> {
    if m.contains_key(k) {
        m.insert(k, EntryView { last_used_unix: now, seq, ..m[k] })
    } else {
        m
    }
}

/// Whether `after` is `before` with block `idx` dropped from the entry of `k`, and `meta` is what
/// is to be recorded of that entry: nothing where there is none.
pub open spec fn block_dropped(
    before: Map<Seq<char>, EntryView>,
    k: Seq<char>,
    idx: u64,
    after: Map<Seq<char>, EntryView>,
    meta: Option<MetaFile>,
) -> bool {
    if before.contains_key(k) {
        &&& after == before.insert(k, EntryView { blocks: after[k].blocks, ..before[k] })
        &&& crate::blockset::without_index(before[k].blocks, idx, after[k].blocks)
        &&& meta matches Some(recorded) && meta_of(after[k], recorded)
    } else {
        after == before && meta is None
    }
}

/// `m` with the data file of `k`, if there is one, found to be `len` bytes long.
pub open spec fn measured(
    m: Map<Seq<char>, EntryView>,
    k: Seq<char>,
    len: u64,
) -> Map<Seq<char>, EntryView> {
    if m.contains_key(k) {
        m.insert(k, EntryView { data_len: len, ..m[k] })
    } else {
        m
    }
}

impl BlockCache {
    /// Names of the directories that hold an entry.
    pub fn entry_names(&self) -> (r: Vec<String>)
        requires
            self.wf(),
        ensures
            crate::text::texts(r@).no_duplicates(),
            forall|k: Seq<char>| #[trigger]
                crate::text::texts(r@).contains(k) <==> self.entries().contains_key(k),
    {
        let n: usize = self.entries.len();
        let mut names: Vec<String> = Vec::new();
        let mut i: usize = 0;
        while i < n
            invariant
                i <= n,
                n == self.entries.slot_count(),
                names@.len() == i,
                forall|j: int| 0 <= j < i ==> (#[trigger] names@[j])@ == self.entries.slot_key(j),
            decreases n - i,
        {
            names.push(self.entries.key_at(i).clone());
            i = i + 1;
        }
        proof {
            self.entries.lemma_slots();
            let list = crate::text::texts(names@);
            assert forall|a: int, b: int| 0 <= a < b < list.len() implies list[a] != list[b] by {
                assert(self.entries.slot_key(a) != self.entries.slot_key(b));
            }
            assert forall|k: Seq<char>| #[trigger] list.contains(k) <==> self.entries().contains_key(
                k,
            ) by {
                if list.contains(k) {
                    let j = choose|j: int| 0 <= j < list.len() && list[j] == k;
                    assert(names@[j]@ == self.entries.slot_key(j));
                }
                if self.entries().contains_key(k) {
                    let j = choose|j: int|
                        0 <= j < self.entries.slot_count() && #[trigger] self.entries.slot_key(j) == k;
                    assert(list[j] == k);
                }
            }
        }
        names
    }

    /// Notes how long the data file in the directory `hash` is on disk. What counts against the budget goes
    /// by this length, so it is to be noted before eviction, and whenever a read met the end of the file
    /// early.
    pub fn note_data_len(&mut self, hash: &str, data_len: u64)
        requires
            old(self).wf(),
        ensures
            final(self).wf(),
            final(self).root_dir() == old(self).root_dir(),
            final(self).budget() == old(self).budget(),
            final(self).clock() == old(self).clock(),
            final(self).retains() == old(self).retains(),
            final(self).entries() == measured(old(self).entries(), hash@, data_len),
    {
        let name: String = hash.to_owned();
        match self.entries.remove(&name) {
            Some(mut entry) => {
                assert(entry_wf(old(self).entries@[name@]));
                entry.data_len = data_len;
                self.entries.insert(name, entry);
            },
            None => {},
        }
        assert(self.entries@ =~= measured(old(self).entries@, hash@, data_len));
    }

    /// Bytes of block data in all entries.
    fn total(&self) -> (r: u128)
        requires
            self.wf(),
        ensures
            r == total_bytes(self.entries()),
    {
        let n: usize = self.entries.len();
        let mut sum: u128 = 0;
        let mut i: usize = 0;
        let ghost mut seen: Map<Seq<char>, EntryView> = Map::empty();
        proof {
            self.entries.lemma_slots();
        }
        while i < n
            invariant
                i <= n,
                n == self.entries.slot_count(),
                self.wf(),
                self.entries.wf(),
                sum == total_bytes(seen),
                sum <= i * (BLOCK_LIMIT * BLOCK_SIZE),
                seen.dom().finite(),
                forall|k: Seq<char>| #[trigger]
                    seen.contains_key(k) <==> exists|j: int|
                        0 <= j < i && #[trigger] self.entries.slot_key(j) == k,
                forall|k: Seq<char>|
                    seen.contains_key(k) ==> self.entries@.contains_key(k) && #[trigger] seen[k]
                        == self.entries@[k],
            decreases n - i,
        {
            let ghost k = self.entries.slot_key(i as int);
            let entry: &Entry = self.entries.value_at(i);
            proof {
                self.entries.lemma_slots();
                assert(entry_wf(self.entries@[k]));
                lemma_entry_bytes(entry@);
                assert(!seen.contains_key(k));
                let more = seen.insert(k, entry@);
                lemma_total_remove(more, k);
                assert(more.remove(k) =~= seen);
                assert forall|q: Seq<char>| #[trigger]
                    more.contains_key(q) <==> exists|j: int|
                        0 <= j < i + 1 && #[trigger] self.entries.slot_key(j) == q by {
                    if seen.contains_key(q) {
                        let j = choose|j: int| 0 <= j < i && #[trigger] self.entries.slot_key(j) == q;
                        assert(self.entries.slot_key(j) == q);
                    }
                    if q == k {
                        assert(self.entries.slot_key(i as int) == q);
                    }
                }
                seen = more;
                assert(i * (BLOCK_LIMIT * BLOCK_SIZE) + BLOCK_LIMIT * BLOCK_SIZE == (i + 1) * (
                BLOCK_LIMIT * BLOCK_SIZE)) by (nonlinear_arith);
                assert((i + 1) * (BLOCK_LIMIT * BLOCK_SIZE) <= u64::MAX * (BLOCK_LIMIT * BLOCK_SIZE))
                    by (nonlinear_arith)
                    requires
                        i < usize::MAX <= u64::MAX,
                        BLOCK_LIMIT * BLOCK_SIZE >= 0,
                ;
            }
            sum = sum + entry.bytes_on_disk() as u128;
            i = i + 1;
        }
        proof {
            assert(seen =~= self.entries@);
        }
        sum
    }

    /// Bytes of block data in all entries: the actual length of each entry's last block, not a full
    /// block for it. The count stops at the greatest `u64`.
    pub fn used_bytes(&self) -> (r: u64)
        requires
            self.wf(),
        ensures
            r == (if total_bytes(self.entries()) <= u64::MAX {
                total_bytes(self.entries())
            } else {
                u64::MAX as int
            }),
    {
        let total: u128 = self.total();
        if total <= u64::MAX as u128 {
            total as u64
        } else {
            u64::MAX
        }
    }

    /// The entry to evict next, among those that are not retained.
    fn victim(&self) -> (r: Option<String>)
        requires
            self.wf(),
        ensures
            match r {
                Some(k) => is_victim(self.entries(), self.retains(), k@),
                None => !has_victim(self.entries(), self.retains()),
            },
    {
        let n: usize = self.entries.len();
        let mut best: Option<usize> = None;
        let mut best_seq: u64 = 0;
        let mut i: usize = 0;
        proof {
            self.entries.lemma_slots();
        }
        while i < n
            invariant
                i <= n,
                n == self.entries.slot_count(),
                self.wf(),
                self.entries.wf(),
                self.retains.wf(),
                match best {
                    Some(b) => {
                        let k = self.entries.slot_key(b as int);
                        &&& b < i
                        &&& self.entries@.contains_key(k)
                        &&& self.entries@[k].seq == best_seq
                        &&& !self.retains@.contains_key(k)
                        &&& forall|j: int|
                            0 <= j < i && !self.retains@.contains_key(
                                #[trigger] self.entries.slot_key(j),
                            ) ==> best_seq <= self.entries@[self.entries.slot_key(j)].seq
                    },
                    None => forall|j: int|
                        0 <= j < i ==> self.retains@.contains_key(
                            #[trigger] self.entries.slot_key(j),
                        ),
                },
            decreases n - i,
        {
            let entry: &Entry = self.entries.value_at(i);
            let key: &String = self.entries.key_at(i);
            if !self.retains.contains_key(&key) {
                let older: bool = match best {
                    Some(_) => entry.seq < best_seq,
                    None => true,
                };
                if older {
                    best = Some(i);
                    best_seq = entry.seq;
                }
            }
            i = i + 1;
        }
        match best {
            Some(b) => {
                let r: String = self.entries.key_at(b).clone();
                proof {
                    self.entries.lemma_slots();
                    let m = self.entries@;
                    assert forall|j: Seq<char>|
                        m.contains_key(j) && !self.retains@.contains_key(j) implies m[r@].seq <= (
                    #[trigger] m[j]).seq by {
                        let q = choose|q: int|
                            0 <= q < self.entries.slot_count() && #[trigger] self.entries.slot_key(q)
                                == j;
                        assert(self.entries.slot_key(q) == j);
                    }
                }
                Some(r)
            },
            None => {
                proof {
                    self.entries.lemma_slots();
                }
                None
            },
        }
    }

    /// Evicts one entry if the cache is over budget, and names its directory, which is to be deleted.
    ///
    /// An entry with an open handle stays, even if the cache remains over budget.
    pub fn evict_next(&mut self) -> (r: Option<String>)
        requires
            old(self).wf(),
        ensures
            final(self).wf(),
            final(self).root_dir() == old(self).root_dir(),
            final(self).budget() == old(self).budget(),
            final(self).clock() == old(self).clock(),
            final(self).retains() == old(self).retains(),
            evicts_next(old(self).entries(), old(self).retains(), old(self).budget(), r, final(self).entries()),
    {
        if self.total() <= self.max_bytes as u128 {
            return None;
        }
        match self.victim() {
            Some(k) => {
                self.remove_entry(&k);
                proof {
                    assert(self.entries@ == old(self).entries@.remove(k@));
                    assert(!old(self).retains@.contains_key(k@));
                }
                Some(k)
            },
            None => None,
        }
    }

    /// Evicts entries until the cache is within budget or all that is left is retained. Names their
    /// directories, which are to be deleted, in the order in which they went.
    pub fn evict_if_over_budget(&mut self) -> (r: Vec<String>)
        requires
            old(self).wf(),
        ensures
            final(self).wf(),
            final(self).root_dir() == old(self).root_dir(),
            final(self).budget() == old(self).budget(),
            final(self).clock() == old(self).clock(),
            final(self).retains() == old(self).retains(),
            evicts_to(
                old(self).entries(),
                old(self).retains(),
                old(self).budget(),
                crate::text::texts(r@),
                final(self).entries(),
            ),
    {
        let mut gone: Vec<String> = Vec::new();
        let ghost before = self.entries@;
        proof {
            self.entries.lemma_slots();
            assert(crate::text::texts(gone@) =~= Seq::<Seq<char>>::empty());
        }
        let mut more: bool = true;
        while more
            invariant
                self.wf(),
                before == old(self).entries(),
                self.root_dir() == old(self).root_dir(),
                self.budget() == old(self).budget(),
                self.clock() == old(self).clock(),
                self.retains() == old(self).retains(),
                self.entries().dom().finite(),
                eviction_steps(
                    before,
                    self.retains(),
                    self.budget(),
                    crate::text::texts(gone@),
                    self.entries(),
                ),
                !more ==> !must_evict(self.entries(), self.retains(), self.budget()),
            decreases self.entries().dom().len(), (if more { 1nat } else { 0nat }),
        {
            let ghost mid = self.entries();
            match self.evict_next() {
                Some(k) => {
                    let ghost names = crate::text::texts(gone@);
                    gone.push(k);
                    proof {
                        assert(crate::text::texts(gone@) =~= names.push(k@));
                        lemma_steps_push(before, self.retains(), self.budget(), names, mid, k@);
                        assert(mid.dom().contains(k@));
                    }
                },
                None => {
                    more = false;
                },
            }
        }
        gone
    }

    /// Drops every cached version of `remote_path`, whatever its etag, and names the directories,
    /// which are to be deleted.
    ///
    /// Open handles do not shield them: the bytes are known to be stale. The handles stay counted, so
    /// that each one's `release` still balances.
    pub fn purge(&mut self, remote_path: &str) -> (r: Vec<String>)
        requires
            old(self).wf(),
        ensures
            final(self).wf(),
            final(self).root_dir() == old(self).root_dir(),
            final(self).budget() == old(self).budget(),
            final(self).clock() == old(self).clock(),
            final(self).retains() == old(self).retains(),
            final(self).entries() == without_path(old(self).entries(), remote_path@),
            crate::text::texts(r@).no_duplicates(),
            forall|k: Seq<char>|
                crate::text::texts(r@).contains(k) <==> old(self).entries().contains_key(k)
                    && #[trigger] old(self).entries()[k].remote_path == remote_path@,
    {
        let ghost m = self.entries@;
        let n: usize = self.entries.len();
        let mut hashes: Vec<String> = Vec::new();
        let mut i: usize = 0;
        proof {
            self.entries.lemma_slots();
        }
        while i < n
            invariant
                i <= n,
                n == self.entries.slot_count(),
                self.wf(),
                self.entries.wf(),
                m == self.entries@,
                crate::text::texts(hashes@).no_duplicates(),
                forall|q: int|
                    0 <= q < hashes@.len() ==> exists|j: int|
                        0 <= j < i && self.entries.slot_key(j) == (#[trigger] hashes@[q])@,
                forall|q: int|
                    0 <= q < hashes@.len() ==> m.contains_key((#[trigger] hashes@[q])@)
                        && m[hashes@[q]@].remote_path == remote_path@,
                forall|j: int|
                    0 <= j < i && m[#[trigger] self.entries.slot_key(j)].remote_path == remote_path@
                        ==> crate::text::texts(hashes@).contains(self.entries.slot_key(j)),
            decreases n - i,
        {
            let entry: &Entry = self.entries.value_at(i);
            let ghost k = self.entries.slot_key(i as int);
            let ghost names = crate::text::texts(hashes@);
            if same(entry.remote_path.as_str(), remote_path) {
                proof {
                    self.entries.lemma_slots();
                    assert forall|q: int| 0 <= q < hashes@.len() implies (#[trigger] hashes@[q])@ != k by {
                        let j = choose|j: int|
                            0 <= j < i && self.entries.slot_key(j) == hashes@[q]@;
                        assert(self.entries.slot_key(j) != self.entries.slot_key(i as int));
                    }
                }
                let ghost old_hashes = hashes@;
                hashes.push(self.entries.key_at(i).clone());
                proof {
                    assert(crate::text::texts(hashes@) =~= names.push(k));
                    assert(crate::text::texts(hashes@).no_duplicates());
                    assert forall|j: int|
                        0 <= j < i + 1 && m[#[trigger] self.entries.slot_key(j)].remote_path
                            == remote_path@ implies crate::text::texts(hashes@).contains(
                        self.entries.slot_key(j),
                    ) by {
                        if j < i {
                            let q = choose|q: int|
                                0 <= q < names.len() && names[q] == self.entries.slot_key(j);
                            assert(crate::text::texts(hashes@)[q] == self.entries.slot_key(j));
                        } else {
                            assert(crate::text::texts(hashes@)[old_hashes.len() as int] == k);
                        }
                    }
                    assert forall|q: int| 0 <= q < hashes@.len() implies exists|j: int|
                        0 <= j < i + 1 && self.entries.slot_key(j) == (#[trigger] hashes@[q])@ by {
                        if q < old_hashes.len() {
                            let j = choose|j: int|
                                0 <= j < i && self.entries.slot_key(j) == old_hashes[q]@;
                            assert(self.entries.slot_key(j) == hashes@[q]@);
                        } else {
                            assert(self.entries.slot_key(i as int) == hashes@[q]@);
                        }
                    }
                }
            } else {
                proof {
                    assert forall|q: int| 0 <= q < hashes@.len() implies exists|j: int|
                        0 <= j < i + 1 && self.entries.slot_key(j) == (#[trigger] hashes@[q])@ by {
                        let j = choose|j: int|
                            0 <= j < i && self.entries.slot_key(j) == hashes@[q]@;
                        assert(self.entries.slot_key(j) == hashes@[q]@);
                    }
                }
            }
            i = i + 1;
        }
        let ghost names = crate::text::texts(hashes@);
        proof {
            self.entries.lemma_slots();
            assert forall|k: Seq<char>|
                m.contains_key(k) && (#[trigger] m[k]).remote_path == remote_path@ implies names.contains(
                k,
            ) by {
                let j = choose|j: int|
                    0 <= j < self.entries.slot_count() && #[trigger] self.entries.slot_key(j) == k;
                assert(self.entries.slot_key(j) == k);
            }
            assert forall|k: Seq<char>| names.contains(k) implies m.contains_key(k) && (#[trigger] m[k]).remote_path
                == remote_path@ by {
                let q = choose|q: int| 0 <= q < names.len() && names[q] == k;
                assert(hashes@[q]@ == k);
            }
        }
        let mut q: usize = 0;
        while q < hashes.len()
            invariant
                q <= hashes@.len(),
                self.wf(),
                names == crate::text::texts(hashes@),
                m == old(self).entries(),
                self.root_dir() == old(self).root_dir(),
                self.budget() == old(self).budget(),
                self.clock() == old(self).clock(),
                self.retains() == old(self).retains(),
                forall|k: Seq<char>| #[trigger]
                    self.entries().contains_key(k) <==> m.contains_key(k)
                        && !names.subrange(0, q as int).contains(k),
                forall|k: Seq<char>|
                    self.entries().contains_key(k) ==> #[trigger] self.entries()[k] == m[k],
            decreases hashes@.len() - q,
        {
            let ghost mid = self.entries();
            self.remove_entry(&hashes[q]);
            proof {
                let a = names.subrange(0, q as int);
                let b = names.subrange(0, q + 1);
                assert(b =~= a.push(names[q as int]));
                assert forall|k: Seq<char>| b.contains(k) <==> a.contains(k) || k == names[q as int] by {
                    if a.contains(k) {
                        let j = choose|j: int| 0 <= j < a.len() && a[j] == k;
                        assert(b[j] == k);
                    }
                    if k == names[q as int] {
                        assert(b[q as int] == k);
                    }
                }
            }
            q = q + 1;
        }
        proof {
            assert(names.subrange(0, names.len() as int) =~= names);
            assert(self.entries() =~= without_path(m, remote_path@));
        }
        hashes
    }

    /// Takes one entry out of the index.
    fn remove_entry(&mut self, hash: &String)
        requires
            old(self).wf(),
        ensures
            final(self).wf(),
            final(self).root_dir() == old(self).root_dir(),
            final(self).budget() == old(self).budget(),
            final(self).clock() == old(self).clock(),
            final(self).retains() == old(self).retains(),
            final(self).entries() == old(self).entries().remove(hash@),
    {
        let gone = self.entries.remove(hash);
        assert forall|k: Seq<char>| self.entries@.contains_key(k) implies entry_wf(
            #[trigger] self.entries@[k],
        ) && self.entries@[k].seq < self.next_seq by {
            assert(self.entries@[k] == old(self).entries@[k]);
        }
        assert forall|k: Seq<char>, j: Seq<char>|
            self.entries@.contains_key(k) && self.entries@.contains_key(j) && k != j implies (
        #[trigger] self.entries@[k]).seq != (#[trigger] self.entries@[j]).seq by {
            assert(self.entries@[k] == old(self).entries@[k]);
            assert(self.entries@[j] == old(self).entries@[j]);
        }
    }

    /// Directory of an entry.
    pub fn entry_dir(&self, hash: &str) -> (r: String)
        ensures
            r@ == crate::text::child_path(self.root_dir(), hash@),
    {
        join_child(self.root.as_str(), hash)
    }

    /// Data file of an entry.
    pub fn data_path(&self, hash: &str) -> (r: String)
        ensures
            r@ == crate::text::child_path(
                crate::text::child_path(self.root_dir(), hash@),
                "data"@,
            ),
    {
        join_child(self.entry_dir(hash).as_str(), "data")
    }

    /// The file that records an entry.
    pub fn meta_path(&self, hash: &str) -> (r: String)
        ensures
            r@ == crate::text::child_path(
                crate::text::child_path(self.root_dir(), hash@),
                "meta.json"@,
            ),
    {
        join_child(self.entry_dir(hash).as_str(), "meta.json")
    }
}

/// Whether `r` is where block `block_idx` of entry `k` lies in a data file of `file_len` bytes.
pub open spec fn block_found(
    m: Map<Seq<char>, EntryView>,
    k: Seq<char>,
    block_idx: u64,
    file_len: u64,
    r: Option<BlockSpan>,
) -> bool {
    &&& r is Some <==> is_cached(m, k, block_idx)
    &&& r matches Some(span) ==> {
        &&& span.offset == block_idx * BLOCK_SIZE
        &&& span.len == block_len(
            m[k].blocks,
            block_idx,
            file_len as int,
        )
    }
}

/// Whether one step of an eviction takes `r` and leads from `before` to `after`.
pub open spec fn evicts_next(
    before: Map<Seq<char>, EntryView>,
    retains: Map<Seq<char>, u32>,
    max_bytes: u64,
    r: Option<String>,
    after: Map<Seq<char>, EntryView>,
) -> bool {
    &&& r is Some <==> must_evict(before, retains, max_bytes)
    &&& match r {
        Some(k) => is_victim(before, retains, k@)
            && after == before.remove(k@),
        None => after == before,
    }
}

} // verus!
