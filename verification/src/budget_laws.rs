//! What holds of the bytes that the block cache counts and of the order in which it gives them up.

use vstd::prelude::*;

use crate::cache::{BlockSpan, EntryView, FileKey, MetaFile, ScannedEntry, BLOCK_SIZE};

verus! {

// ---------------------------------------------------------------------------
// Bytes.
// ---------------------------------------------------------------------------

/// An entry counts with the bytes that its blocks hold: a whole block each, but for the highest, which
/// counts as far as the data reaches into it.
pub proof fn an_entry_counts_with_what_its_blocks_hold(e: EntryView)
    requires
        crate::cache::entry_wf(e),
        e.blocks.len() > 0,
    ensures
        ({
            let n = e.blocks.len();
            let start = e.blocks[n - 1] * BLOCK_SIZE;
            &&& start + BLOCK_SIZE <= e.data_len ==> crate::cache::entry_bytes(e) == n * BLOCK_SIZE
            &&& start < e.data_len < start + BLOCK_SIZE ==> crate::cache::entry_bytes(e) == (n - 1)
                * BLOCK_SIZE + (e.data_len - start)
            &&& e.data_len <= start ==> crate::cache::entry_bytes(e) == (n - 1) * BLOCK_SIZE
        }),
{
    let n = e.blocks.len() as int;
    assert((n - 1) * BLOCK_SIZE + BLOCK_SIZE == n * BLOCK_SIZE) by (nonlinear_arith);
}

/// A file that is cached whole counts with its length, and an entry without blocks with nothing.
pub proof fn a_file_that_is_cached_whole_counts_with_its_length(e: EntryView)
    requires
        forall|i: int| 0 <= i < e.blocks.len() ==> e.blocks[i] == i,
        e.data_len <= e.blocks.len() * BLOCK_SIZE,
        e.blocks.len() > 0 ==> (e.blocks.len() - 1) * BLOCK_SIZE < e.data_len,
    ensures
        crate::cache::entry_bytes(e) == e.data_len,
{
    if e.blocks.len() > 0 {
        let n = e.blocks.len() as int;
        assert(e.blocks.last() == n - 1);
        assert((n - 1) * BLOCK_SIZE + BLOCK_SIZE == n * BLOCK_SIZE) by (nonlinear_arith);
    }
}

/// The cache counts with what its entries count with together: nothing where it has none, and with each
/// that is added what that one counts with.
pub proof fn the_cache_counts_with_its_entries(
    m: Map<Seq<char>, EntryView>,
    k: Seq<char>,
    e: EntryView,
)
    requires
        m.dom().finite(),
        !m.contains_key(k),
    ensures
        crate::cache::total_bytes(Map::empty()) == 0,
        crate::cache::total_bytes(m.insert(k, e)) == crate::cache::total_bytes(m)
            + crate::cache::entry_bytes(e),
{
    assert(Map::<Seq<char>, EntryView>::empty().dom() =~= Set::empty());
    crate::cache::lemma_total_remove(m.insert(k, e), k);
    assert(m.insert(k, e).remove(k) =~= m);
}

/// A block is found if and only if it was written and not given up. What is found starts where the block
/// starts in the file, and holds the block's bytes: all of them, or, of the highest block, those that the
/// file has.
pub proof fn a_found_block_is_where_it_belongs(
    m: Map<Seq<char>, EntryView>,
    k: Seq<char>,
    idx: u64,
    file_len: u64,
    r: Option<BlockSpan>,
    i: int,
)
    requires
        crate::cache::block_found(m, k, idx, file_len, r),
        m.contains_key(k) ==> crate::cache::entry_wf(m[k]),
    ensures
        r is Some <==> m.contains_key(k) && exists|j: int|
            0 <= j < m[k].blocks.len() && #[trigger] m[k].blocks[j] == idx,
        r matches Some(span) ==> {
            let inside = span.offset <= i < span.offset + span.len;
            let n = m[k].blocks.len();
            &&& span.offset == idx * BLOCK_SIZE
            &&& idx == m[k].blocks[n - 1] ==> (inside <==> i / (BLOCK_SIZE as int) == idx && i
                < file_len)
            &&& idx != m[k].blocks[n - 1] ==> (inside <==> i / (BLOCK_SIZE as int) == idx)
        },
{
}

// ---------------------------------------------------------------------------
// Recency.
// ---------------------------------------------------------------------------

/// What was read is used more recently than all else, and nothing else of it changes, nor anything of any
/// other entry.
pub proof fn what_was_read_is_the_most_recent(
    m: Map<Seq<char>, EntryView>,
    clock: u64,
    k: Seq<char>,
    now: i64,
    other: Seq<char>,
)
    requires
        crate::cache::entries_wf(m, clock),
        m.contains_key(k),
    ensures
        ({
            let after = crate::cache::touched(m, k, clock, now);
            &&& after.dom() == m.dom()
            &&& after[k].remote_path == m[k].remote_path
            &&& after[k].etag == m[k].etag
            &&& after[k].blocks == m[k].blocks
            &&& after[k].data_len == m[k].data_len
            &&& after[k].last_used_unix == now
            &&& other != k && m.contains_key(other) ==> after[other] == m[other] && after[other].seq
                < after[k].seq
        }),
{
    assert(crate::cache::touched(m, k, clock, now).dom() =~= m.dom());
}

/// What was written to is used more recently than all else; it has the block that was written, and every
/// block that it had before, and no other.
pub proof fn what_was_written_is_the_most_recent(
    m: Map<Seq<char>, EntryView>,
    clock: u64,
    key: FileKey,
    idx: u64,
    file_len: u64,
    now: i64,
    e: EntryView,
    other: Seq<char>,
    j: u64,
)
    requires
        crate::cache::entries_wf(m, clock),
        crate::cache::entry_written(
            crate::cache::lookup_entry(m, key.hash()),
            key,
            idx,
            file_len,
            now,
            clock,
            e,
        ),
    ensures
        ({
            let k = key.hash();
            &&& e.blocks.contains(j) <==> j == idx || (m.contains_key(k) && m[k].blocks.contains(j))
            &&& e.etag == key.etag@
            &&& !m.contains_key(k) ==> e.remote_path == key.remote_path@
            &&& m.contains_key(k) ==> e.remote_path == m[k].remote_path
            &&& e.data_len == file_len
            &&& e.last_used_unix == now
            &&& m.contains_key(other) ==> m[other].seq < e.seq
        }),
{
    let k = key.hash();
    assert(e.blocks.to_set().contains(j) <==> e.blocks.contains(j));
    if m.contains_key(k) {
        assert(m[k].blocks.to_set().contains(j) <==> m[k].blocks.contains(j));
    }
}

/// A block that could not be read whole is given up, alone: the other blocks of its entry stay, and so do
/// all other entries and the order in which they were used.
pub proof fn a_lost_block_is_given_up_alone(
    before: Map<Seq<char>, EntryView>,
    k: Seq<char>,
    idx: u64,
    after: Map<Seq<char>, EntryView>,
    meta: Option<MetaFile>,
    other: Seq<char>,
    j: u64,
)
    requires
        crate::cache::block_dropped(before, k, idx, after, meta),
    ensures
        after.dom() == before.dom(),
        other != k ==> after[other] == before[other],
        !before.contains_key(k) ==> after == before && meta is None,
        before.contains_key(k) ==> {
            &&& after[k].blocks.contains(j) <==> before[k].blocks.contains(j) && j != idx
            &&& after[k].remote_path == before[k].remote_path
            &&& after[k].etag == before[k].etag
            &&& after[k].seq == before[k].seq
            &&& after[k].last_used_unix == before[k].last_used_unix
            &&& after[k].data_len == before[k].data_len
            &&& meta matches Some(recorded) && recorded.blocks@ == after[k].blocks
        },
{
    assert(after.dom() =~= before.dom());
    if before.contains_key(k) {
        assert(after[k].blocks.to_set().contains(j) <==> after[k].blocks.contains(j));
        assert(before[k].blocks.to_set().contains(j) <==> before[k].blocks.contains(j));
    }
}

/// One step of an eviction takes something if and only if the cache is over its budget and some entry has
/// no handle. What it takes has none, and was used before every other such entry; all others stay.
pub proof fn an_eviction_takes_the_least_recent_without_a_handle(
    before: Map<Seq<char>, EntryView>,
    retains: Map<Seq<char>, u32>,
    max_bytes: u64,
    r: Option<String>,
    after: Map<Seq<char>, EntryView>,
    other: Seq<char>,
)
    requires
        crate::cache::evicts_next(before, retains, max_bytes, r, after),
    ensures
        crate::cache::total_bytes(before) <= max_bytes ==> r is None,
        r is None && before.contains_key(other) && !retains.contains_key(other)
            ==> crate::cache::total_bytes(before) <= max_bytes,
        r is None ==> after == before,
        r matches Some(k) ==> {
            &&& before.contains_key(k@)
            &&& !retains.contains_key(k@)
            &&& !after.contains_key(k@)
            &&& other != k@ ==> (after.contains_key(other) <==> before.contains_key(other))
                && after[other] == before[other]
            &&& before.contains_key(other) && !retains.contains_key(other) ==> before[k@].seq
                <= before[other].seq
        },
{
}

// ---------------------------------------------------------------------------
// Starting.
// ---------------------------------------------------------------------------

/// The directories that are to be deleted when the cache is opened are those whose record could not be
/// read.
pub proof fn unreadable_entries_are_deleted(scanned: Seq<ScannedEntry>, n: int, k: Seq<char>)
    requires
        0 <= n <= scanned.len(),
    ensures
        crate::cache::orphan_names(scanned, n).contains(k) <==> exists|i: int|
            0 <= i < n && (#[trigger] scanned[i]).meta is None && scanned[i].hash@ == k,
    decreases n,
{
    if n > 0 {
        unreadable_entries_are_deleted(scanned, n - 1, k);
        let before = crate::cache::orphan_names(scanned, n - 1);
        let all = crate::cache::orphan_names(scanned, n);
        if before.contains(k) {
            let i = choose|i: int| 0 <= i < before.len() && before[i] == k;
            assert(all[i] == k);
        }
        if scanned[n - 1].meta is None {
            assert(all[before.len() as int] == scanned[n - 1].hash@);
            if all.contains(k) && !before.contains(k) {
                let i = choose|i: int| 0 <= i < all.len() && all[i] == k;
                if i < before.len() {
                    assert(before[i] == k);
                }
            }
        }
    }
}

} // verus!
