//! What holds of the block cache as a whole.

use vstd::prelude::*;

use crate::cache::{EntryView, FileKey, MetaFile, ScannedEntry, BLOCK_SIZE};

verus! {

/// No entry with an open handle is evicted, however far the cache is over budget.
pub proof fn retained_entries_survive_eviction(
    before: Map<Seq<char>, EntryView>,
    retains: Map<Seq<char>, u32>,
    max_bytes: u64,
    gone: Seq<Seq<char>>,
    after: Map<Seq<char>, EntryView>,
    k: Seq<char>,
)
    requires
        crate::cache::evicts_to(before, retains, max_bytes, gone, after),
        retains.contains_key(k),
    ensures
        !gone.contains(k),
        crate::cache::lookup_entry(after, k) == crate::cache::lookup_entry(before, k),
{
    lemma_retained_survive(before, retains, max_bytes, gone, after, k);
}

proof fn lemma_retained_survive(
    before: Map<Seq<char>, EntryView>,
    retains: Map<Seq<char>, u32>,
    max_bytes: u64,
    gone: Seq<Seq<char>>,
    after: Map<Seq<char>, EntryView>,
    k: Seq<char>,
)
    requires
        crate::cache::eviction_steps(before, retains, max_bytes, gone, after),
        retains.contains_key(k),
    ensures
        !gone.contains(k),
        crate::cache::lookup_entry(after, k) == crate::cache::lookup_entry(before, k),
    decreases gone.len(),
{
    if gone.len() > 0 {
        let rest = gone.drop_first();
        lemma_retained_survive(before.remove(gone[0]), retains, max_bytes, rest, after, k);
        assert forall|i: int| 0 <= i < gone.len() implies gone[i] != k by {
            if i > 0 {
                assert(rest[i - 1] == gone[i]);
                assert(rest.contains(gone[i]));
            }
        }
    }
}

/// Eviction takes what was used least recently first: whatever went was used before everything that
/// stayed without an open handle.
pub proof fn eviction_is_least_recently_used_first(
    before: Map<Seq<char>, EntryView>,
    clock: u64,
    retains: Map<Seq<char>, u32>,
    max_bytes: u64,
    gone: Seq<Seq<char>>,
    after: Map<Seq<char>, EntryView>,
    out: Seq<char>,
    kept: Seq<char>,
)
    requires
        crate::cache::entries_wf(before, clock),
        crate::cache::evicts_to(before, retains, max_bytes, gone, after),
        gone.contains(out),
        after.contains_key(kept),
        !retains.contains_key(kept),
    ensures
        before.contains_key(out),
        before.contains_key(kept),
        before[out].seq < before[kept].seq,
{
    lemma_least_recent_first(before, retains, max_bytes, gone, after, out, kept);
    assert(before[out].seq != before[kept].seq);
}

proof fn lemma_least_recent_first(
    before: Map<Seq<char>, EntryView>,
    retains: Map<Seq<char>, u32>,
    max_bytes: u64,
    gone: Seq<Seq<char>>,
    after: Map<Seq<char>, EntryView>,
    out: Seq<char>,
    kept: Seq<char>,
)
    requires
        crate::cache::eviction_steps(before, retains, max_bytes, gone, after),
        gone.contains(out),
        after.contains_key(kept),
        !retains.contains_key(kept),
    ensures
        before.contains_key(out),
        before.contains_key(kept),
        before[out].seq <= before[kept].seq,
        out != kept,
    decreases gone.len(),
{
    let first = gone[0];
    let rest = gone.drop_first();
    lemma_kept_was_there(before.remove(first), retains, max_bytes, rest, after, kept);
    if out == first {
    } else {
        let i = choose|i: int| 0 <= i < gone.len() && gone[i] == out;
        assert(rest[i - 1] == out);
        lemma_least_recent_first(before.remove(first), retains, max_bytes, rest, after, out, kept);
    }
}

proof fn lemma_kept_was_there(
    before: Map<Seq<char>, EntryView>,
    retains: Map<Seq<char>, u32>,
    max_bytes: u64,
    gone: Seq<Seq<char>>,
    after: Map<Seq<char>, EntryView>,
    kept: Seq<char>,
)
    requires
        crate::cache::eviction_steps(before, retains, max_bytes, gone, after),
        after.contains_key(kept),
    ensures
        before.contains_key(kept),
        before[kept] == after[kept],
    decreases gone.len(),
{
    if gone.len() > 0 {
        lemma_kept_was_there(
            before.remove(gone[0]),
            retains,
            max_bytes,
            gone.drop_first(),
            after,
            kept,
        );
    }
}

/// Eviction ends within budget, or with nothing left but entries that have an open handle.
pub proof fn eviction_ends_within_budget_or_all_retained(
    before: Map<Seq<char>, EntryView>,
    retains: Map<Seq<char>, u32>,
    max_bytes: u64,
    gone: Seq<Seq<char>>,
    after: Map<Seq<char>, EntryView>,
)
    requires
        crate::cache::evicts_to(before, retains, max_bytes, gone, after),
    ensures
        crate::cache::total_bytes(after) <= max_bytes || forall|k: Seq<char>| #[trigger]
            after.contains_key(k) ==> retains.contains_key(k),
{
}

/// A cache within its budget evicts nothing.
pub proof fn within_budget_nothing_is_evicted(
    before: Map<Seq<char>, EntryView>,
    retains: Map<Seq<char>, u32>,
    max_bytes: u64,
    gone: Seq<Seq<char>>,
    after: Map<Seq<char>, EntryView>,
)
    requires
        crate::cache::evicts_to(before, retains, max_bytes, gone, after),
        crate::cache::total_bytes(before) <= max_bytes,
    ensures
        after == before,
        gone.len() == 0,
{
}

/// A handle that is opened and closed again leaves the counts as they were.
pub proof fn release_undoes_retain(retains: Map<Seq<char>, u32>, k: Seq<char>)
    requires
        retains.contains_key(k) ==> 0 < retains[k] < u32::MAX,
    ensures
        crate::cache::released(crate::cache::retained(retains, k), k) == retains,
{
    assert(crate::cache::released(crate::cache::retained(retains, k), k) =~= retains);
}

/// Where two handles are open on a version, it stays retained when the first of them closes.
pub proof fn the_second_handle_keeps_the_entry(retains: Map<Seq<char>, u32>, k: Seq<char>)
    requires
        retains.contains_key(k) ==> 0 < retains[k] < u32::MAX - 1,
    ensures
        crate::cache::released(
            crate::cache::retained(crate::cache::retained(retains, k), k),
            k,
        ).contains_key(k),
{
}

/// Reopening the cache brings back what `meta.json` recorded of each entry, and the order in which
/// the entries were used as far as the recorded times tell it.
pub proof fn reopening_restores_the_entries(
    m: Map<Seq<char>, EntryView>,
    scanned: Seq<ScannedEntry>,
    reopened: Map<Seq<char>, EntryView>,
)
    requires
        forall|k: Seq<char>| m.contains_key(k) ==> crate::cache::entry_wf(#[trigger] m[k]),
        crate::cache::distinct_names(scanned),
        forall|i: int|
            0 <= i < scanned.len() ==> (#[trigger] scanned[i]).meta is Some && m.contains_key(
                scanned[i].hash@,
            ) && crate::cache::meta_of(m[scanned[i].hash@], scanned[i].meta->0) && scanned[i].data_len
                == m[scanned[i].hash@].data_len,
        forall|k: Seq<char>| #[trigger]
            m.contains_key(k) ==> exists|i: int|
                0 <= i < scanned.len() && (#[trigger] scanned[i]).hash@ == k,
        crate::cache::loaded_from_scan(reopened, scanned, scanned.len() as int),
    ensures
        reopened.dom() == m.dom(),
        forall|k: Seq<char>|
            m.contains_key(k) ==> #[trigger] reopened[k] == (EntryView { seq: reopened[k].seq, ..m[k] }),
        forall|a: Seq<char>, b: Seq<char>|
            m.contains_key(a) && m.contains_key(b) && m[a].last_used_unix < m[b].last_used_unix
                ==> (#[trigger] reopened[a]).seq < (#[trigger] reopened[b]).seq,
{
    assert forall|k: Seq<char>| m.contains_key(k) implies reopened.contains_key(k)
        && #[trigger] reopened[k] == (EntryView { seq: reopened[k].seq, ..m[k] }) by {
        let i = choose|i: int| 0 <= i < scanned.len() && (#[trigger] scanned[i]).hash@ == k;
        assert(scanned[i].meta is Some);
        assert(crate::cache::entry_from_scan(reopened[k], scanned, i));
        crate::blockset::lemma_ascending_unique(reopened[k].blocks, m[k].blocks);
    }
    assert(reopened.dom() =~= m.dom());
    assert forall|a: Seq<char>, b: Seq<char>|
        m.contains_key(a) && m.contains_key(b) && m[a].last_used_unix < m[b].last_used_unix implies (
    #[trigger] reopened[a]).seq < (#[trigger] reopened[b]).seq by {
        let i = choose|i: int| 0 <= i < scanned.len() && (#[trigger] scanned[i]).hash@ == a;
        let j = choose|j: int| 0 <= j < scanned.len() && (#[trigger] scanned[j]).hash@ == b;
        assert(crate::cache::entry_from_scan(reopened[a], scanned, i));
        assert(crate::cache::entry_from_scan(reopened[b], scanned, j));
        crate::cache::lemma_rank_lt(scanned, i, j, scanned.len() as int);
    }
}

/// Purging a path takes every entry that was recorded under it, and leaves all others as they were.
pub proof fn purge_drops_exactly_one_path(
    m: Map<Seq<char>, EntryView>,
    remote_path: Seq<char>,
    k: Seq<char>,
)
    ensures
        crate::cache::without_path(m, remote_path).contains_key(k) <==> m.contains_key(k)
            && m[k].remote_path != remote_path,
        crate::cache::without_path(m, remote_path).contains_key(k) ==> crate::cache::without_path(
            m,
            remote_path,
        )[k] == m[k],
{
}

// ---------------------------------------------------------------------------
// What counts against the budget.
// ---------------------------------------------------------------------------

/// The entries with the data files named first found to be as long as told.
pub open spec fn measured_all(
    m: Map<Seq<char>, EntryView>,
    names: Seq<Seq<char>>,
    lens: Map<Seq<char>, u64>,
    n: int,
) -> Map<Seq<char>, EntryView>
    decreases n,
{
    if n <= 0 {
        m
    } else {
        crate::cache::measured(measured_all(m, names, lens, n - 1), names[n - 1], lens[names[n - 1]])
    }
}

proof fn lemma_measured_all(
    m: Map<Seq<char>, EntryView>,
    names: Seq<Seq<char>>,
    lens: Map<Seq<char>, u64>,
    n: int,
    k: Seq<char>,
)
    requires
        0 <= n <= names.len(),
    ensures
        measured_all(m, names, lens, n).contains_key(k) <==> m.contains_key(k),
        m.contains_key(k) ==> measured_all(m, names, lens, n)[k] == (if names.take(n).contains(k) {
            EntryView { data_len: lens[k], ..m[k] }
        } else {
            m[k]
        }),
    decreases n,
{
    if n > 0 {
        lemma_measured_all(m, names, lens, n - 1, k);
        let rest = names.take(n - 1);
        let all = names.take(n);
        assert(all =~= rest.push(names[n - 1]));
        assert(all[n - 1] == names[n - 1]);
        if all.contains(k) && names[n - 1] != k {
            let j = choose|j: int| 0 <= j < all.len() && all[j] == k;
            assert(rest[j] == k);
        }
        if rest.contains(k) {
            let j = choose|j: int| 0 <= j < rest.len() && rest[j] == k;
            assert(all[j] == k);
        }
    }
}

/// Once every data file was measured, what counts against the budget goes by the files alone: whatever
/// lengths were remembered before, each entry has the length of its file, and all else is as it was.
pub proof fn measuring_leaves_no_remembered_length(
    m: Map<Seq<char>, EntryView>,
    names: Seq<Seq<char>>,
    lens: Map<Seq<char>, u64>,
)
    requires
        forall|k: Seq<char>| #[trigger] names.contains(k) <==> m.contains_key(k),
    ensures
        ({
            let after = measured_all(m, names, lens, names.len() as int);
            &&& after.dom() == m.dom()
            &&& forall|k: Seq<char>|
                m.contains_key(k) ==> #[trigger] after[k] == (EntryView {
                    data_len: lens[k],
                    ..m[k]
                })
        }),
{
    let after = measured_all(m, names, lens, names.len() as int);
    assert(names.take(names.len() as int) =~= names);
    assert forall|k: Seq<char>| after.contains_key(k) <==> m.contains_key(k) by {
        lemma_measured_all(m, names, lens, names.len() as int, k);
    }
    assert(after.dom() =~= m.dom());
    assert forall|k: Seq<char>| m.contains_key(k) implies #[trigger] after[k] == (EntryView {
        data_len: lens[k],
        ..m[k]
    }) by {
        lemma_measured_all(m, names, lens, names.len() as int, k);
        assert(names.contains(k));
    }
}

// ---------------------------------------------------------------------------
// Directories and what they hold.
// ---------------------------------------------------------------------------

/// Whether every entry lies in the directory that its path and etag name.
pub open spec fn well_named(m: Map<Seq<char>, EntryView>) -> bool {
    forall|k: Seq<char>| #[trigger]
        m.contains_key(k) ==> k == crate::cache::key_hash(m[k].remote_path, m[k].etag)
}

/// Whether another version is cached in the very directory that this one's path and etag name: the two
/// have the same digest as far as it goes into the name.
pub open spec fn shares_directory(
    m: Map<Seq<char>, EntryView>,
    remote_path: Seq<char>,
    etag: Seq<char>,
) -> bool {
    let k = crate::cache::key_hash(remote_path, etag);
    m.contains_key(k) && k == crate::cache::key_hash(m[k].remote_path, m[k].etag) && (
    m[k].remote_path != remote_path || m[k].etag != etag)
}

/// Writing a block leaves every entry in the directory that its path and etag name.
pub proof fn writing_keeps_entries_well_named(
    m: Map<Seq<char>, EntryView>,
    key: FileKey,
    idx: u64,
    file_len: u64,
    now: i64,
    seq: u64,
    e: EntryView,
)
    requires
        well_named(m),
        !shares_directory(m, key.remote_path@, key.etag@),
        crate::cache::entry_written(
            crate::cache::lookup_entry(m, key.hash()),
            key,
            idx,
            file_len,
            now,
            seq,
            e,
        ),
    ensures
        well_named(m.insert(key.hash(), e)),
        e.remote_path == key.remote_path@,
        e.etag == key.etag@,
{
}

/// Reading, losing a block, measuring, a purge and an eviction leave every entry in the directory that its
/// path and etag name.
pub proof fn other_operations_keep_entries_well_named(
    m: Map<Seq<char>, EntryView>,
    k: Seq<char>,
    idx: u64,
    seq: u64,
    now: i64,
    dropped: Map<Seq<char>, EntryView>,
    meta: Option<MetaFile>,
    data_len: u64,
    remote_path: Seq<char>,
    retains: Map<Seq<char>, u32>,
    max_bytes: u64,
    gone: Seq<Seq<char>>,
    evicted: Map<Seq<char>, EntryView>,
)
    requires
        well_named(m),
        crate::cache::block_dropped(m, k, idx, dropped, meta),
        crate::cache::evicts_to(m, retains, max_bytes, gone, evicted),
    ensures
        well_named(crate::cache::touched(m, k, seq, now)),
        well_named(dropped),
        well_named(crate::cache::measured(m, k, data_len)),
        well_named(crate::cache::without_path(m, remote_path)),
        well_named(evicted),
{
    assert forall|j: Seq<char>| #[trigger] evicted.contains_key(j) implies j
        == crate::cache::key_hash(evicted[j].remote_path, evicted[j].etag) by {
        lemma_kept_was_there(m, retains, max_bytes, gone, evicted, j);
    }
}

/// What a scan brings back lies where it belongs, where each directory is named by what it records.
pub proof fn scanned_entries_are_well_named(
    scanned: Seq<ScannedEntry>,
    m: Map<Seq<char>, EntryView>,
)
    requires
        crate::cache::loaded_from_scan(m, scanned, scanned.len() as int),
        forall|i: int|
            0 <= i < scanned.len() && (#[trigger] scanned[i]).meta is Some ==> scanned[i].hash@
                == crate::cache::key_hash(
                scanned[i].meta->0.remote_path@,
                scanned[i].meta->0.etag@,
            ),
    ensures
        well_named(m),
{
    assert forall|k: Seq<char>| #[trigger] m.contains_key(k) implies k == crate::cache::key_hash(
        m[k].remote_path,
        m[k].etag,
    ) by {
        let i = choose|i: int|
            0 <= i < scanned.len() && (#[trigger] scanned[i]).meta is Some && scanned[i].hash@ == k;
        assert(crate::cache::entry_from_scan(m[scanned[i].hash@], scanned, i));
    }
}

/// A path that was purged has no readable block under any etag.
pub proof fn a_purged_path_reads_nothing(
    m: Map<Seq<char>, EntryView>,
    remote_path: Seq<char>,
    etag: Seq<char>,
    idx: u64,
)
    requires
        well_named(m),
        !shares_directory(m, remote_path, etag),
    ensures
        !crate::cache::is_cached(
            crate::cache::without_path(m, remote_path),
            crate::cache::key_hash(remote_path, etag),
            idx,
        ),
{
}

// ---------------------------------------------------------------------------
// Writing a block, evicting, and reading it back.
// ---------------------------------------------------------------------------

/// What a read of block `idx` gives, where it is cached in an entry with the data file `content`.
pub open spec fn block_bytes(e: EntryView, content: Seq<u8>, idx: u64) -> Seq<u8> {
    crate::datafile::read_from(
        content,
        idx * BLOCK_SIZE,
        crate::cache::block_len(e.blocks, idx, content.len() as int),
    )
}

/// Whether `data` can be written as block `idx` into the data file `content`: it is a full block, or it is
/// where the file ends.
pub open spec fn fits_as_block(content: Seq<u8>, blocks: Seq<u64>, idx: u64, data: Seq<u8>) -> bool {
    ||| data.len() == BLOCK_SIZE
    ||| {
        &&& data.len() < BLOCK_SIZE
        &&& content.len() <= idx * BLOCK_SIZE + data.len()
        &&& forall|i: int| 0 <= i < blocks.len() ==> #[trigger] blocks[i] <= idx
    }
}

/// Whether the blocks before `idx` were written in full.
pub open spec fn full_before(content: Seq<u8>, blocks: Seq<u64>, idx: u64) -> bool {
    forall|j: u64| #[trigger]
        blocks.contains(j) && j < idx ==> (j + 1) * BLOCK_SIZE <= content.len()
}

/// Blocks of an entry, where there is one.
pub open spec fn blocks_of(e: Option<EntryView>) -> Seq<u64> {
    match e {
        Some(e) => e.blocks,
        None => Seq::empty(),
    }
}

proof fn lemma_last_is_highest(blocks: Seq<u64>, i: u64)
    requires
        crate::blockset::ascending(blocks),
        blocks.contains(i),
    ensures
        i <= blocks.last(),
        blocks.contains(blocks.last()),
{
    let n = choose|n: int| 0 <= n < blocks.len() && blocks[n] == i;
    if n < blocks.len() - 1 {
        assert(blocks[n] < blocks[blocks.len() - 1]);
    }
}

proof fn lemma_with_index(before: Seq<u64>, x: u64, after: Seq<u64>)
    requires
        crate::blockset::with_index(before, x, after),
    ensures
        forall|j: u64| #[trigger] after.contains(j) <==> before.contains(j) || j == x,
{
    assert forall|j: u64| #[trigger] after.contains(j) <==> before.contains(j) || j == x by {
        assert(after.to_set().contains(j) <==> before.to_set().insert(x).contains(j));
    }
}

proof fn lemma_written_block(
    content: Seq<u8>,
    blocks: Seq<u64>,
    idx: u64,
    data: Seq<u8>,
    after: Seq<u64>,
)
    requires
        crate::blockset::with_index(blocks, idx, after),
        fits_as_block(content, blocks, idx, data),
    ensures
        ({
            let written = crate::datafile::written_at(content, idx * BLOCK_SIZE, data);
            crate::datafile::read_from(
                written,
                idx * BLOCK_SIZE,
                crate::cache::block_len(after, idx, written.len() as int),
            ) == data
        }),
{
    let written = crate::datafile::written_at(content, idx * BLOCK_SIZE, data);
    lemma_with_index(blocks, idx, after);
    lemma_last_is_highest(after, idx);
    crate::datafile::write_reads_back(content, idx * BLOCK_SIZE, data);
    if data.len() < BLOCK_SIZE && after.last() != idx {
        let n = choose|n: int| 0 <= n < blocks.len() && blocks[n] == after.last();
        assert(blocks[n] <= idx);
    }
}

proof fn lemma_other_block(
    content: Seq<u8>,
    blocks: Seq<u64>,
    idx: u64,
    data: Seq<u8>,
    after: Seq<u64>,
    j: u64,
)
    requires
        crate::blockset::ascending(blocks),
        crate::blockset::with_index(blocks, idx, after),
        fits_as_block(content, blocks, idx, data),
        full_before(content, blocks, idx),
        blocks.contains(j),
        j != idx,
    ensures
        ({
            let written = crate::datafile::written_at(content, idx * BLOCK_SIZE, data);
            crate::datafile::read_from(
                written,
                j * BLOCK_SIZE,
                crate::cache::block_len(after, j, written.len() as int),
            ) == crate::datafile::read_from(
                content,
                j * BLOCK_SIZE,
                crate::cache::block_len(blocks, j, content.len() as int),
            )
        }),
{
    let written = crate::datafile::written_at(content, idx * BLOCK_SIZE, data);
    let new = crate::datafile::read_from(
        written,
        j * BLOCK_SIZE,
        crate::cache::block_len(after, j, written.len() as int),
    );
    let old_bytes = crate::datafile::read_from(
        content,
        j * BLOCK_SIZE,
        crate::cache::block_len(blocks, j, content.len() as int),
    );
    lemma_with_index(blocks, idx, after);
    lemma_last_is_highest(after, idx);
    lemma_last_is_highest(after, j);
    lemma_last_is_highest(blocks, j);
    if j > idx {
        let n = choose|n: int| 0 <= n < blocks.len() && blocks[n] == j;
        assert(data.len() == BLOCK_SIZE);
        lemma_last_is_highest(after, blocks.last());
        lemma_last_is_highest(blocks, after.last());
    }
    assert(new =~= old_bytes);
}

proof fn lemma_evicted(
    before: Map<Seq<char>, EntryView>,
    retains: Map<Seq<char>, u32>,
    max_bytes: u64,
    gone: Seq<Seq<char>>,
    after: Map<Seq<char>, EntryView>,
    k: Seq<char>,
)
    requires
        crate::cache::eviction_steps(before, retains, max_bytes, gone, after),
    ensures
        crate::cache::lookup_entry(after, k) == (if gone.contains(k) {
            None
        } else {
            crate::cache::lookup_entry(before, k)
        }),
    decreases gone.len(),
{
    if gone.len() > 0 {
        let rest = gone.drop_first();
        lemma_evicted(before.remove(gone[0]), retains, max_bytes, rest, after, k);
        if gone.contains(k) && gone[0] != k {
            let i = choose|i: int| 0 <= i < gone.len() && gone[i] == k;
            assert(rest[i - 1] == k);
        }
        if rest.contains(k) {
            let i = choose|i: int| 0 <= i < rest.len() && rest[i] == k;
            assert(gone[i + 1] == k);
        }
        assert(gone.contains(gone[0]));
    }
}

/// A block that is written is there after the eviction that follows, and reads back as it was; the other
/// blocks of the file read as before, and no block appears that was not written. Other files keep all
/// that they had, or were evicted.
pub proof fn a_written_block_reads_back_after_eviction(
    m: Map<Seq<char>, EntryView>,
    clock: u64,
    retains: Map<Seq<char>, u32>,
    max_bytes: u64,
    key: FileKey,
    content: Seq<u8>,
    idx: u64,
    data: Seq<u8>,
    now: i64,
    e: EntryView,
    gone: Seq<Seq<char>>,
    after: Map<Seq<char>, EntryView>,
)
    requires
        crate::cache::entries_wf(m, clock),
        ({
            let before = crate::cache::lookup_entry(m, key.hash());
            let written = crate::datafile::written_at(content, idx * BLOCK_SIZE, data);
            let n = m.insert(key.hash(), e);
            &&& fits_as_block(content, blocks_of(before), idx, data)
            &&& full_before(content, blocks_of(before), idx)
            &&& written.len() <= u64::MAX
            &&& crate::cache::entry_written(
                before,
                key,
                idx,
                written.len() as u64,
                now,
                clock,
                e,
            )
            &&& crate::cache::evicts_to(n, retains, max_bytes, gone, after)
            &&& retains.contains_key(key.hash()) || crate::cache::total_bytes(n) <= max_bytes
        }),
    ensures
        ({
            let k = key.hash();
            let written = crate::datafile::written_at(content, idx * BLOCK_SIZE, data);
            &&& crate::cache::is_cached(after, k, idx)
            &&& block_bytes(after[k], written, idx) == data
            &&& forall|j: u64|
                j != idx ==> (#[trigger] crate::cache::is_cached(after, k, j)
                    <==> crate::cache::is_cached(m, k, j))
            &&& forall|j: u64|
                j != idx && crate::cache::is_cached(m, k, j) ==> #[trigger] block_bytes(
                    after[k],
                    written,
                    j,
                ) == block_bytes(m[k], content, j)
            &&& forall|o: Seq<char>|
                o != k ==> #[trigger] crate::cache::lookup_entry(after, o) == (if gone.contains(o) {
                    None
                } else {
                    crate::cache::lookup_entry(m, o)
                })
        }),
{
    let k = key.hash();
    let before = crate::cache::lookup_entry(m, k);
    let old_blocks = blocks_of(before);
    let written = crate::datafile::written_at(content, idx * BLOCK_SIZE, data);
    let n = m.insert(k, e);
    if retains.contains_key(k) {
        retained_entries_survive_eviction(n, retains, max_bytes, gone, after, k);
    } else {
        within_budget_nothing_is_evicted(n, retains, max_bytes, gone, after);
    }
    assert(crate::cache::lookup_entry(after, k) == crate::cache::lookup_entry(n, k));
    assert(after.contains_key(k) && after[k] == e);
    lemma_with_index(old_blocks, idx, e.blocks);
    lemma_written_block(content, old_blocks, idx, data, e.blocks);
    assert forall|j: u64| j != idx && crate::cache::is_cached(m, k, j) implies #[trigger] block_bytes(
        after[k],
        written,
        j,
    ) == block_bytes(m[k], content, j) by {
        lemma_other_block(content, old_blocks, idx, data, e.blocks, j);
    }
    assert forall|o: Seq<char>| o != k implies #[trigger] crate::cache::lookup_entry(after, o) == (
    if gone.contains(o) {
        None
    } else {
        crate::cache::lookup_entry(m, o)
    }) by {
        lemma_evicted(n, retains, max_bytes, gone, after, o);
        assert(crate::cache::lookup_entry(n, o) == crate::cache::lookup_entry(m, o));
    }
}

// ---------------------------------------------------------------------------
// Handles and eviction over a history.
// ---------------------------------------------------------------------------

/// What the cache holds, and the number of handles on each version.
pub struct CacheState {
    pub entries: Map<Seq<char>, EntryView>,
    pub retains: Map<Seq<char>, u32>,
}

/// What can happen to the cache.
pub enum CacheStep {
    Retain { key: FileKey },
    Release { key: FileKey },
    /// A block is written, and `entry` is what its version holds then.
    Write { key: FileKey, idx: u64, file_len: u64, now: i64, seq: u64, entry: EntryView },
    /// A block is read.
    Touch { key: FileKey, seq: u64, now: i64 },
    /// A block that could not be read is dropped, and `left` is what the cache holds then.
    Lose { key: FileKey, idx: u64, left: Map<Seq<char>, EntryView>, meta: Option<MetaFile> },
    /// A data file is found to be `data_len` bytes long.
    Measure { hash: Seq<char>, data_len: u64 },
    Purge { remote_path: Seq<char> },
    /// Entries are evicted in the order of `gone`, and `left` is what stays.
    Evict { gone: Seq<Seq<char>>, left: Map<Seq<char>, EntryView> },
}

/// The cache after a step.
pub open spec fn cache_after(s: CacheState, step: CacheStep) -> CacheState {
    match step {
        CacheStep::Retain { key } => CacheState {
            retains: crate::cache::retained(s.retains, key.hash()),
            ..s
        },
        CacheStep::Release { key } => CacheState {
            retains: crate::cache::released(s.retains, key.hash()),
            ..s
        },
        CacheStep::Write { key, entry, .. } => CacheState {
            entries: s.entries.insert(key.hash(), entry),
            ..s
        },
        CacheStep::Touch { key, seq, now } => CacheState {
            entries: crate::cache::touched(s.entries, key.hash(), seq, now),
            ..s
        },
        CacheStep::Lose { left, .. } => CacheState { entries: left, ..s },
        CacheStep::Measure { hash, data_len } => CacheState {
            entries: crate::cache::measured(s.entries, hash, data_len),
            ..s
        },
        CacheStep::Purge { remote_path } => CacheState {
            entries: crate::cache::without_path(s.entries, remote_path),
            ..s
        },
        CacheStep::Evict { left, .. } => CacheState { entries: left, ..s },
    }
}

/// Whether the step is one that can follow in a cache with the given budget.
pub open spec fn can_follow(s: CacheState, step: CacheStep, max_bytes: u64) -> bool {
    match step {
        CacheStep::Retain { key } => s.retains.contains_key(key.hash()) ==> s.retains[key.hash()]
            < u32::MAX,
        CacheStep::Write { key, idx, file_len, now, seq, entry } => crate::cache::entry_written(
            crate::cache::lookup_entry(s.entries, key.hash()),
            key,
            idx,
            file_len,
            now,
            seq,
            entry,
        ),
        CacheStep::Lose { key, idx, left, meta } => crate::cache::block_dropped(
            s.entries,
            key.hash(),
            idx,
            left,
            meta,
        ),
        CacheStep::Evict { gone, left } => crate::cache::evicts_to(
            s.entries,
            s.retains,
            max_bytes,
            gone,
            left,
        ),
        _ => true,
    }
}

/// The cache after the steps, one by one.
pub open spec fn cache_after_all(s: CacheState, steps: Seq<CacheStep>) -> CacheState
    decreases steps.len(),
{
    if steps.len() == 0 {
        s
    } else {
        cache_after(cache_after_all(s, steps.drop_last()), steps.last())
    }
}

/// Whether the steps can follow each other in a cache with the given budget.
pub open spec fn can_happen(s: CacheState, steps: Seq<CacheStep>, max_bytes: u64) -> bool
    decreases steps.len(),
{
    steps.len() == 0 || {
        &&& can_happen(s, steps.drop_last(), max_bytes)
        &&& can_follow(cache_after_all(s, steps.drop_last()), steps.last(), max_bytes)
    }
}

/// Number of handles on `k`.
pub open spec fn handles(retains: Map<Seq<char>, u32>, k: Seq<char>) -> int {
    if retains.contains_key(k) {
        retains[k] as int
    } else {
        0
    }
}

/// Number of handles on `k` by the steps: each `Retain` opens one, and each `Release` closes one, as long
/// as one is open.
pub open spec fn balance(start: int, steps: Seq<CacheStep>, k: Seq<char>) -> int
    decreases steps.len(),
{
    if steps.len() == 0 {
        start
    } else {
        let before = balance(start, steps.drop_last(), k);
        match steps.last() {
            CacheStep::Retain { key } => if key.hash() == k {
                before + 1
            } else {
                before
            },
            CacheStep::Release { key } => if key.hash() == k && before > 0 {
                before - 1
            } else {
                before
            },
            _ => before,
        }
    }
}

/// Whether a handle on `k` is open before each of the steps.
pub open spec fn held(start: int, steps: Seq<CacheStep>, k: Seq<char>) -> bool
    decreases steps.len(),
{
    steps.len() == 0 || {
        &&& held(start, steps.drop_last(), k)
        &&& balance(start, steps.drop_last(), k) > 0
    }
}

/// Whether no step purges the path of the version `k`, or drops a block of it that could not be read.
pub open spec fn spared(s: CacheState, steps: Seq<CacheStep>, k: Seq<char>) -> bool
    decreases steps.len(),
{
    steps.len() == 0 || {
        let before = cache_after_all(s, steps.drop_last());
        &&& spared(s, steps.drop_last(), k)
        &&& match steps.last() {
            CacheStep::Purge { remote_path } => before.entries.contains_key(k)
                ==> before.entries[k].remote_path != remote_path,
            CacheStep::Lose { key, .. } => key.hash() != k,
            _ => true,
        }
    }
}

/// Whether one of the steps writes block `idx` of the version `k`.
pub open spec fn writes(steps: Seq<CacheStep>, k: Seq<char>, idx: u64) -> bool
    decreases steps.len(),
{
    steps.len() > 0 && {
        ||| writes(steps.drop_last(), k, idx)
        ||| steps.last() matches CacheStep::Write { key, idx: i, .. } && key.hash() == k && i == idx
    }
}

/// Whether no version is counted that has no handle.
pub open spec fn counts_wf(retains: Map<Seq<char>, u32>) -> bool {
    forall|k: Seq<char>| #[trigger] retains.contains_key(k) ==> retains[k] > 0
}

/// The cache counts the handles on every version exactly, and keeps no count of a version without one.
pub proof fn the_counts_are_the_open_handles(
    s: CacheState,
    steps: Seq<CacheStep>,
    max_bytes: u64,
    k: Seq<char>,
)
    requires
        counts_wf(s.retains),
        can_happen(s, steps, max_bytes),
    ensures
        counts_wf(cache_after_all(s, steps).retains),
        handles(cache_after_all(s, steps).retains, k) == balance(handles(s.retains, k), steps, k),
        cache_after_all(s, steps).retains.contains_key(k) <==> balance(
            handles(s.retains, k),
            steps,
            k,
        ) > 0,
    decreases steps.len(),
{
    if steps.len() > 0 {
        the_counts_are_the_open_handles(s, steps.drop_last(), max_bytes, k);
    }
}

/// Every block that is written to a version while a handle on it is open is there as long as one is,
/// however far the cache is over budget, also where the first handle was opened before anything was cached.
/// So is every block that was there before.
pub proof fn blocks_of_an_open_version_stay(
    s: CacheState,
    steps: Seq<CacheStep>,
    max_bytes: u64,
    k: Seq<char>,
    idx: u64,
)
    requires
        counts_wf(s.retains),
        can_happen(s, steps, max_bytes),
        held(handles(s.retains, k), steps, k),
        spared(s, steps, k),
        writes(steps, k, idx) || crate::cache::is_cached(s.entries, k, idx),
    ensures
        crate::cache::is_cached(cache_after_all(s, steps).entries, k, idx),
    decreases steps.len(),
{
    if steps.len() > 0 {
        let early = steps.drop_last();
        let before = cache_after_all(s, early);
        let after = cache_after_all(s, steps);
        the_counts_are_the_open_handles(s, early, max_bytes, k);
        if writes(early, k, idx) || crate::cache::is_cached(s.entries, k, idx) {
            blocks_of_an_open_version_stay(s, early, max_bytes, k, idx);
        }
        match steps.last() {
            CacheStep::Write { key, idx: i, entry, .. } => {
                if key.hash() == k {
                    lemma_with_index(
                        blocks_of(crate::cache::lookup_entry(before.entries, k)),
                        i,
                        entry.blocks,
                    );
                }
            },
            CacheStep::Evict { gone, left } => {
                retained_entries_survive_eviction(
                    before.entries,
                    before.retains,
                    max_bytes,
                    gone,
                    left,
                    k,
                );
                assert(crate::cache::lookup_entry(left, k) == crate::cache::lookup_entry(
                    before.entries,
                    k,
                ));
            },
            _ => {},
        }
    }
}

/// A version whose last handle was closed can be evicted again, with all that is written to it later: it
/// stays through an eviction only where the cache ends within its budget.
pub proof fn a_released_version_can_go(
    s: CacheState,
    steps: Seq<CacheStep>,
    max_bytes: u64,
    gone: Seq<Seq<char>>,
    left: Map<Seq<char>, EntryView>,
    k: Seq<char>,
)
    requires
        counts_wf(s.retains),
        can_happen(s, steps.push(CacheStep::Evict { gone, left }), max_bytes),
        balance(handles(s.retains, k), steps, k) == 0,
    ensures
        left.contains_key(k) ==> crate::cache::total_bytes(left) <= max_bytes,
{
    let all = steps.push(CacheStep::Evict { gone, left });
    assert(all.drop_last() =~= steps);
    let before = cache_after_all(s, steps);
    the_counts_are_the_open_handles(s, steps, max_bytes, k);
    eviction_ends_within_budget_or_all_retained(
        before.entries,
        before.retains,
        max_bytes,
        gone,
        left,
    );
}

} // verus!
