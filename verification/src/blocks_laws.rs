//! What holds of reading a remote file by blocks.

use vstd::prelude::*;

use crate::blocks::{
    BlockRange, FetchAttempts, FetchReply, FetchStep, FETCH_RETRIES, MATERIALIZE_CHUNK, READAHEAD_BLOCKS,
};
use crate::cache::{BLOCK_LIMIT, BLOCK_SIZE};

verus! {

// ---------------------------------------------------------------------------
// Requests.
// ---------------------------------------------------------------------------

/// Bytes that came are the result and an unsatisfiable range is an empty result, however the requests
/// before went, and nothing else is: the attempts stay as they are, and no other reply gives a result.
pub proof fn a_result_is_what_the_server_sent(a: FetchAttempts, reply: FetchReply)
    ensures
        ({
            let (b, step) = crate::blocks::after_fetch(a, reply);
            &&& step is UseData <==> reply == FetchReply::Data
            &&& step is UseNothing <==> reply == FetchReply::RangeNotSatisfiable
            &&& step is UseData || step is UseNothing ==> b == a
        }),
{
}

/// A failed request is repeated as long as fewer than all tries with one URL failed, each time counted, and
/// ends in a failure with the last of them; whether the URL was renewed before makes no difference and is
/// kept in mind. A longer wait comes before the second repetition than before the first.
pub proof fn failures_are_repeated_until_all_tries_failed(a: FetchAttempts)
    ensures
        ({
            let (b, step) = crate::blocks::after_fetch(a, FetchReply::Failed);
            &&& step is RetryAfter <==> a.failed + 1 < FETCH_RETRIES
            &&& step is Fail <==> a.failed + 1 >= FETCH_RETRIES
            &&& step is RetryAfter ==> b.failed == a.failed + 1
            &&& b.refreshed == a.refreshed
        }),
        ({
            let first = crate::blocks::after_fetch(
                FetchAttempts { failed: 0, refreshed: a.refreshed },
                FetchReply::Failed,
            );
            let second = crate::blocks::after_fetch(first.0, FetchReply::Failed);
            let third = crate::blocks::after_fetch(second.0, FetchReply::Failed);
            &&& first.1 == FetchStep::RetryAfter(100)
            &&& second.1 == FetchStep::RetryAfter(500)
            &&& third.1 is Fail
        }),
{
}

/// A URL that is refused is renewed where it is the first one and the read fails where it is the second;
/// only a refusal is answered so.
pub proof fn only_a_refused_url_is_renewed(a: FetchAttempts, reply: FetchReply)
    ensures
        ({
            let step = crate::blocks::after_fetch(a, reply).1;
            &&& step is RefreshUrl <==> reply == FetchReply::Forbidden && !a.refreshed
            &&& step is StillForbidden <==> reply == FetchReply::Forbidden && a.refreshed
        }),
{
}

/// The status of an answer tells apart bytes, an unsatisfiable range and a refused URL; any other status is
/// a failure.
pub proof fn a_status_means_one_thing(status: u16)
    ensures
        crate::blocks::status_reply(status) == FetchReply::Data <==> status == 200 || status == 206,
        crate::blocks::status_reply(status) == FetchReply::RangeNotSatisfiable <==> status == 416,
        crate::blocks::status_reply(status) == FetchReply::Forbidden <==> status == 403,
{
}

/// A download URL is asked for the very version that is read, wherever that is known.
pub proof fn a_url_is_asked_for_the_version_that_is_read(etag: Seq<char>)
    ensures
        crate::blocks::entity_of(etag) is None <==> etag == Seq::<char>::empty(),
        crate::blocks::entity_of(etag) matches Some(e) ==> e == etag,
{
    if etag.len() == 0 {
        assert(etag =~= Seq::<char>::empty());
    }
}

// ---------------------------------------------------------------------------
// Blocks.
// ---------------------------------------------------------------------------

/// A read needs the blocks that its bytes lie in and no others: a byte of the file is asked for if and only
/// if it is among the first bytes of the range, as many as it tells of; the block of each such byte is
/// needed; and each block that is needed holds one of them. A read that needs no block asks for no byte.
pub proof fn a_read_needs_the_blocks_of_its_bytes(
    r: Option<BlockRange>,
    size: u64,
    offset: u64,
    len: u32,
    i: int,
    b: int,
)
    requires
        crate::blocks::is_block_range(r, size, offset, len),
    ensures
        r is None ==> !(offset <= i < offset + len && i < size),
        r matches Some(range) ==> {
            &&& offset <= i < offset + range.len <==> offset <= i < offset + len && i < size
            &&& offset <= i < offset + range.len ==> range.first_block <= i / (BLOCK_SIZE as int)
                <= range.last_block
            &&& range.first_block <= b <= range.last_block ==> exists|j: int|
                offset <= j < offset + range.len && #[trigger] (j / (BLOCK_SIZE as int)) == b
        },
{
    if let Some(range) = r {
        if range.first_block <= b <= range.last_block {
            let j = if b == range.first_block {
                offset as int
            } else {
                b * BLOCK_SIZE
            };
            assert(offset <= j < offset + range.len);
            assert(j / (BLOCK_SIZE as int) == b);
        }
    }
}

/// What is fetched for a run of blocks are the bytes of the file that lie in it, and nothing past the end
/// of the file.
pub proof fn a_run_is_fetched_whole(
    r: Option<(u64, u64)>,
    run_first: u64,
    run_last: u64,
    size: u64,
    i: int,
)
    requires
        run_first <= run_last < BLOCK_LIMIT,
        crate::blocks::is_run_bytes(r, run_first, run_last, size),
        0 <= i < size,
    ensures
        ({
            let in_run = run_first <= i / (BLOCK_SIZE as int) <= run_last;
            match r {
                Some(b) => (b.0 <= i <= b.1 <==> in_run) && b.1 < size,
                None => !in_run,
            }
        }),
{
}

/// What is fetched in advance are the blocks that follow the read, as many as are fetched in advance or as
/// the file still has.
pub proof fn the_blocks_that_follow_are_fetched_in_advance(
    r: Option<(u64, u64)>,
    size: u64,
    last_block: u64,
    b: int,
)
    requires
        size > 0,
        crate::blocks::is_readahead(r, size, last_block),
    ensures
        ({
            let follows = last_block < b <= last_block + READAHEAD_BLOCKS && b * BLOCK_SIZE < size;
            match r {
                Some(range) => range.0 <= b <= range.1 <==> follows,
                None => !follows,
            }
        }),
{
}

/// Copying a file chunk by chunk never stops before its end, never passes it, and makes no chunk smaller
/// than it has to be.
pub proof fn chunks_reach_the_end_of_the_file(r: Option<u32>, size: u64, offset: u64)
    requires
        crate::blocks::is_next_chunk(r, size, offset),
        offset <= size,
    ensures
        r is None <==> offset == size,
        r matches Some(n) ==> {
            &&& 0 < n <= MATERIALIZE_CHUNK
            &&& offset + n <= size
            &&& n < MATERIALIZE_CHUNK ==> offset + n == size
        },
{
}

/// Every absent block is fetched, with one request; no present block is; and two requests are never made
/// for blocks that one could bring.
pub proof fn a_run_of_missing_blocks_is_fetched_with_one_request(
    first_block: u64,
    present: Seq<bool>,
    runs: Seq<(u64, u64)>,
    i: int,
    j: int,
    b: int,
)
    requires
        crate::blocks::are_missing_runs(first_block, present, runs),
        0 <= i < runs.len(),
        0 <= j < runs.len(),
    ensures
        0 <= b < present.len() && !present[b] ==> exists|k: int|
            0 <= k < runs.len() && (#[trigger] runs[k]).0 <= first_block + b <= runs[k].1,
        runs[i].0 <= b <= runs[i].1 ==> first_block <= b < first_block + present.len()
            && !present[b - first_block],
        runs[i].0 <= b <= runs[i].1 && runs[j].0 <= b <= runs[j].1 ==> i == j,
        first_block < runs[i].0 ==> present[runs[i].0 - first_block - 1],
        runs[i].1 + 1 < first_block + present.len() ==> present[runs[i].1 + 1 - first_block],
{
    if 0 <= b < present.len() && !present[b] {
        assert(crate::blocks::is_absent(first_block, present, first_block + b));
        let k = choose|k: int|
            0 <= k < runs.len() && #[trigger] crate::blocks::in_run(runs[k], first_block + b);
        assert(runs[k].0 <= first_block + b <= runs[k].1);
    }
    if runs[i].0 <= b <= runs[i].1 {
        assert(crate::blocks::in_run(runs[i], b));
        assert(crate::blocks::is_absent(first_block, present, b));
    }
    let run = runs[i];
    assert(run.0 <= run.1);
    assert(crate::blocks::in_run(run, run.0 as int));
    assert(crate::blocks::in_run(run, run.1 as int));
    assert(crate::blocks::is_absent(first_block, present, run.0 as int));
    assert(crate::blocks::is_absent(first_block, present, run.1 as int));
    if first_block < run.0 && !present[run.0 - first_block - 1] {
        let x = run.0 - 1;
        assert(crate::blocks::is_absent(first_block, present, x));
        let k = choose|k: int| 0 <= k < runs.len() && #[trigger] crate::blocks::in_run(runs[k], x);
        assert(runs[k].0 <= x <= runs[k].1);
        assert(k != i);
        assert(runs[k].0 <= runs[k].1);
    }
    if run.1 + 1 < first_block + present.len() && !present[run.1 + 1 - first_block] {
        let x = run.1 + 1;
        assert(crate::blocks::is_absent(first_block, present, x));
        let k = choose|k: int| 0 <= k < runs.len() && #[trigger] crate::blocks::in_run(runs[k], x);
        assert(runs[k].0 <= x <= runs[k].1);
        assert(k != i);
        assert(runs[k].0 <= runs[k].1);
    }
}

/// The data of a run is cut into its blocks without a gap: each byte that lies in the run is in the block of
/// its place, at its place there. No block is empty, and none lies past the run.
pub proof fn every_byte_of_a_run_is_in_its_block(
    r: Seq<(u64, Vec<u8>)>,
    data: Seq<u8>,
    run_first: u64,
    run_last: u64,
    j: int,
    i: int,
)
    requires
        run_first <= run_last < BLOCK_LIMIT,
        crate::blocks::is_split(r, data, run_first, run_last),
        0 <= j < data.len(),
        j < (run_last - run_first + 1) * BLOCK_SIZE,
    ensures
        ({
            let b = j / (BLOCK_SIZE as int);
            &&& b < r.len()
            &&& r[b].0 == run_first + b
            &&& j % (BLOCK_SIZE as int) < r[b].1@.len()
            &&& r[b].1@[j % (BLOCK_SIZE as int)] == data[j]
        }),
        0 <= i < r.len() ==> run_first <= r[i].0 <= run_last && 0 < r[i].1@.len() <= BLOCK_SIZE,
{
    let b = j / (BLOCK_SIZE as int);
    assert(b <= run_last - run_first);
    assert(0 <= b < r.len());
    assert(r[b].0 == run_first + b);
    assert(j == b * BLOCK_SIZE + j % (BLOCK_SIZE as int));
}

} // verus!
