//! Reading a remote file by blocks: which blocks a read needs, which of them are missing, which bytes
//! are fetched for them, and how the bytes are put together.

use vstd::prelude::*;

use crate::cache::{FileKey, BLOCK_LIMIT, BLOCK_SIZE};
use crate::text::{concat, decimal};

verus! {

/// How many blocks past the end of a read are fetched in advance.
pub const READAHEAD_BLOCKS: u64 = 4;

/// How often one ranged request is tried.
pub const FETCH_RETRIES: u32 = 3;

/// Wait before the first repetition, in milliseconds.
pub const FETCH_FIRST_BACKOFF_MILLIS: u64 = 100;

/// Wait before the second repetition, in milliseconds.
pub const FETCH_SECOND_BACKOFF_MILLIS: u64 = 500;

/// How many bytes of a file are copied into a draft at a time.
pub const MATERIALIZE_CHUNK: u32 = 8_388_608;

// ---------------------------------------------------------------------------
// Which blocks are missing.
// ---------------------------------------------------------------------------

/// Whether block `b` is among those that `present` describes, and absent.
pub open spec fn is_absent(first_block: u64, present: Seq<bool>, b: int) -> bool {
    first_block <= b < first_block + present.len() && !present[b - first_block]
}

/// Whether `b` lies in `run`, ends included.
pub open spec fn in_run(run: (u64, u64), b: int) -> bool {
    run.0 <= b <= run.1
}

/// Whether `runs` are the runs of absent blocks: each holds absent blocks alone, all absent blocks lie
/// in them, and they ascend with a present block between any two.
pub open spec fn are_missing_runs(
    first_block: u64,
    present: Seq<bool>,
    runs: Seq<(u64, u64)>,
) -> bool {
    &&& forall|i: int| 0 <= i < runs.len() ==> (#[trigger] runs[i]).0 <= runs[i].1
    &&& forall|i: int, b: int|
        0 <= i < runs.len() && #[trigger] in_run(runs[i], b) ==> is_absent(first_block, present, b)
    &&& forall|b: int| #[trigger]
        is_absent(first_block, present, b) ==> exists|i: int|
            0 <= i < runs.len() && #[trigger] in_run(runs[i], b)
    &&& forall|i: int, j: int|
        0 <= i < j < runs.len() ==> (#[trigger] runs[i]).1 + 1 < (#[trigger] runs[j]).0
}

/// Groups the absent blocks into runs. `present[i]` tells of block `first_block + i`; a run is its first
/// and its last block.
pub fn missing_runs(first_block: u64, present: &[bool]) -> (r: Vec<(u64, u64)>)
    requires
        first_block + present@.len() <= u64::MAX,
    ensures
        are_missing_runs(first_block, present@, r@),
{
    let mut runs: Vec<(u64, u64)> = Vec::new();
    let mut run_start: Option<u64> = None;
    let mut i: usize = 0;
    while i < present.len()
        invariant
            first_block + present@.len() <= u64::MAX,
            i <= present@.len(),
            forall|k: int| 0 <= k < runs@.len() ==> (#[trigger] runs@[k]).0 <= runs@[k].1,
            forall|k: int, b: int|
                0 <= k < runs@.len() && #[trigger] in_run(runs@[k], b) ==> is_absent(
                    first_block,
                    present@,
                    b,
                ) && b + 1 < first_block + i,
            forall|k: int, j: int|
                0 <= k < j < runs@.len() ==> (#[trigger] runs@[k]).1 + 1 < (#[trigger] runs@[j]).0,
            forall|k: int| 0 <= k < runs@.len() ==> (#[trigger] runs@[k]).1 + 1 < first_block + i,
            match run_start {
                None => {
                    &&& i > 0 ==> present@[i - 1]
                    &&& forall|b: int| #[trigger]
                        is_absent(first_block, present@, b) && b < first_block + i ==> exists|k: int|
                            0 <= k < runs@.len() && #[trigger] in_run(runs@[k], b)
                },
                Some(s) => {
                    &&& first_block <= s < first_block + i
                    &&& forall|b: int| s <= b < first_block + i ==> #[trigger] is_absent(first_block, present@, b)
                    &&& forall|k: int| 0 <= k < runs@.len() ==> (#[trigger] runs@[k]).1 + 1 < s
                    &&& forall|b: int| #[trigger]
                        is_absent(first_block, present@, b) && b < s ==> exists|k: int|
                            0 <= k < runs@.len() && #[trigger] in_run(runs@[k], b)
                },
            },
        decreases present@.len() - i,
    {
        let b: u64 = first_block + i as u64;
        let ghost before = runs@;
        if present[i] {
            match run_start {
                Some(s) => {
                    runs.push((s, b - 1));
                    run_start = None;
                    proof {
                        assert forall|q: int| #[trigger]
                            is_absent(first_block, present@, q) && q < first_block + i + 1 implies exists|
                            k: int,
                        | 0 <= k < runs@.len() && #[trigger] in_run(runs@[k], q) by {
                            if q < s {
                                let k = choose|k: int|
                                    0 <= k < before.len() && #[trigger] in_run(before[k], q);
                                assert(runs@[k] == before[k]);
                            } else {
                                assert(in_run(runs@[before.len() as int], q));
                            }
                        }
                        assert forall|k: int, q: int|
                            0 <= k < runs@.len() && #[trigger] in_run(runs@[k], q) implies is_absent(
                            first_block,
                            present@,
                            q,
                        ) && q + 1 < first_block + i + 1 by {
                            if k < before.len() {
                                assert(in_run(before[k], q));
                            } else {
                                assert(is_absent(first_block, present@, q));
                            }
                        }
                    }
                },
                None => {},
            }
        } else if run_start.is_none() {
            run_start = Some(b);
        }
        i = i + 1;
    }
    let ghost before = runs@;
    match run_start {
        Some(s) => {
            runs.push((s, first_block + (present.len() as u64 - 1)));
            proof {
                assert forall|q: int| #[trigger] is_absent(first_block, present@, q) implies exists|k: int|
                    0 <= k < runs@.len() && #[trigger] in_run(runs@[k], q) by {
                    if q < s {
                        let k = choose|k: int| 0 <= k < before.len() && #[trigger] in_run(before[k], q);
                        assert(runs@[k] == before[k]);
                    } else {
                        assert(in_run(runs@[before.len() as int], q));
                    }
                }
                assert forall|k: int, q: int|
                    0 <= k < runs@.len() && #[trigger] in_run(runs@[k], q) implies is_absent(
                    first_block,
                    present@,
                    q,
                ) by {
                    if k < before.len() {
                        assert(in_run(before[k], q));
                    } else {
                        assert(is_absent(first_block, present@, q));
                    }
                }
            }
        },
        None => {},
    }
    runs
}

// ---------------------------------------------------------------------------
// Which blocks a read needs.
// ---------------------------------------------------------------------------

/// What a read of a remote file needs.
#[derive(Debug, Clone, Copy, PartialEq, Eq, Structural)]
pub struct BlockRange {
    /// Bytes that the read gets: no more than there are.
    pub len: u64,
    pub first_block: u64,
    pub last_block: u64,
}

/// Whether `r` is what a read of `len` bytes at `offset` of a file of `size` bytes needs.
pub open spec fn is_block_range(r: Option<BlockRange>, size: u64, offset: u64, len: u32) -> bool {
    &&& r is None <==> offset >= size || len == 0
    &&& r matches Some(b) ==> {
        &&& b.len == (if len as int > size - offset {
            size - offset
        } else {
            len as int
        })
        &&& b.first_block == offset / BLOCK_SIZE
        &&& b.last_block == (offset + b.len - 1) as int / BLOCK_SIZE as int
        &&& b.first_block <= b.last_block <= BLOCK_LIMIT
    }
}

/// The blocks that hold the bytes of a read. `None` where it gets nothing: it starts at or past the end,
/// or asks for nothing.
pub fn block_range(size: u64, offset: u64, len: u32) -> (r: Option<BlockRange>)
    ensures
        is_block_range(r, size, offset, len),
{
    if offset >= size || len == 0 {
        return None;
    }
    let n: u64 = if len as u64 > size - offset {
        size - offset
    } else {
        len as u64
    };
    Some(
        BlockRange {
            len: n,
            first_block: offset / BLOCK_SIZE,
            last_block: (offset + n - 1) / BLOCK_SIZE,
        },
    )
}

// ---------------------------------------------------------------------------
// Putting a read together.
// ---------------------------------------------------------------------------

/// The smaller of two numbers.
pub open spec fn min_int(a: int, b: int) -> int {
    if a < b {
        a
    } else {
        b
    }
}

/// The greater of two numbers.
pub open spec fn max_int(a: int, b: int) -> int {
    if a > b {
        a
    } else {
        b
    }
}

/// What block `b` contributes to the bytes from `offset` to `offset + len`.
pub open spec fn piece(block: Seq<u8>, b: int, offset: int, len: int) -> Seq<u8> {
    let start = b * BLOCK_SIZE;
    let from = min_int(max_int(offset, start) - start, block.len() as int);
    let to = min_int(min_int(offset + len, start + BLOCK_SIZE) - start, block.len() as int);
    if from < to {
        block.subrange(from, to)
    } else {
        Seq::empty()
    }
}

/// The bytes of a block; a block that could not be had counts as empty.
pub open spec fn block_bytes(block: Option<Vec<u8>>) -> Seq<u8> {
    match block {
        Some(v) => v@,
        None => Seq::empty(),
    }
}

/// What the first `n` blocks contribute, in a row.
pub open spec fn assembled(
    blocks: Seq<Option<Vec<u8>>>,
    first_block: u64,
    offset: u64,
    len: u64,
    n: int,
) -> Seq<u8>
    decreases n,
{
    if n <= 0 {
        Seq::empty()
    } else {
        assembled(blocks, first_block, offset, len, n - 1) + piece(
            block_bytes(blocks[n - 1]),
            first_block + n - 1,
            offset as int,
            len as int,
        )
    }
}

fn push_range(out: &mut Vec<u8>, from: &Vec<u8>, start: usize, end: usize)
    requires
        start <= end <= from@.len(),
    ensures
        final(out)@ == old(out)@ + from@.subrange(start as int, end as int),
{
    let ghost before = out@;
    let mut i: usize = start;
    while i < end
        invariant
            start <= i <= end <= from@.len(),
            out@ == before + from@.subrange(start as int, i as int),
        decreases end - i,
    {
        out.push(from[i]);
        assert(out@ =~= before + from@.subrange(start as int, i + 1));
        i = i + 1;
    }
}

/// Cuts the requested bytes out of the blocks that hold them and puts them together.
pub fn assemble(blocks: &Vec<Option<Vec<u8>>>, first_block: u64, offset: u64, len: u64) -> (r: Vec<u8>)
    requires
        offset + len <= u64::MAX,
        first_block + blocks@.len() <= BLOCK_LIMIT + 1,
    ensures
        r@ == assembled(blocks@, first_block, offset, len, blocks@.len() as int),
{
    let mut out: Vec<u8> = Vec::new();
    let mut idx: usize = 0;
    while idx < blocks.len()
        invariant
            offset + len <= u64::MAX,
            first_block + blocks@.len() <= BLOCK_LIMIT + 1,
            idx <= blocks@.len(),
            out@ == assembled(blocks@, first_block, offset, len, idx as int),
        decreases blocks@.len() - idx,
    {
        let b: u64 = first_block + idx as u64;
        let start: u64 = b * BLOCK_SIZE;
        let ghost before = out@;
        match &blocks[idx] {
            Some(block) => {
                let n: u64 = block.len() as u64;
                let lo: u64 = if offset > start {
                    offset - start
                } else {
                    0
                };
                let end: u64 = offset + len;
                let hi: u64 = if end <= start {
                    0
                } else if end - start < BLOCK_SIZE {
                    end - start
                } else {
                    BLOCK_SIZE
                };
                let from: u64 = if lo < n {
                    lo
                } else {
                    n
                };
                let to: u64 = if hi < n {
                    hi
                } else {
                    n
                };
                if from < to {
                    push_range(&mut out, block, from as usize, to as usize);
                }
            },
            None => {},
        }
        proof {
            let p = piece(block_bytes(blocks@[idx as int]), b as int, offset as int, len as int);
            assert(out@ =~= before + p);
        }
        idx = idx + 1;
    }
    out
}

/// Whether `block` is block `b` of `content`.
pub open spec fn is_block_of(block: Seq<u8>, content: Seq<u8>, b: int) -> bool {
    let start = b * BLOCK_SIZE;
    block == crate::datafile::read_from(content, start, BLOCK_SIZE as int)
}

/// A read returns exactly the bytes that it asked for: put together from the blocks of a file, they are
/// the file's bytes at that place.
pub proof fn assembly_is_exact(
    content: Seq<u8>,
    blocks: Seq<Option<Vec<u8>>>,
    first_block: u64,
    offset: u64,
    len: u64,
)
    requires
        len > 0,
        offset + len <= content.len(),
        first_block == offset / BLOCK_SIZE,
        first_block + blocks.len() - 1 == (offset + len - 1) as int / BLOCK_SIZE as int,
        forall|i: int|
            0 <= i < blocks.len() ==> is_block_of(
                block_bytes(#[trigger] blocks[i]),
                content,
                first_block + i,
            ),
    ensures
        assembled(blocks, first_block, offset, len, blocks.len() as int) == content.subrange(
            offset as int,
            offset + len,
        ),
{
    lemma_assembled(content, blocks, first_block, offset, len, blocks.len() as int);
}

proof fn lemma_assembled(
    content: Seq<u8>,
    blocks: Seq<Option<Vec<u8>>>,
    first_block: u64,
    offset: u64,
    len: u64,
    n: int,
)
    requires
        len > 0,
        offset + len <= content.len(),
        first_block == offset / BLOCK_SIZE,
        first_block + blocks.len() - 1 == (offset + len - 1) as int / BLOCK_SIZE as int,
        forall|i: int|
            0 <= i < blocks.len() ==> is_block_of(
                block_bytes(#[trigger] blocks[i]),
                content,
                first_block + i,
            ),
        0 <= n <= blocks.len(),
    ensures
        assembled(blocks, first_block, offset, len, n) == content.subrange(
            offset as int,
            max_int(
                offset as int,
                min_int(offset + len, (first_block + n) * BLOCK_SIZE),
            ),
        ),
    decreases n,
{
    if n > 0 {
        lemma_assembled(content, blocks, first_block, offset, len, n - 1);
        let b = first_block + n - 1;
        assert(is_block_of(block_bytes(blocks[n - 1]), content, first_block + (n - 1)));
        let p = piece(block_bytes(blocks[n - 1]), b, offset as int, len as int);
        let lo = max_int(
            offset as int,
            min_int(offset + len, (first_block + n - 1) * BLOCK_SIZE),
        );
        let hi = max_int(offset as int, min_int(offset + len, (first_block + n) * BLOCK_SIZE));
        assert(p =~= content.subrange(lo, hi));
        assert(content.subrange(offset as int, lo) + content.subrange(lo, hi) =~= content.subrange(
            offset as int,
            hi,
        ));
    } else {
        assert(content.subrange(offset as int, offset as int) =~= Seq::<u8>::empty());
    }
}

// ---------------------------------------------------------------------------
// A read under way.
// ---------------------------------------------------------------------------

/// A read of a remote file under way: the blocks that it needs, as far as they could be had.
#[derive(Debug)]
pub struct BlockRead {
    offset: u64,
    range: BlockRange,
    blocks: Vec<Option<Vec<u8>>>,
}

/// Which of the blocks could be had.
pub open spec fn presence(blocks: Seq<Option<Vec<u8>>>) -> Seq<bool> {
    blocks.map_values(|b: Option<Vec<u8>>| b is Some)
}

/// Whether every block that could be had is the file's.
pub open spec fn true_to(
    blocks: Seq<Option<Vec<u8>>>,
    first_block: u64,
    content: Seq<u8>,
) -> bool {
    forall|i: int|
        0 <= i < blocks.len() && (#[trigger] blocks[i]) is Some ==> is_block_of(
            block_bytes(blocks[i]),
            content,
            first_block + i,
        )
}

impl BlockRead {
    /// The blocks, from the first that is needed to the last.
    pub closed spec fn blocks(&self) -> Seq<Option<Vec<u8>>> {
        self.blocks@
    }

    /// Which bytes are read, and which blocks hold them.
    pub closed spec fn place(&self) -> (u64, BlockRange) {
        (self.offset, self.range)
    }

    /// Whether there is a slot for each block that is needed.
    pub closed spec fn wf(&self) -> bool {
        &&& self.range.len > 0
        &&& self.offset + self.range.len <= u64::MAX
        &&& self.range.first_block == self.offset / BLOCK_SIZE
        &&& self.range.last_block == (self.offset + self.range.len - 1) as int / BLOCK_SIZE as int
        &&& self.blocks@.len() == self.range.last_block - self.range.first_block + 1
    }

    /// What being in order says.
    pub proof fn lemma_wf(&self)
        requires
            self.wf(),
        ensures
            self.place().1.len > 0,
            self.place().0 + self.place().1.len <= u64::MAX,
            self.place().1.first_block == self.place().0 / BLOCK_SIZE,
            self.place().1.last_block == (self.place().0 + self.place().1.len - 1) as int
                / BLOCK_SIZE as int,
            self.blocks().len() == self.place().1.last_block - self.place().1.first_block + 1,
    {
    }

    /// Starts a read, with no block yet. `None` where it gets nothing.
    pub fn new(size: u64, offset: u64, len: u32) -> (r: Option<Self>)
        ensures
            r is None <==> offset >= size || len == 0,
            r matches Some(p) ==> {
                &&& p.wf()
                &&& p.place().0 == offset
                &&& p.place().1.len == min_int(len as int, size - offset)
                &&& forall|i: int| 0 <= i < p.blocks().len() ==> (#[trigger] p.blocks()[i]) is None
                &&& is_block_range(Some(p.place().1), size, offset, len)
            },
    {
        let range: BlockRange = match block_range(size, offset, len) {
            Some(r) => r,
            None => {
                return None;
            },
        };
        let n: u64 = range.last_block - range.first_block + 1;
        let mut blocks: Vec<Option<Vec<u8>>> = Vec::new();
        let mut i: u64 = 0;
        while i < n
            invariant
                i <= n,
                blocks@.len() == i,
                forall|j: int| 0 <= j < blocks@.len() ==> (#[trigger] blocks@[j]) is None,
            decreases n - i,
        {
            blocks.push(None);
            i = i + 1;
        }
        Some(BlockRead { offset, range, blocks })
    }

    /// First and last block that are needed.
    pub fn range(&self) -> (r: (u64, u64))
        ensures
            r.0 == self.place().1.first_block,
            r.1 == self.place().1.last_block,
    {
        (self.range.first_block, self.range.last_block)
    }

    /// Puts in what could be had of block `b`: from the cache, or from the server by way of the cache.
    pub fn put(&mut self, b: u64, block: Option<Vec<u8>>)
        requires
            old(self).wf(),
            old(self).place().1.first_block <= b <= old(self).place().1.last_block,
        ensures
            final(self).wf(),
            final(self).place() == old(self).place(),
            final(self).blocks() == old(self).blocks().update(
                b - old(self).place().1.first_block,
                block,
            ),
    {
        let i: u64 = b - self.range.first_block;
        assert(i < self.blocks.len() <= usize::MAX);
        self.blocks.set(i as usize, block);
    }

    /// The runs of blocks that are missing: each is fetched with one request.
    pub fn missing(&self) -> (r: Vec<(u64, u64)>)
        requires
            self.wf(),
        ensures
            are_missing_runs(self.place().1.first_block, presence(self.blocks()), r@),
    {
        let mut present: Vec<bool> = Vec::new();
        let mut i: usize = 0;
        while i < self.blocks.len()
            invariant
                i <= self.blocks@.len(),
                present@.len() == i,
                forall|j: int| 0 <= j < i ==> present@[j] == ((#[trigger] self.blocks@[j]) is Some),
            decreases self.blocks@.len() - i,
        {
            present.push(self.blocks[i].is_some());
            i = i + 1;
        }
        assert(present@ =~= presence(self.blocks()));
        missing_runs(self.range.first_block, present.as_slice())
    }

    /// The bytes of the read. A block that could not be had counts as empty: the server had less than
    /// was told of the file.
    pub fn bytes(&self) -> (r: Vec<u8>)
        requires
            self.wf(),
        ensures
            r@ == assembled(
                self.blocks(),
                self.place().1.first_block,
                self.place().0,
                self.place().1.len,
                self.blocks().len() as int,
            ),
    {
        assemble(&self.blocks, self.range.first_block, self.offset, self.range.len)
    }
}

/// A read of a file gets the file's bytes, cut off at its end, once every block that was missing was put
/// in: whatever the cache held of the file and however the blocks were fetched, as long as they are the
/// file's.
pub proof fn a_read_gets_the_files_bytes(read: BlockRead, content: Seq<u8>, size: u64, len: u32)
    requires
        read.wf(),
        size == content.len(),
        read.place().0 < size,
        read.place().1.len == min_int(len as int, size - read.place().0),
        true_to(read.blocks(), read.place().1.first_block, content),
        forall|b: int| !is_absent(read.place().1.first_block, presence(read.blocks()), b),
    ensures
        assembled(
            read.blocks(),
            read.place().1.first_block,
            read.place().0,
            read.place().1.len,
            read.blocks().len() as int,
        ) == crate::datafile::read_from(content, read.place().0 as int, len as int),
{
    let first = read.place().1.first_block;
    let blocks = read.blocks();
    assert forall|i: int| 0 <= i < blocks.len() implies is_block_of(
        block_bytes(#[trigger] blocks[i]),
        content,
        first + i,
    ) by {
        assert(!is_absent(first, presence(blocks), first + i));
        assert(presence(blocks)[i] == (blocks[i] is Some));
    }
    assembly_is_exact(content, blocks, first, read.place().0, read.place().1.len);
}

// ---------------------------------------------------------------------------
// Fetching a run of blocks.
// ---------------------------------------------------------------------------

/// Whether `r` is what is fetched of a file of `size` bytes for a run of blocks.
pub open spec fn is_run_bytes(
    r: Option<(u64, u64)>,
    run_first: u64,
    run_last: u64,
    size: u64,
) -> bool {
    &&& r is None <==> run_first * BLOCK_SIZE > 0 && run_first * BLOCK_SIZE >= size
    &&& r matches Some(b) ==> {
        &&& b.0 == run_first * BLOCK_SIZE
        &&& b.1 == (if (run_last + 1) * BLOCK_SIZE < size {
            (run_last + 1) * BLOCK_SIZE - 1
        } else if size > 0 {
            size - 1
        } else {
            0
        })
        &&& b.0 <= b.1
    }
}

/// First and last byte of a run of blocks, kept within the file. `None` where the run starts at or past
/// the end, so that there is nothing to fetch.
pub fn run_bytes(run_first: u64, run_last: u64, size: u64) -> (r: Option<(u64, u64)>)
    requires
        run_first <= run_last < BLOCK_LIMIT,
    ensures
        is_run_bytes(r, run_first, run_last, size),
{
    let start: u64 = run_first * BLOCK_SIZE;
    let run_end: u64 = run_last * BLOCK_SIZE + (BLOCK_SIZE - 1);
    let last: u64 = size.saturating_sub(1);
    let end: u64 = if run_end < last {
        run_end
    } else {
        last
    };
    if start > end {
        None
    } else {
        Some((start, end))
    }
}

/// How many blocks of a run `len` bytes of data fill, the last of them perhaps in part.
pub open spec fn filled_blocks(run_first: u64, run_last: u64, len: int) -> int {
    let want = run_last - run_first + 1;
    let have = (len + BLOCK_SIZE - 1) / (BLOCK_SIZE as int);
    if want < have {
        want
    } else {
        have
    }
}

/// Whether `r` are the blocks of a run that `data` fills, each with its index.
pub open spec fn is_split(
    r: Seq<(u64, Vec<u8>)>,
    data: Seq<u8>,
    run_first: u64,
    run_last: u64,
) -> bool {
    &&& r.len() == filled_blocks(run_first, run_last, data.len() as int)
    &&& forall|i: int|
        0 <= i < r.len() ==> (#[trigger] r[i]).0 == run_first + i && r[i].1@
            == crate::datafile::read_from(data, i * BLOCK_SIZE, BLOCK_SIZE as int)
}

/// Cuts the data of a run into blocks, each with its index. Where the server sent less than it was asked
/// for, the blocks past the end of the data are left out.
pub fn split_run(data: &Vec<u8>, run_first: u64, run_last: u64) -> (r: Vec<(u64, Vec<u8>)>)
    requires
        run_first <= run_last < BLOCK_LIMIT,
    ensures
        is_split(r@, data@, run_first, run_last),
{
    let mut out: Vec<(u64, Vec<u8>)> = Vec::new();
    let mut b: u64 = run_first;
    let n: u64 = data.len() as u64;
    let mut rel: u64 = 0;
    while b <= run_last && rel < n
        invariant
            run_first <= b <= run_last + 1,
            run_last < BLOCK_LIMIT,
            n == data@.len(),
            n <= usize::MAX,
            out@.len() == b - run_first,
            b > run_first ==> (b - run_first - 1) * BLOCK_SIZE < n,
            rel == (if (b - run_first) * BLOCK_SIZE < n {
                (b - run_first) * BLOCK_SIZE
            } else {
                n as int
            }),
            forall|i: int|
                0 <= i < out@.len() ==> (#[trigger] out@[i]).0 == run_first + i && out@[i].1@
                    == crate::datafile::read_from(data@, i * BLOCK_SIZE, BLOCK_SIZE as int),
        decreases run_last + 1 - b,
    {
        let end: u64 = if n - rel < BLOCK_SIZE {
            n
        } else {
            rel + BLOCK_SIZE
        };
        let mut block: Vec<u8> = Vec::new();
        push_range(&mut block, data, rel as usize, end as usize);
        assert(block@ =~= crate::datafile::read_from(data@, rel as int, BLOCK_SIZE as int));
        out.push((b, block));
        rel = end;
        b = b + 1;
    }
    out
}

/// The blocks cut from the bytes that a run of a file holds are the file's blocks, so that caching them
/// keeps the cache true to the file.
pub proof fn split_blocks_are_the_files(
    content: Seq<u8>,
    run_first: u64,
    run_last: u64,
    start: u64,
    end: u64,
    i: int,
)
    requires
        run_first <= run_last < BLOCK_LIMIT,
        start == run_first * BLOCK_SIZE,
        end == (if (run_last + 1) * BLOCK_SIZE < content.len() {
            (run_last + 1) * BLOCK_SIZE - 1
        } else {
            content.len() - 1
        }),
        start <= end,
        0 <= i < filled_blocks(run_first, run_last, end + 1 - start),
    ensures
        is_block_of(
            crate::datafile::read_from(
                content.subrange(start as int, end + 1),
                i * BLOCK_SIZE,
                BLOCK_SIZE as int,
            ),
            content,
            run_first + i,
        ),
{
    let data = content.subrange(start as int, end + 1);
    let a = crate::datafile::read_from(data, i * BLOCK_SIZE, BLOCK_SIZE as int);
    let b = crate::datafile::read_from(content, (run_first + i) * BLOCK_SIZE, BLOCK_SIZE as int);
    assert((run_first + i) * BLOCK_SIZE == run_first * BLOCK_SIZE + i * BLOCK_SIZE) by (nonlinear_arith);
    assert(a =~= b);
}

/// Whether `r` is what is fetched in advance of a file of `size` bytes after a read that ended in
/// `last_block`.
pub open spec fn is_readahead(r: Option<(u64, u64)>, size: u64, last_block: u64) -> bool {
    let last = (size - 1) as int / BLOCK_SIZE as int;
    &&& r is None <==> last_block >= last
    &&& r matches Some(b) ==> {
        &&& b.0 == last_block + 1
        &&& b.1 == (if last_block + READAHEAD_BLOCKS < last {
            last_block + READAHEAD_BLOCKS
        } else {
            last
        })
    }
}

/// The blocks to fetch in advance after a read that ended in `last_block`; none where it reached the
/// last block of the file.
pub fn readahead_range(size: u64, last_block: u64) -> (r: Option<(u64, u64)>)
    requires
        size > 0,
    ensures
        is_readahead(r, size, last_block),
{
    let last: u64 = (size - 1) / BLOCK_SIZE;
    if last_block >= last {
        return None;
    }
    let end: u64 = if last - last_block > READAHEAD_BLOCKS {
        last_block + READAHEAD_BLOCKS
    } else {
        last
    };
    Some((last_block + 1, end))
}

/// Whether `r` is how many bytes are copied next of a file of `size` bytes, with `offset` of them copied.
pub open spec fn is_next_chunk(r: Option<u32>, size: u64, offset: u64) -> bool {
    &&& r is None <==> offset >= size
    &&& r matches Some(n) ==> n > 0 && n == (if size - offset < MATERIALIZE_CHUNK {
        size - offset
    } else {
        MATERIALIZE_CHUNK as int
    })
}

/// How many bytes are copied next into a draft of a file of `size` bytes; none where all are.
pub fn materialize_chunk(size: u64, offset: u64) -> (r: Option<u32>)
    ensures
        is_next_chunk(r, size, offset),
{
    if offset >= size {
        None
    } else if size - offset < MATERIALIZE_CHUNK as u64 {
        Some((size - offset) as u32)
    } else {
        Some(MATERIALIZE_CHUNK)
    }
}

/// The value of a `Range` header for the bytes from `start` to `end`, ends included.
pub open spec fn range_value(start: u64, end: u64) -> Seq<char> {
    "bytes="@ + crate::text::dec(start as nat) + "-"@ + crate::text::dec(end as nat)
}

/// The value of a `Range` header for the bytes from `start` to `end`, ends included.
pub fn range_header(start: u64, end: u64) -> (r: String)
    ensures
        r@ == range_value(start, end),
{
    let mut s: String = concat("bytes=", decimal(start).as_str());
    s.append("-");
    s.append(decimal(end).as_str());
    s
}

/// The version that a download URL of version `etag` is asked for; none where it is not known.
pub open spec fn entity_of(etag: Seq<char>) -> Option<Seq<char>> {
    if etag.len() > 0 {
        Some(etag)
    } else {
        None
    }
}

/// The version that a download URL is asked for; none where it is not known.
pub fn url_entity(key: &FileKey) -> (r: Option<String>)
    ensures
        crate::writeback::opt_text(r) == entity_of(key.etag@),
{
    if key.etag.as_str().is_empty() {
        None
    } else {
        Some(key.etag.clone())
    }
}

// ---------------------------------------------------------------------------
// Trying again.
// ---------------------------------------------------------------------------

/// How one ranged request ended.
#[derive(Debug, Clone, Copy, PartialEq, Eq, Structural)]
pub enum FetchReply {
    /// The bytes came.
    Data,
    /// The range lies past the end of the file.
    RangeNotSatisfiable,
    /// The download URL is no longer accepted.
    Forbidden,
    /// The request failed, or the server answered something else.
    Failed,
}

/// What a status of an answer to a ranged request means.
pub open spec fn status_reply(status: u16) -> FetchReply {
    if status == 200 || status == 206 {
        FetchReply::Data
    } else if status == 416 {
        FetchReply::RangeNotSatisfiable
    } else if status == 403 {
        FetchReply::Forbidden
    } else {
        FetchReply::Failed
    }
}

/// What a status of an answer to a ranged request means.
pub fn classify_status(status: u16) -> (r: FetchReply)
    ensures
        r == status_reply(status),
{
    if status == 200 || status == 206 {
        FetchReply::Data
    } else if status == 416 {
        FetchReply::RangeNotSatisfiable
    } else if status == 403 {
        FetchReply::Forbidden
    } else {
        FetchReply::Failed
    }
}

/// What comes after one ranged request.
#[derive(Debug, Clone, Copy, PartialEq, Eq, Structural)]
pub enum FetchStep {
    /// The bytes are the result.
    UseData,
    /// The result is empty.
    UseNothing,
    /// Get a new download URL and ask again with it.
    RefreshUrl,
    /// Ask again after this many milliseconds.
    RetryAfter(u64),
    /// Fail with the failure of the last request.
    Fail,
    /// Fail: a new URL was not accepted either.
    StillForbidden,
}

/// How far the requests for one range have come.
#[derive(Debug, Clone, Copy, PartialEq, Eq, Structural)]
pub struct FetchAttempts {
    /// Requests that failed with the current URL.
    pub failed: u32,
    /// Whether the URL was renewed.
    pub refreshed: bool,
}

/// What comes after one request, and how far the requests have come then.
///
/// Failures are repeated, with a wait, until [`FETCH_RETRIES`] requests with one URL failed. A URL that
/// is no longer accepted is renewed once; that uses up none of these.
pub open spec fn after_fetch(a: FetchAttempts, reply: FetchReply) -> (FetchAttempts, FetchStep) {
    match reply {
        FetchReply::Data => (a, FetchStep::UseData),
        FetchReply::RangeNotSatisfiable => (a, FetchStep::UseNothing),
        FetchReply::Forbidden => if a.refreshed {
            (a, FetchStep::StillForbidden)
        } else {
            (FetchAttempts { failed: 0, refreshed: true }, FetchStep::RefreshUrl)
        },
        FetchReply::Failed => if a.failed + 1 >= FETCH_RETRIES {
            (a, FetchStep::Fail)
        } else {
            (
                FetchAttempts { failed: (a.failed + 1) as u32, ..a },
                FetchStep::RetryAfter(
                    if a.failed == 0 {
                        FETCH_FIRST_BACKOFF_MILLIS
                    } else {
                        FETCH_SECOND_BACKOFF_MILLIS
                    },
                ),
            )
        },
    }
}

/// How many more requests may follow at most.
pub open spec fn requests_left(a: FetchAttempts) -> int {
    (if a.refreshed {
        0
    } else {
        FETCH_RETRIES as int
    }) + (FETCH_RETRIES - a.failed)
}

impl FetchAttempts {
    /// Before the first request.
    pub fn new() -> (r: Self)
        ensures
            r == (FetchAttempts { failed: 0, refreshed: false }),
    {
        FetchAttempts { failed: 0, refreshed: false }
    }

    /// Takes in how one request ended and says what comes next (see [`after_fetch`]).
    pub fn next(&mut self, reply: FetchReply) -> (r: FetchStep)
        ensures
            (*final(self), r) == after_fetch(*old(self), reply),
    {
        match reply {
            FetchReply::Data => FetchStep::UseData,
            FetchReply::RangeNotSatisfiable => FetchStep::UseNothing,
            FetchReply::Forbidden => {
                if self.refreshed {
                    FetchStep::StillForbidden
                } else {
                    self.failed = 0;
                    self.refreshed = true;
                    FetchStep::RefreshUrl
                }
            },
            FetchReply::Failed => {
                if self.failed >= FETCH_RETRIES - 1 {
                    FetchStep::Fail
                } else {
                    let wait: u64 = if self.failed == 0 {
                        FETCH_FIRST_BACKOFF_MILLIS
                    } else {
                        FETCH_SECOND_BACKOFF_MILLIS
                    };
                    self.failed = self.failed + 1;
                    FetchStep::RetryAfter(wait)
                }
            },
        }
    }
}

/// Fetching a range ends: every step that leads to another request leaves fewer that may follow.
pub proof fn fetching_ends(a: FetchAttempts, reply: FetchReply)
    requires
        a.failed < FETCH_RETRIES,
    ensures
        ({
            let n = after_fetch(a, reply);
            &&& n.0.failed < FETCH_RETRIES
            &&& n.1 is RefreshUrl || n.1 is RetryAfter ==> 0 < requests_left(n.0) < requests_left(a)
        }),
{
}

/// A URL that is no longer accepted never uses up a repetition, and is renewed once only.
pub proof fn an_expired_url_is_renewed_once(a: FetchAttempts)
    ensures
        after_fetch(a, FetchReply::Forbidden).1 is RefreshUrl <==> !a.refreshed,
        after_fetch(a, FetchReply::Forbidden).1 is RefreshUrl ==> after_fetch(
            a,
            FetchReply::Forbidden,
        ).0 == (FetchAttempts { failed: 0, refreshed: true }),
        forall|reply: FetchReply|
            a.refreshed ==> (#[trigger] after_fetch(a, reply)).0.refreshed,
{
}

} // verus!
