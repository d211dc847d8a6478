//! Writing and resizing files, and keeping their blocks.

use vstd::prelude::*;

use super::{failure, FileHandle, OpenFile, OpenView, Vfs, VfsView};
use crate::blocks::{readahead_range, READAHEAD_BLOCKS};
use crate::cache::{FileKey, MetaFile, BLOCK_LIMIT};
use crate::drafts::{fresh_meta, DraftMeta, DraftState, DraftView};
use crate::error::VfsError;
use crate::text::{concat, decimal};

verus! {

/// The state after the draft that `meta` records began.
pub open spec fn draft_begun(v: VfsView, meta: DraftMeta) -> VfsView {
    VfsView {
        drafts: v.drafts.insert(
            crate::drafts::path_hash(meta.remote_path@),
            (DraftView {
                remote_path: meta.remote_path@,
                base_etag: meta.base_etag@,
                size: meta.size,
                state: meta.state,
                last_write_unix: meta.last_write_unix,
                stamp: v.draft_clock,
            }),
        ),
        draft_clock: (v.draft_clock + 1) as u64,
        ..v
    }
}

impl Vfs {
    /// Begins the draft that was put on disk, in place of one that the path may have had.
    pub fn begin_draft(&mut self, meta: &DraftMeta)
        requires
            old(self).wf(),
            old(self)@.draft_clock < u64::MAX,
        ensures
            final(self).wf(),
            final(self)@ == draft_begun(old(self)@, *meta),
    {
        self.drafts.begin(meta);
        assert(self@ =~= draft_begun(old(self)@, *meta));
    }
}

// ---------------------------------------------------------------------------
// Writing and resizing.
// ---------------------------------------------------------------------------

/// A file whose whole content is to be copied before a change to part of it.
#[derive(Debug)]
pub struct Source {
    pub key: FileKey,
    pub size: u64,
    pub download_url: Option<String>,
}

/// What a write needs.
#[derive(Debug)]
pub enum WritePlan {
    /// The draft is there: its bytes are written in place.
    Ready { remote_path: String, data_path: String },
    /// There is no draft. It starts as a copy of the file, so that what is not written stays.
    Materialize(Source),
}

/// What a resize needs.
#[derive(Debug)]
pub enum TruncatePlan {
    /// The draft is there: its data file is resized.
    Ready { remote_path: String, data_path: String },
    /// There is no draft, and nothing of the file is to stay: the draft starts empty, nothing is copied,
    /// and that is all.
    Empty(DraftMeta),
    /// As for a write.
    Materialize(Source),
}

/// Whether `s` is the file that handle `f` is open on.
pub open spec fn is_source(s: Source, f: OpenView) -> bool {
    &&& s.key.remote_path@ == f.remote_path
    &&& s.key.etag@ == f.etag
    &&& s.size == f.size
    &&& crate::writeback::opt_text(s.download_url) == f.download_url
}

impl Source {
    fn of(f: &OpenFile) -> (r: Self)
        ensures
            is_source(r, f@),
    {
        Source {
            key: f.key.clone(),
            size: f.size,
            download_url: match &f.download_url {
                Some(url) => Some(url.clone()),
                None => None,
            },
        }
    }
}

impl Source {
    /// What is recorded of the draft that starts as a copy of the file, of which `copied` bytes were
    /// there: a change of the version that the handle was opened at.
    pub fn draft_meta(&self, copied: u64, now: i64) -> (r: DraftMeta)
        ensures
            is_draft_of(r, *self, copied, now),
    {
        fresh_meta(self.key.remote_path.as_str(), self.key.etag.as_str(), copied, now)
    }
}

impl OpenFile {
    /// The URL to fetch bytes from.
    pub fn url_to_fetch(&self) -> (r: Result<String, VfsError>)
        ensures
            match r {
                Ok(url) => self@.download_url == Some(url@),
                Err(e) => self@.download_url is None && super::says(
                    e,
                    "attempted a ranged fetch on a handle with no download url — drafted/local-only reads must never reach this path (see `download_url`'s field doc)"@,
                ),
            },
    {
        match &self.download_url {
            Some(url) => Ok(url.clone()),
            None => Err(
                failure(
                    "attempted a ranged fetch on a handle with no download url — drafted/local-only reads must never reach this path (see `download_url`'s field doc)",
                ),
            ),
        }
    }
}

impl Vfs {
    /// Writes to a file, first step: what is needed before bytes can be written.
    pub fn write(&self, h: FileHandle) -> (r: Result<WritePlan, VfsError>)
        requires
            self.wf(),
        ensures
            write_answers(self@, h.0, r),
    {
        match self.open_files.get(&h.0) {
            Some(f) => match self.drafts.data_path(f.key.remote_path.as_str()) {
                Some(data_path) => Ok(
                    WritePlan::Ready { remote_path: f.key.remote_path.clone(), data_path },
                ),
                None => Ok(WritePlan::Materialize(Source::of(f))),
            },
            None => Err(failure("read: file handle is not open")),
        }
    }

    /// Resizes a file, first step: what is needed before it can be resized to `size`.
    pub fn truncate(&self, h: FileHandle, size: u64, now: i64) -> (r: Result<TruncatePlan, VfsError>)
        requires
            self.wf(),
        ensures
            truncate_answers(self@, h.0, size, now, r),
    {
        match self.open_files.get(&h.0) {
            Some(f) => match self.drafts.data_path(f.key.remote_path.as_str()) {
                Some(data_path) => Ok(
                    TruncatePlan::Ready { remote_path: f.key.remote_path.clone(), data_path },
                ),
                None => if size == 0 {
                    Ok(
                        TruncatePlan::Empty(
                            fresh_meta(
                                f.key.remote_path.as_str(),
                                f.key.etag.as_str(),
                                0,
                                now,
                            ),
                        ),
                    )
                } else {
                    Ok(TruncatePlan::Materialize(Source::of(f)))
                },
            },
            None => Err(failure("read: file handle is not open")),
        }
    }

    /// Name of a new temporary file for a copy that a draft starts from. No name is handed out twice.
    pub fn temp_name(&mut self) -> (r: String)
        requires
            old(self).wf(),
            old(self)@.next_tmp < u64::MAX,
        ensures
            final(self).wf(),
            temp_named(old(self)@, r@, final(self)@),
    {
        let n: u64 = self.next_tmp;
        self.next_tmp = n + 1;
        proof {
            assert(self@ =~= (VfsView { next_tmp: (n + 1) as u64, ..old(self)@ }));
            self.keep_handles(*old(self));
        }
        concat("materialize-", decimal(n).as_str())
    }

    /// Writes to a file, last step, once the bytes are in the draft's data file. The result is what is to
    /// be recorded of the draft.
    pub fn finish_write(&mut self, remote_path: &str, offset: u64, len: u64, now: i64) -> (r: Result<
        DraftMeta,
        VfsError,
    >)
        requires
            old(self).wf(),
            old(self)@.draft_clock < u64::MAX,
            offset + len <= u64::MAX,
        ensures
            final(self).wf(),
            write_finished(old(self)@, remote_path@, offset, len, now, r, final(self)@),
    {
        let r = self.drafts.write(remote_path, offset, len, now);
        proof {
            assert(self@ =~= (VfsView {
                drafts: self@.drafts,
                draft_clock: self@.draft_clock,
                ..old(self)@
            }));
            self.keep_handles(*old(self));
        }
        r
    }

    /// Resizes a file, last step, once the draft's data file has the new size. The result is what is to be
    /// recorded of the draft.
    pub fn finish_truncate(&mut self, remote_path: &str, size: u64, now: i64) -> (r: Result<
        DraftMeta,
        VfsError,
    >)
        requires
            old(self).wf(),
            old(self)@.draft_clock < u64::MAX,
        ensures
            final(self).wf(),
            truncate_finished(old(self)@, remote_path@, size, now, r, final(self)@),
    {
        let r = self.drafts.truncate(remote_path, size, now);
        proof {
            assert(self@ =~= (VfsView {
                drafts: self@.drafts,
                draft_clock: self@.draft_clock,
                ..old(self)@
            }));
            self.keep_handles(*old(self));
        }
        r
    }

    /// Sets the state of a draft. The result is what is to be recorded of it.
    pub fn set_draft_state_for_tests(&mut self, remote_path: &str, state: DraftState) -> (r: Result<
        DraftMeta,
        VfsError,
    >)
        requires
            old(self).wf(),
        ensures
            final(self).wf(),
            r is Ok <==> old(self)@.has_draft(remote_path@),
            match r {
                Ok(meta) => {
                    let d = DraftView { state, ..old(self)@.draft(remote_path@) };
                    &&& crate::drafts::records(meta, d)
                    &&& final(self)@ == old(self)@.with_draft(remote_path@, d)
                },
                Err(e) => final(self)@ == old(self)@ && crate::drafts::says_no_draft(
                    e,
                    remote_path@,
                ),
            },
    {
        let r = self.drafts.set_state(remote_path, state);
        proof {
            assert(self@ =~= (VfsView { drafts: self@.drafts, ..old(self)@ }));
            self.keep_handles(*old(self));
        }
        r
    }
}

// ---------------------------------------------------------------------------
// Blocks.
// ---------------------------------------------------------------------------

impl Vfs {
    /// Notes how a read of a cached block ended (see [`crate::cache::BlockCache::finish_read`]).
    pub fn finish_block_read(&mut self, key: &FileKey, block_idx: u64, complete: bool, now: i64) -> (r:
        Option<MetaFile>)
        requires
            old(self).wf(),
            old(self)@.cache_clock < u64::MAX,
        ensures
            final(self).wf(),
            block_read_finished(old(self)@, *key, block_idx, complete, now, r, final(self)@),
    {
        let r = self.cache.finish_read(key, block_idx, complete, now);
        assert(self@ =~= (VfsView {
            cached: self@.cached,
            cache_clock: self@.cache_clock,
            ..old(self)@
        }));
        proof {
            self.keep_handles(*old(self));
        }
        r
    }

    /// Notes how long a data file of the cache is on disk (see
    /// [`crate::cache::BlockCache::note_data_len`]).
    pub fn note_data_len(&mut self, hash: &str, data_len: u64)
        requires
            old(self).wf(),
        ensures
            final(self).wf(),
            final(self)@ == (VfsView {
                cached: crate::cache::measured(old(self)@.cached, hash@, data_len),
                ..old(self)@
            }),
    {
        self.cache.note_data_len(hash, data_len);
        proof {
            assert(self@ =~= (VfsView { cached: self@.cached, ..old(self)@ }));
            self.keep_handles(*old(self));
        }
    }

    /// Notes that a block was written to the cache (see [`crate::cache::BlockCache::write_block`]).
    pub fn block_written(&mut self, key: &FileKey, block_idx: u64, file_len: u64, now: i64) -> (r:
        MetaFile)
        requires
            old(self).wf(),
            old(self)@.cache_clock < u64::MAX,
            block_idx < BLOCK_LIMIT,
        ensures
            final(self).wf(),
            block_recorded(old(self)@, *key, block_idx, file_len, now, r, final(self)@),
    {
        let r = self.cache.write_block(key, block_idx, file_len, now);
        assert(self@ =~= (VfsView {
            cached: self@.cached,
            cache_clock: self@.cache_clock,
            ..old(self)@
        }));
        proof {
            self.keep_handles(*old(self));
        }
        r
    }

    /// Evicts what is over budget and not in use (see
    /// [`crate::cache::BlockCache::evict_if_over_budget`]).
    pub fn evict_if_over_budget(&mut self) -> (r: Vec<String>)
        requires
            old(self).wf(),
        ensures
            final(self).wf(),
            final(self)@ == (VfsView { cached: final(self)@.cached, ..old(self)@ }),
            crate::cache::evicts_to(
                old(self)@.cached,
                old(self)@.retains,
                old(self)@.cache_budget,
                crate::text::texts(r@),
                final(self)@.cached,
            ),
    {
        let r = self.cache.evict_if_over_budget();
        assert(self@ =~= (VfsView { cached: self@.cached, ..old(self)@ }));
        proof {
            self.keep_handles(*old(self));
        }
        r
    }

    /// Being in order rests on the open handles and their counts alone, as far as the cache goes.
    pub(crate) proof fn keep_handles(&self, before: Vfs)
        requires
            before.wf(),
            self@.open == before@.open,
            self@.retains == before@.retains,
        ensures
            super::handles_retained(self@),
    {
        before.lemma_wf();
        assert forall|k: Seq<char>| super::open_count(self@.open, k) > 0 implies #[trigger] self@.retains.contains_key(
            k,
        ) && super::open_count(self@.open, k) <= self@.retains[k] by {
            assert(before@.retains.contains_key(k));
        }
    }

    /// Plans a fetch in advance after a read that ended in `last_block`: the blocks to fetch, or nothing
    /// where the file ends there or such a fetch is under way for the path.
    pub fn plan_readahead(&mut self, remote_path: &str, size: u64, last_block: u64) -> (r: Option<
        (u64, u64),
    >)
        requires
            old(self).wf(),
            size > 0,
        ensures
            final(self).wf(),
            readahead_planned(old(self)@, remote_path@, size, last_block, r, final(self)@),
    {
        match readahead_range(size, last_block) {
            Some(range) => {
                if self.readahead.contains_key(&remote_path.to_owned()) {
                    return None;
                }
                let ghost before = self.readahead@;
                self.readahead.insert(remote_path.to_owned(), ());
                proof {
                    assert(self.readahead@.dom() =~= before.dom().insert(remote_path@));
                    assert(self@ =~= (VfsView {
                        readahead: old(self)@.readahead.insert(remote_path@),
                        ..old(self)@
                    }));
                    self.keep_handles(*old(self));
                }
                Some(range)
            },
            None => None,
        }
    }

    /// Notes that a fetch in advance ended.
    pub fn end_readahead(&mut self, remote_path: &str)
        requires
            old(self).wf(),
        ensures
            final(self).wf(),
            readahead_ended(old(self)@, remote_path@, final(self)@),
    {
        let ghost before = self.readahead@;
        let was = self.readahead.remove(&remote_path.to_owned());
        proof {
            assert(self.readahead@.dom() =~= before.dom().remove(remote_path@));
            assert(self@ =~= (VfsView {
                readahead: old(self)@.readahead.remove(remote_path@),
                ..old(self)@
            }));
            self.keep_handles(*old(self));
        }
    }
}

/// Whether the first step of a write through handle `h` answers `r`.
pub open spec fn write_answers(
    v: VfsView,
    h: u64,
    r: Result<WritePlan, VfsError>,
) -> bool {
    match r {
        Ok(WritePlan::Ready { remote_path, data_path }) => {
            let f = v.open[h];
            &&& v.open.contains_key(h)
            &&& v.has_draft(f.remote_path)
            &&& remote_path@ == f.remote_path
            &&& data_path@ == super::handles::draft_data_path(v, f.remote_path)
        },
        Ok(WritePlan::Materialize(s)) => {
            &&& v.open.contains_key(h)
            &&& !v.has_draft(v.open[h].remote_path)
            &&& is_source(s, v.open[h])
        },
        Err(e) => !v.open.contains_key(h) && super::says(
            e,
            "read: file handle is not open"@,
        ),
    }
}

/// Whether the first step of resizing a file to `size` through handle `h` answers `r`.
pub open spec fn truncate_answers(
    v: VfsView,
    h: u64,
    size: u64,
    now: i64,
    r: Result<TruncatePlan, VfsError>,
) -> bool {
    match r {
        Ok(TruncatePlan::Ready { remote_path, data_path }) => {
            let f = v.open[h];
            &&& v.open.contains_key(h)
            &&& v.has_draft(f.remote_path)
            &&& remote_path@ == f.remote_path
            &&& data_path@ == super::handles::draft_data_path(v, f.remote_path)
        },
        Ok(TruncatePlan::Empty(meta)) => {
            let f = v.open[h];
            &&& v.open.contains_key(h)
            &&& !v.has_draft(f.remote_path)
            &&& size == 0
            &&& meta.remote_path@ == f.remote_path
            &&& meta.base_etag@ == f.etag
            &&& meta.size == 0
            &&& meta.state == DraftState::Editing
            &&& meta.last_write_unix == now
        },
        Ok(TruncatePlan::Materialize(s)) => {
            &&& v.open.contains_key(h)
            &&& !v.has_draft(v.open[h].remote_path)
            &&& size > 0
            &&& is_source(s, v.open[h])
        },
        Err(e) => !v.open.contains_key(h) && super::says(
            e,
            "read: file handle is not open"@,
        ),
    }
}

/// Whether the last step of a write of `len` bytes at `offset` answers `r` and leads from `v` to `w`.
pub open spec fn write_finished(
    v: VfsView,
    remote_path: Seq<char>,
    offset: u64,
    len: u64,
    now: i64,
    r: Result<DraftMeta, VfsError>,
    w: VfsView,
) -> bool {
    &&& r is Ok <==> v.has_draft(remote_path)
    &&& match r {
        Ok(meta) => {
            let d = v.draft(remote_path);
            let e = crate::drafts::edited(
                d,
                crate::drafts::size_after_write(d.size, offset, len as int) as u64,
                now,
                v.draft_clock,
            );
            &&& crate::drafts::records(meta, e)
            &&& w == (VfsView {
                draft_clock: (v.draft_clock + 1) as u64,
                ..v.with_draft(remote_path, e)
            })
        },
        Err(e) => w == v && crate::drafts::says_no_draft(
            e,
            remote_path,
        ),
    }
}

/// Whether the last step of resizing a file to `size` answers `r` and leads from `v` to `w`.
pub open spec fn truncate_finished(
    v: VfsView,
    remote_path: Seq<char>,
    size: u64,
    now: i64,
    r: Result<DraftMeta, VfsError>,
    w: VfsView,
) -> bool {
    &&& r is Ok <==> v.has_draft(remote_path)
    &&& match r {
        Ok(meta) => {
            let e = crate::drafts::edited(
                v.draft(remote_path),
                size,
                now,
                v.draft_clock,
            );
            &&& crate::drafts::records(meta, e)
            &&& w == (VfsView {
                draft_clock: (v.draft_clock + 1) as u64,
                ..v.with_draft(remote_path, e)
            })
        },
        Err(e) => w == v && crate::drafts::says_no_draft(
            e,
            remote_path,
        ),
    }
}

/// Whether a fetch in advance after a read that ended in `last_block` is planned as `r` tells, from `v` to
/// `w`.
pub open spec fn readahead_planned(
    v: VfsView,
    remote_path: Seq<char>,
    size: u64,
    last_block: u64,
    r: Option<(u64, u64)>,
    w: VfsView,
) -> bool {
    &&& r is Some <==> last_block < (size - 1) as int / crate::cache::BLOCK_SIZE as int
        && !v.readahead.contains(remote_path)
    &&& r matches Some(b) ==> {
        let last = (size - 1) as int / crate::cache::BLOCK_SIZE as int;
        &&& b.0 == last_block + 1
        &&& b.1 == (if last_block + READAHEAD_BLOCKS < last {
            last_block + READAHEAD_BLOCKS
        } else {
            last
        })
    }
    &&& w == (if r is Some {
        VfsView {
            readahead: v.readahead.insert(remote_path),
            ..v
        }
    } else {
        v
    })
}

/// Whether a name for a temporary file is handed out as `r`, from `v` to `w`.
pub open spec fn temp_named(
    v: VfsView,
    r: Seq<char>,
    w: VfsView,
) -> bool {
    &&& r == "materialize-"@ + crate::text::dec(v.next_tmp as nat)
    &&& w == (VfsView { next_tmp: (v.next_tmp + 1) as u64, ..v })
}

/// Whether the end of a read of a block answers `r` and leads from `v` to `w`.
pub open spec fn block_read_finished(
    v: VfsView,
    key: FileKey,
    block_idx: u64,
    complete: bool,
    now: i64,
    r: Option<MetaFile>,
    w: VfsView,
) -> bool {
    &&& w == (VfsView {
        cached: w.cached,
        cache_clock: w.cache_clock,
        ..v
    })
    &&& complete ==> r is None && w.cache_clock == v.cache_clock + 1
        && w.cached == crate::cache::touched(
        v.cached,
        key.hash(),
        v.cache_clock,
        now,
    )
    &&& !complete ==> w.cache_clock == v.cache_clock
        && crate::cache::block_dropped(
        v.cached,
        key.hash(),
        block_idx,
        w.cached,
        r,
    )
}

/// Whether a block that was written is recorded as `r` tells, from `v` to `w`.
pub open spec fn block_recorded(
    v: VfsView,
    key: FileKey,
    block_idx: u64,
    file_len: u64,
    now: i64,
    r: MetaFile,
    w: VfsView,
) -> bool {
    &&& w == (VfsView {
        cached: v.cached.insert(key.hash(), w.cached[key.hash()]),
        cache_clock: (v.cache_clock + 1) as u64,
        ..v
    })
    &&& crate::cache::entry_written(
        crate::cache::lookup_entry(v.cached, key.hash()),
        key,
        block_idx,
        file_len,
        now,
        v.cache_clock,
        w.cached[key.hash()],
    )
    &&& crate::cache::meta_of(w.cached[key.hash()], r)
}

/// Whether the end of a fetch in advance leads from `v` to `w`.
pub open spec fn readahead_ended(
    v: VfsView,
    remote_path: Seq<char>,
    w: VfsView,
) -> bool {
    w == (VfsView {
        readahead: v.readahead.remove(remote_path),
        ..v
    })
}

/// Whether `meta` is recorded of a draft that starts as a copy of `source`, of which `copied` bytes were
/// there.
pub open spec fn is_draft_of(meta: DraftMeta, source: Source, copied: u64, now: i64) -> bool {
    &&& meta.remote_path@ == source.key.remote_path@
    &&& meta.base_etag@ == source.key.etag@
    &&& meta.size == copied
    &&& meta.state == DraftState::Editing
    &&& meta.last_write_unix == now
}

} // verus!
