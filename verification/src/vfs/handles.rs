//! Opening, reading and closing files.

use vstd::prelude::*;

use super::{failure, FileHandle, OpenFile, OpenView, Vfs, VfsView};
use crate::cache::FileKey;
use crate::drafts::{DraftMeta, DraftSpan, DraftState, DraftView};
use crate::error::{StaleHandleError, VfsError};
use crate::tree::{NodeAttr, NodeId};

verus! {

/// What is left to do before a file is open.
#[derive(Debug)]
pub struct OpenPlan {
    pub key: FileKey,
    pub size: u64,
    /// Whether a download URL is to be fetched. A file with a draft needs none: it is read from the
    /// draft, also one that the server has never seen.
    pub needs_url: bool,
}

/// Where a read gets its bytes.
#[derive(Debug)]
pub enum ReadPlan {
    /// From the data file of the draft, at the given place.
    Draft { data_path: String, span: DraftSpan },
    /// From the block cache, what is missing fetched first.
    Remote { key: FileKey, size: u64, download_url: String },
}

/// A handle that is being closed.
#[derive(Debug)]
pub struct Closing {
    pub key: FileKey,
    /// What is to be recorded of the draft that the handle left behind; nothing where it left none that
    /// is not queued yet.
    pub parked: Option<DraftMeta>,
}

impl Vfs {
    /// Opens a file, first step: counts the handle in the block cache, so that nothing of the file is
    /// evicted from then on, and says whether a download URL is needed.
    pub fn open(&mut self, node: NodeId) -> (r: Result<OpenPlan, VfsError>)
        requires
            old(self).wf(),
            can_count(old(self)@, node.0),
        ensures
            final(self).wf(),
            open_answers(old(self)@, node.0, r, final(self)@),
    {
        let attr: NodeAttr = match self.tree.getattr(node) {
            Some(a) => a,
            None => {
                return Err(failure("open: unknown node (readdir/lookup it first)"));
            },
        };
        if attr.is_dir {
            return Err(failure("cannot open a directory as a file"));
        }
        let needs_url: bool = self.drafts.state(attr.remote_path.as_str()).is_none();
        let key = FileKey { remote_path: attr.remote_path, etag: attr.etag };
        self.retain(&key);
        Ok(OpenPlan { key, size: attr.size, needs_url })
    }

    pub(crate) fn retain(&mut self, key: &FileKey)
        requires
            old(self).wf(),
            old(self)@.retains.contains_key(key.hash()) ==> old(self)@.retains[key.hash()] < u32::MAX,
        ensures
            final(self).wf(),
            final(self)@ == (VfsView {
                retains: crate::cache::retained(old(self)@.retains, key.hash()),
                ..old(self)@
            }),
            counted_ahead(final(self)@, key.hash()),
    {
        self.cache.retain(key);
        proof {
            let u = VfsView {
                retains: crate::cache::retained(old(self)@.retains, key.hash()),
                ..old(self)@
            };
            assert(self@ =~= u);
            assert forall|k: Seq<char>| super::open_count(u.open, k) > 0 implies #[trigger] u.retains.contains_key(
                k,
            ) && super::open_count(u.open, k) <= u.retains[k] by {
                assert(old(self)@.retains.contains_key(k));
            }
        }
    }

    /// Opens a file, second step: where its draft waits for an upload whose timer has not fired, the
    /// upload is called off, which is reported at once, and the draft is being edited again. The result
    /// is what is to be recorded of it.
    ///
    /// A draft whose upload is under way or was given up is left alone.
    pub fn reopen_draft(&mut self, remote_path: &str) -> (r: Option<DraftMeta>)
        requires
            old(self).wf(),
        ensures
            final(self).wf(),
            draft_reopened(old(self)@, remote_path@, r, final(self)@),
    {
        let pending: bool = match self.drafts.state(remote_path) {
            Some(s) => s == DraftState::Pending,
            None => false,
        };
        if !pending {
            return None;
        }
        if !self.queue.cancel_cycle(remote_path) {
            assert(self@ =~= old(self)@);
            return None;
        }
        match self.drafts.set_state(remote_path, DraftState::Editing) {
            Ok(meta) => {
                proof {
                    let d = DraftView {
                        state: DraftState::Editing,
                        ..old(self)@.draft(remote_path@)
                    };
                    assert(self@ =~= (VfsView {
                        queue: crate::writeback::cancelled(old(self)@.queue, remote_path@),
                        ..old(self)@.with_draft(remote_path@, d)
                    }));
                    self.keep_handles(*old(self));
                }
                Some(meta)
            },
            Err(_) => None,
        }
    }

    /// Opens a file, last step: hands out the handle. The handle was counted in the block cache before
    /// (by [`Self::open`]).
    pub fn register(&mut self, key: FileKey, size: u64, download_url: Option<String>) -> (r: FileHandle)
        requires
            old(self).wf(),
            old(self)@.next_handle < u64::MAX,
            counted_ahead(old(self)@, key.hash()),
        ensures
            final(self).wf(),
            handle_registered(old(self)@, key, size, download_url, r, final(self)@),
    {
        let h: u64 = self.next_handle;
        let file = OpenFile { key, size, download_url };
        let ghost f = file@;
        self.next_handle = h + 1;
        proof {
            self.open_files.lemma_finite();
        }
        self.open_files.insert(h, file);
        proof {
            let before = old(self)@;
            assert forall|k: Seq<char>| super::open_count(self@.open, k) > 0 implies #[trigger] self@.retains.contains_key(
                k,
            ) && super::open_count(self@.open, k) <= self@.retains[k] by {
                super::lemma_open_count_insert(before.open, h, f, k);
                if super::open_count(before.open, k) > 0 {
                    assert(before.retains.contains_key(k));
                }
            }
            assert(self@ =~= (VfsView {
                open: before.open.insert(h, f),
                next_handle: (h + 1) as u64,
                ..before
            }));
        }
        FileHandle(h)
    }

    /// The open file of a handle.
    pub fn open_file(&self, h: FileHandle) -> (r: Option<&OpenFile>)
        requires
            self.wf(),
        ensures
            match r {
                Some(f) => self@.open.contains_key(h.0) && f@ == self@.open[h.0],
                None => !self@.open.contains_key(h.0),
            },
    {
        self.open_files.get(&h.0)
    }

    /// Replaces the download URL of a handle by a new one.
    pub fn renew_url(&mut self, h: FileHandle, url: String)
        requires
            old(self).wf(),
        ensures
            final(self).wf(),
            url_renewed(old(self)@, h.0, url@, final(self)@),
    {
        let ghost before = self@;
        proof {
            self.open_files.lemma_finite();
        }
        match self.open_files.remove(&h.0) {
            Some(f) => {
                let file = OpenFile { key: f.key, size: f.size, download_url: Some(url) };
                let ghost v = file@;
                self.open_files.insert(h.0, file);
                proof {
                    let rest = before.open.remove(h.0);
                    assert forall|k: Seq<char>| super::open_count(self@.open, k) == super::open_count(before.open, k) by {
                        super::lemma_open_count_remove(before.open, h.0, k);
                        super::lemma_open_count_insert(rest, h.0, v, k);
                        assert(rest.insert(h.0, v) =~= self@.open);
                    }
                    assert forall|k: Seq<char>| super::open_count(self@.open, k) > 0 implies #[trigger] self@.retains.contains_key(
                        k,
                    ) && super::open_count(self@.open, k) <= self@.retains[k] by {
                        assert(super::open_count(before.open, k) > 0);
                        assert(before.retains.contains_key(k));
                    }
                    assert(self@.open =~= before.open.insert(h.0, v));
                }
            },
            None => {
                assert(self@.open =~= before.open);
            },
        }
        assert(self@ =~= (VfsView { open: self@.open, ..before }));
    }

    /// Says where a read gets its bytes: from the file's draft where it has one, whatever is cached.
    ///
    /// A handle that was opened while its file had a draft, and outlived it, knows neither the file's
    /// size nor where to read it: it fails as stale.
    pub fn read(&self, h: FileHandle, offset: u64, len: u32) -> (r: Result<ReadPlan, VfsError>)
        requires
            self.wf(),
        ensures
            read_answers(self@, h.0, offset, len, r),
    {
        let f: &OpenFile = match self.open_files.get(&h.0) {
            Some(f) => f,
            None => {
                return Err(failure("read: file handle is not open"));
            },
        };
        let path: &str = f.key.remote_path.as_str();
        match (self.drafts.data_path(path), self.drafts.read(path, offset, len)) {
            (Some(data_path), Ok(span)) => Ok(ReadPlan::Draft { data_path, span }),
            _ => match &f.download_url {
                Some(url) => Ok(
                    ReadPlan::Remote {
                        key: f.key.clone(),
                        size: f.size,
                        download_url: url.clone(),
                    },
                ),
                None => Err(
                    VfsError::StaleHandle(
                        StaleHandleError { remote_path: f.key.remote_path.clone() },
                    ),
                ),
            },
        }
    }

    /// Closes a handle, first step: the handle is gone, and a draft that it leaves edited is parked.
    pub fn close(&mut self, h: FileHandle) -> (r: Result<Closing, VfsError>)
        requires
            old(self).wf(),
        ensures
            final(self).wf(),
            close_answers(old(self)@, h.0, r, final(self)@),
    {
        let ghost before = self@;
        proof {
            self.open_files.lemma_finite();
        }
        match self.open_files.remove(&h.0) {
            None => {
                assert(self@.open =~= before.open);
                assert(self@ =~= before);
                Err(failure("close: file handle is not open"))
            },
            Some(f) => {
                proof {
                    let k = before.open[h.0].hash();
                    super::lemma_open_count_remove(before.open, h.0, k);
                    assert(before.retains.contains_key(k));
                    assert forall|j: Seq<char>| super::open_count(self@.open, j) > 0 implies #[trigger] self@.retains.contains_key(
                        j,
                    ) && super::open_count(self@.open, j) <= self@.retains[j] by {
                        super::lemma_open_count_remove(before.open, h.0, j);
                        assert(before.retains.contains_key(j));
                    }
                    assert(self@ =~= (VfsView { open: before.open.remove(h.0), ..before }));
                }
                let ghost rest = self@;
                let editing: bool = match self.drafts.state(f.key.remote_path.as_str()) {
                    Some(s) => s == DraftState::Editing,
                    None => false,
                };
                let parked: Option<DraftMeta> = if editing {
                    match self.drafts.set_state(f.key.remote_path.as_str(), DraftState::Pending) {
                        Ok(meta) => Some(meta),
                        Err(_) => None,
                    }
                } else {
                    None
                };
                proof {
                    let path = f.key.remote_path@;
                    if editing {
                        let d = DraftView { state: DraftState::Pending, ..before.draft(path) };
                        assert(self@ =~= rest.with_draft(path, d));
                    } else {
                        assert(self@ =~= rest);
                    }
                }
                Ok(Closing { key: f.key, parked })
            },
        }
    }

    /// Closes a handle, last step: a draft that was parked is queued, and the handle is no longer counted
    /// in the block cache.
    pub fn finish_close(&mut self, closing: &Closing)
        requires
            old(self).wf(),
            old(self)@.queue.busy < u64::MAX,
            counted_ahead(old(self)@, closing.key.hash()),
        ensures
            final(self).wf(),
            close_finished(old(self)@, *closing, final(self)@),
    {
        if closing.parked.is_some() {
            self.queue.arm(closing.key.remote_path.as_str());
        }
        let ghost mid = self@;
        self.cache.release(&closing.key);
        proof {
            assert forall|k: Seq<char>| super::open_count(self@.open, k) > 0 implies #[trigger] self@.retains.contains_key(
                k,
            ) && super::open_count(self@.open, k) <= self@.retains[k] by {
                assert(old(self)@.retains.contains_key(k));
            }
            assert(self@ =~= (VfsView {
                queue: mid.queue,
                retains: crate::cache::released(old(self)@.retains, closing.key.hash()),
                ..old(self)@
            }));
        }
    }
}

/// Whether one more handle on the file of `node` can be counted.
pub open spec fn can_count(v: VfsView, node: u64) -> bool {
    let k = crate::cache::key_hash(v.tree.attrs[node].remote_path, v.tree.attrs[node].etag);
    v.tree.attrs.contains_key(node) && v.retains.contains_key(k) ==> v.retains[k] < u32::MAX
}

/// Whether more handles are counted on the version in directory `k` of the cache than are open: one is about
/// to be handed out, or was closed a moment ago.
pub open spec fn counted_ahead(v: VfsView, k: Seq<char>) -> bool {
    v.retains.contains_key(k) && super::open_count(v.open, k) < v.retains[k]
}

/// Whether reopening `path` calls an upload off: its draft waits, and its timer has not fired.
pub open spec fn called_off(v: VfsView, path: Seq<char>) -> bool {
    v.has_draft(path) && v.draft(path).state == DraftState::Pending && v.queue.timers.contains(path)
}

/// The data file of a path's draft.
pub open spec fn draft_data_path(v: VfsView, path: Seq<char>) -> Seq<char> {
    crate::text::child_path(
        crate::text::child_path(v.draft_root, crate::drafts::path_hash(path)),
        "data"@,
    )
}

/// Whether the first step of opening `node` answers `r` and leads from `v` to `w`.
pub open spec fn open_answers(
    v: VfsView,
    node: u64,
    r: Result<OpenPlan, VfsError>,
    w: VfsView,
) -> bool {
    match r {
        Ok(plan) => {
            let a = v.tree.attrs[node];
            &&& v.tree.attrs.contains_key(node)
            &&& !a.is_dir
            &&& plan.key.remote_path@ == a.remote_path
            &&& plan.key.etag@ == a.etag
            &&& plan.size == a.size
            &&& plan.needs_url == !v.has_draft(a.remote_path)
            &&& w == (VfsView {
                retains: crate::cache::retained(v.retains, plan.key.hash()),
                ..v
            })
            &&& counted_ahead(w, plan.key.hash())
        },
        Err(e) => {
            &&& w == v
            &&& if v.tree.attrs.contains_key(node) {
                v.tree.attrs[node].is_dir && super::says(
                    e,
                    "cannot open a directory as a file"@,
                )
            } else {
                super::says(e, "open: unknown node (readdir/lookup it first)"@)
            }
        },
    }
}

/// Whether opening `remote_path` calls the upload of its draft off, as `r` tells, from `v` to `w`.
pub open spec fn draft_reopened(
    v: VfsView,
    remote_path: Seq<char>,
    r: Option<DraftMeta>,
    w: VfsView,
) -> bool {
    &&& r is Some <==> called_off(v, remote_path)
    &&& match r {
        Some(meta) => {
            let d = DraftView {
                state: DraftState::Editing,
                ..v.draft(remote_path)
            };
            &&& crate::drafts::records(meta, d)
            &&& w == (VfsView {
                queue: crate::writeback::cancelled(v.queue, remote_path),
                ..v.with_draft(remote_path, d)
            })
        },
        None => w == v,
    }
}

/// Whether a read of `len` bytes at `offset` through handle `h` answers `r`.
pub open spec fn read_answers(
    v: VfsView,
    h: u64,
    offset: u64,
    len: u32,
    r: Result<ReadPlan, VfsError>,
) -> bool {
    match r {
        Ok(ReadPlan::Draft { data_path, span }) => {
            let f = v.open[h];
            &&& v.open.contains_key(h)
            &&& v.has_draft(f.remote_path)
            &&& data_path@ == draft_data_path(v, f.remote_path)
            &&& span.offset == offset
            &&& span.len == crate::drafts::readable_len(
                v.draft(f.remote_path).size,
                offset,
                len,
            )
        },
        Ok(ReadPlan::Remote { key, size, download_url }) => {
            let f = v.open[h];
            &&& v.open.contains_key(h)
            &&& !v.has_draft(f.remote_path)
            &&& key.remote_path@ == f.remote_path
            &&& key.etag@ == f.etag
            &&& size == f.size
            &&& f.download_url == Some(download_url@)
        },
        Err(VfsError::StaleHandle(e)) => {
            let f = v.open[h];
            &&& v.open.contains_key(h)
            &&& !v.has_draft(f.remote_path)
            &&& f.download_url is None
            &&& e.remote_path@ == f.remote_path
        },
        Err(e) => !v.open.contains_key(h) && super::says(e, "read: file handle is not open"@),
    }
}

/// Whether the first step of closing handle `h` answers `r` and leads from `v` to `w`.
pub open spec fn close_answers(
    v: VfsView,
    h: u64,
    r: Result<Closing, VfsError>,
    w: VfsView,
) -> bool {
    match r {
        Ok(c) => {
            let f = v.open[h];
            let rest = VfsView { open: v.open.remove(h), ..v };
            let dirty = v.has_draft(f.remote_path) && v.draft(
                f.remote_path,
            ).state == DraftState::Editing;
            let parked = DraftView {
                state: DraftState::Pending,
                ..v.draft(f.remote_path)
            };
            &&& v.open.contains_key(h)
            &&& c.key.remote_path@ == f.remote_path
            &&& c.key.etag@ == f.etag
            &&& c.parked is Some <==> dirty
            &&& c.parked matches Some(meta) ==> crate::drafts::records(meta, parked)
            &&& w == (if dirty {
                rest.with_draft(f.remote_path, parked)
            } else {
                rest
            })
            &&& counted_ahead(w, c.key.hash())
        },
        Err(e) => {
            &&& !v.open.contains_key(h)
            &&& w == v
            &&& super::says(e, "close: file handle is not open"@)
        },
    }
}

/// Whether the last step of closing a handle leads from `v` to `w`.
pub open spec fn close_finished(
    v: VfsView,
    closing: Closing,
    w: VfsView,
) -> bool {
    w == (VfsView {
        queue: if closing.parked is Some {
            crate::writeback::armed(v.queue, closing.key.remote_path@)
        } else {
            v.queue
        },
        retains: crate::cache::released(v.retains, closing.key.hash()),
        ..v
    })
}

/// Whether the last step of opening a file hands out `r` and leads from `v` to `w`.
pub open spec fn handle_registered(
    v: VfsView,
    key: FileKey,
    size: u64,
    download_url: Option<String>,
    r: FileHandle,
    w: VfsView,
) -> bool {
    &&& r.0 == v.next_handle
    &&& !v.open.contains_key(r.0)
    &&& w == (VfsView {
        open: v.open.insert(
            r.0,
            OpenView {
                remote_path: key.remote_path@,
                etag: key.etag@,
                size,
                download_url: crate::writeback::opt_text(download_url),
            },
        ),
        next_handle: (r.0 + 1) as u64,
        ..v
    })
}

/// Whether giving handle `h` a new download URL leads from `v` to `w`.
pub open spec fn url_renewed(
    v: VfsView,
    h: u64,
    url: Seq<char>,
    w: VfsView,
) -> bool {
    w == (VfsView {
        open: if v.open.contains_key(h) {
            v.open.insert(
                h,
                (OpenView { download_url: Some(url), ..v.open[h] }),
            )
        } else {
            v.open
        },
        ..v
    })
}

} // verus!
