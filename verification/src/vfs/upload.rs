//! Uploading drafts.

use vstd::prelude::*;

use super::{Vfs, VfsView};
use crate::drafts::{DraftMeta, DraftState, DraftView};
use crate::writeback::{upload_params, EventView, QueueView, UploadParams, VfsEvent};

verus! {

/// What became of a draft after its upload landed.
#[derive(Debug)]
pub enum DraftFate {
    /// It was gone before.
    Gone,
    /// It is gone; its directory is to be deleted.
    Removed { dir: String },
    /// It was written to while the upload was under way, and is queued again; what is to be recorded of
    /// it.
    Kept { meta: DraftMeta },
}

/// Whether the draft of `path` is still the content with the given stamp, so that nothing of it is lost
/// with the draft.
pub open spec fn is_uploaded(v: VfsView, path: Seq<char>, stamp: u64) -> bool {
    v.draft(path).stamp == stamp
}

/// A draft that was written to while its upload was under way: it waits for an upload of its own, as a
/// change of the version `base` where the upload made a new one.
pub open spec fn kept(d: DraftView, base: Option<Seq<char>>) -> DraftView {
    DraftView {
        state: DraftState::Pending,
        base_etag: match base {
            Some(etag) => etag,
            None => d.base_etag,
        },
        ..d
    }
}

/// The state after an upload of the content with the given stamp landed and was reported: the draft is
/// gone if that content is all that it holds, and otherwise queued again.
pub open spec fn settled(
    v: VfsView,
    path: Seq<char>,
    stamp: u64,
    base: Option<Seq<char>>,
    event: EventView,
) -> VfsView {
    let q = crate::writeback::ended(v.queue, path, seq![event]);
    if !v.has_draft(path) {
        VfsView { queue: q, ..v }
    } else if is_uploaded(v, path, stamp) {
        VfsView { queue: q, drafts: v.drafts.remove(crate::drafts::path_hash(path)), ..v }
    } else {
        VfsView {
            queue: crate::writeback::armed(q, path),
            ..v.with_draft(path, kept(v.draft(path), base))
        }
    }
}

/// Whether `fate` is what became of the draft of `path` (see [`settled`]).
pub open spec fn is_fate(
    fate: DraftFate,
    v: VfsView,
    path: Seq<char>,
    stamp: u64,
    base: Option<Seq<char>>,
) -> bool {
    if !v.has_draft(path) {
        fate is Gone
    } else if is_uploaded(v, path, stamp) {
        fate matches DraftFate::Removed { dir } && dir@ == crate::text::child_path(
            v.draft_root,
            crate::drafts::path_hash(path),
        )
    } else {
        fate matches DraftFate::Kept { meta } && crate::drafts::records(
            meta,
            kept(v.draft(path), base),
        )
    }
}

/// The version that a draft is a change of after an upload in its place: the new one, where the server
/// told it.
pub open spec fn new_base(new_etag: Seq<char>) -> Option<Seq<char>> {
    if new_etag.len() > 0 {
        Some(new_etag)
    } else {
        None
    }
}

impl Vfs {
    /// Notes that the timer of a queued draft fired (see [`crate::writeback::WriteBackQueue::fire`]).
    pub fn fire(&mut self, remote_path: &str)
        requires
            old(self).wf(),
        ensures
            final(self).wf(),
            timer_fired(old(self)@, remote_path@, final(self)@),
    {
        self.queue.fire(remote_path);
        proof {
            assert(self@ =~= (VfsView { queue: self@.queue, ..old(self)@ }));
            self.keep_handles(*old(self));
        }
    }

    /// Uploads a draft, first step: the version that it is a change of. Nothing is left to do where the
    /// draft is gone. `timed` tells whether the cycle had a timer.
    pub fn start_upload(&mut self, remote_path: &str, timed: bool) -> (r: Option<String>)
        requires
            old(self).wf(),
            old(self)@.queue.busy > old(self)@.queue.timers.len(),
        ensures
            final(self).wf(),
            upload_starts(old(self)@, remote_path@, timed, r, final(self)@),
    {
        let r = self.drafts.base_etag(remote_path);
        self.queue.start(remote_path);
        if r.is_none() {
            self.queue.give_up(remote_path, timed);
            assert(self@.queue =~= crate::writeback::given_up(
                old(self)@.queue,
                remote_path@,
                timed,
            ));
        }
        proof {
            assert(self@ =~= (VfsView { queue: self@.queue, ..old(self)@ }));
            self.keep_handles(*old(self));
        }
        r
    }

    /// Uploads a draft, second step, once its target is known: the draft is marked, and the uploader is
    /// told of it. Nothing is left to do where the draft is gone. `timed` tells whether the cycle had a
    /// timer.
    pub fn mark_uploading(&mut self, remote_path: &str, timed: bool) -> (r: Option<
        (DraftMeta, UploadParams),
    >)
        requires
            old(self).wf(),
            old(self)@.queue.busy > old(self)@.queue.timers.len(),
        ensures
            final(self).wf(),
            upload_marked(old(self)@, remote_path@, timed, r, final(self)@),
    {
        match self.drafts.set_state(remote_path, DraftState::Uploading) {
            Ok(meta) => {
                proof {
                    let d = DraftView {
                        state: DraftState::Uploading,
                        ..old(self)@.draft(remote_path@)
                    };
                    assert(self@ =~= old(self)@.with_draft(remote_path@, d));
                }
                match upload_params(&self.drafts, remote_path) {
                    Some(params) => Some((meta, params)),
                    None => None,
                }
            },
            Err(_) => {
                self.queue.give_up(remote_path, timed);
                proof {
                    assert(self@ =~= (VfsView { queue: self@.queue, ..old(self)@ }));
                    self.keep_handles(*old(self));
                }
                None
            },
        }
    }

    /// Ends a cycle whose upload landed (see [`settled`]).
    fn settle_uploaded_draft(
        &mut self,
        remote_path: &str,
        stamp: u64,
        base: Option<&str>,
        event: VfsEvent,
    ) -> (r: DraftFate)
        requires
            old(self).wf(),
            old(self)@.queue.busy > old(self)@.queue.timers.len(),
        ensures
            final(self).wf(),
            ({
                let b = match base {
                    Some(s) => Some(s@),
                    None => None,
                };
                &&& final(self)@ == settled(old(self)@, remote_path@, stamp, b, event@)
                &&& is_fate(r, old(self)@, remote_path@, stamp, b)
            }),
    {
        let ghost v = self@;
        let ghost e = event@;
        proof {
            self.queue.lemma_wf();
        }
        self.queue.end(remote_path, Some(event));
        match self.drafts.stamp(remote_path) {
            None => {
                proof {
                    assert(self@ =~= (VfsView { queue: self@.queue, ..v }));
                    self.keep_handles(*old(self));
                }
                DraftFate::Gone
            },
            Some(now) => {
                if now == stamp {
                    let dir: String = self.drafts.remove(remote_path);
                    proof {
                        assert(self@ =~= (VfsView {
                            queue: self@.queue,
                            drafts: v.drafts.remove(crate::drafts::path_hash(remote_path@)),
                            ..v
                        }));
                        self.keep_handles(*old(self));
                    }
                    return DraftFate::Removed { dir };
                }
                let ghost k = crate::drafts::path_hash(remote_path@);
                if let Some(etag) = base {
                    let rebased = self.drafts.rebase(remote_path, etag);
                }
                let ghost mid = self.drafts.drafts();
                let ghost b = match base {
                    Some(s) => Some(s@),
                    None => None::<Seq<char>>,
                };
                match self.drafts.set_state(remote_path, DraftState::Pending) {
                    Ok(meta) => {
                        self.queue.arm(remote_path);
                        proof {
                            let d = kept(v.draft(remote_path@), b);
                            assert(mid.insert(k, d) =~= v.drafts.insert(k, d));
                            assert(self@ =~= (VfsView {
                                queue: self@.queue,
                                ..v.with_draft(remote_path@, d)
                            }));
                            self.keep_handles(*old(self));
                        }
                        DraftFate::Kept { meta }
                    },
                    Err(_) => DraftFate::Gone,
                }
            },
        }
    }

    /// Uploads a draft, last step, where it landed in place: what was cached of the path is stale and
    /// goes, and the cycle ends with the new version reported. The second result names the directories
    /// of the cache that are to be deleted.
    pub fn upload_landed(&mut self, remote_path: &str, stamp: u64, new_etag: &str) -> (r: (
        DraftFate,
        Vec<String>,
    ))
        requires
            old(self).wf(),
            old(self)@.queue.busy > old(self)@.queue.timers.len(),
        ensures
            final(self).wf(),
            landing_settles(old(self)@, remote_path@, stamp, new_etag@, r, final(self)@),
    {
        let ghost before = self.cache.entries();
        let purged: Vec<String> = self.cache.purge(remote_path);
        proof {
            assert forall|k: Seq<char>|
                crate::text::texts(purged@).contains(k) <==> before.contains_key(k)
                    && before[k].remote_path == remote_path@ by {
                let path = before[k].remote_path;
            }
            assert(self@ =~= (VfsView {
                cached: crate::cache::without_path(old(self)@.cached, remote_path@),
                ..old(self)@
            }));
            self.keep_handles(*old(self));
        }
        let event = VfsEvent::UploadSucceeded {
            remote_path: remote_path.to_owned(),
            new_etag: new_etag.to_owned(),
        };
        let base: Option<&str> = if new_etag.unicode_len() > 0 {
            Some(new_etag)
        } else {
            None
        };
        let fate = self.settle_uploaded_draft(remote_path, stamp, base, event);
        (fate, purged)
    }

    /// Uploads a draft, last step, where it landed as a copy: both paths have changed, and the cycle ends
    /// with the copy reported. The file itself is left as the server has it.
    pub fn conflict_saved(&mut self, remote_path: &str, stamp: u64, copy: &str) -> (r: DraftFate)
        requires
            old(self).wf(),
            old(self)@.queue.busy > old(self)@.queue.timers.len(),
        ensures
            final(self).wf(),
            conflict_settles(old(self)@, remote_path@, stamp, copy@, r, final(self)@),
    {
        self.invalidate_path(copy);
        self.invalidate_path(remote_path);
        let event = VfsEvent::ConflictSaved {
            original: remote_path.to_owned(),
            conflict_copy: copy.to_owned(),
        };
        self.settle_uploaded_draft(remote_path, stamp, None, event)
    }

    /// Uploads a draft, last step, where every try failed: the draft waits again, and the cycle ends with
    /// the failure reported. The result is what is to be recorded of the draft.
    pub fn upload_failed(&mut self, remote_path: &str, error: &str) -> (r: Option<DraftMeta>)
        requires
            old(self).wf(),
            old(self)@.queue.busy > old(self)@.queue.timers.len(),
        ensures
            final(self).wf(),
            failure_parks(old(self)@, remote_path@, error@, r, final(self)@),
    {
        let parked = self.drafts.set_state(remote_path, DraftState::Pending);
        self.queue.end(
            remote_path,
            Some(
                VfsEvent::UploadFailed {
                    remote_path: remote_path.to_owned(),
                    error: error.to_owned(),
                    will_retry: true,
                },
            ),
        );
        assert(self@ =~= (VfsView { queue: self@.queue, drafts: self@.drafts, ..old(self)@ }));
        match parked {
            Ok(meta) => Some(meta),
            Err(_) => None,
        }
    }
}

// ---------------------------------------------------------------------------
// Trying again.
// ---------------------------------------------------------------------------

/// Whether the draft of `path` is marked as being uploaded while nothing uploads it.
pub open spec fn is_stranded(
    drafts: Map<Seq<char>, DraftView>,
    in_flight: Set<Seq<char>>,
    path: Seq<char>,
) -> bool {
    let k = crate::drafts::path_hash(path);
    drafts.contains_key(k) && drafts[k].state == DraftState::Uploading && !in_flight.contains(path)
}

/// Whether the draft of `path` waits for an upload.
pub open spec fn is_parked(drafts: Map<Seq<char>, DraftView>, path: Seq<char>) -> bool {
    let k = crate::drafts::path_hash(path);
    drafts.contains_key(k) && drafts[k].state == DraftState::Pending
}

/// The drafts after the stranded ones among the first `n` paths were parked.
pub open spec fn unstranded(
    drafts: Map<Seq<char>, DraftView>,
    in_flight: Set<Seq<char>>,
    paths: Seq<Seq<char>>,
    n: int,
) -> Map<Seq<char>, DraftView>
    decreases n,
{
    if n <= 0 {
        drafts
    } else {
        let m = unstranded(drafts, in_flight, paths, n - 1);
        let k = crate::drafts::path_hash(paths[n - 1]);
        if is_stranded(m, in_flight, paths[n - 1]) {
            m.insert(k, (DraftView { state: DraftState::Pending, ..m[k] }))
        } else {
            m
        }
    }
}

/// The paths among the first `n` whose drafts were parked when their turn came.
pub open spec fn ready(
    drafts: Map<Seq<char>, DraftView>,
    in_flight: Set<Seq<char>>,
    paths: Seq<Seq<char>>,
    n: int,
) -> Seq<Seq<char>>
    decreases n,
{
    if n <= 0 {
        Seq::empty()
    } else {
        let list = ready(drafts, in_flight, paths, n - 1);
        if is_parked(unstranded(drafts, in_flight, paths, n - 1), paths[n - 1]) {
            list.push(paths[n - 1])
        } else {
            list
        }
    }
}

/// The paths among the first `n` whose drafts were stranded when their turn came.
pub open spec fn stranded(
    drafts: Map<Seq<char>, DraftView>,
    in_flight: Set<Seq<char>>,
    paths: Seq<Seq<char>>,
    n: int,
) -> Seq<Seq<char>>
    decreases n,
{
    if n <= 0 {
        Seq::empty()
    } else {
        let list = stranded(drafts, in_flight, paths, n - 1);
        if is_stranded(unstranded(drafts, in_flight, paths, n - 1), in_flight, paths[n - 1]) {
            list.push(paths[n - 1])
        } else {
            list
        }
    }
}

/// The drafts that can be tried again.
#[derive(Debug)]
pub struct Retry {
    /// Paths of those that wait.
    pub ready: Vec<String>,
    /// Those that nothing uploads although they are marked so, parked: path, and what is to be recorded.
    pub stranded: Vec<(String, DraftMeta)>,
}

/// The paths of recovered drafts.
pub open spec fn recovered_paths(list: Seq<(String, DraftMeta)>) -> Seq<Seq<char>> {
    list.map_values(|p: (String, DraftMeta)| p.0@)
}

/// Whether what is said of a recovered draft is what it is.
pub open spec fn is_recorded(v: VfsView, p: (String, DraftMeta)) -> bool {
    &&& v.has_draft(p.0@)
    &&& v.draft(p.0@).state == DraftState::Pending
    &&& crate::drafts::records(p.1, v.draft(p.0@))
}

/// Whether `r` was found by going through `paths`.
pub open spec fn found_in(r: Retry, v: VfsView, paths: Seq<Seq<char>>) -> bool {
    let n = paths.len() as int;
    &&& crate::text::texts(r.ready@) == ready(v.drafts, v.queue.in_flight, paths, n)
    &&& recovered_paths(r.stranded@) == stranded(v.drafts, v.queue.in_flight, paths, n)
}

impl Vfs {
    /// Looks for drafts to try again, in no particular order. One that is marked as being uploaded while
    /// nothing uploads it was cut off (its path was changed as its timer fired), and is parked. One whose
    /// upload is under way is left alone.
    pub fn retry_candidates(&mut self) -> (r: Retry)
        requires
            old(self).wf(),
        ensures
            final(self).wf(),
            forall|i: int|
                0 <= i < r.stranded@.len() ==> is_recorded(final(self)@, #[trigger] r.stranded@[i]),
            exists|paths: Seq<Seq<char>>|
                {
                    &&& #[trigger] crate::drafts::lists_waiting(old(self)@.drafts, paths)
                    &&& found_in(r, old(self)@, paths)
                    &&& final(self)@ == (VfsView {
                        drafts: unstranded(
                            old(self)@.drafts,
                            old(self)@.queue.in_flight,
                            paths,
                            paths.len() as int,
                        ),
                        ..old(self)@
                    })
                },
    {
        let waiting: Vec<String> = self.drafts.pending();
        let ghost paths = crate::text::texts(waiting@);
        let ghost v = self@;
        let mut ready_paths: Vec<String> = Vec::new();
        let mut recovered: Vec<(String, DraftMeta)> = Vec::new();
        let mut i: usize = 0;
        proof {
            assert(crate::text::texts(ready_paths@) =~= Seq::<Seq<char>>::empty());
            assert(recovered_paths(recovered@) =~= Seq::<Seq<char>>::empty());
        }
        while i < waiting.len()
            invariant
                i <= waiting@.len(),
                paths == crate::text::texts(waiting@),
                self.wf(),
                v == old(self)@,
                self@ == (VfsView {
                    drafts: unstranded(v.drafts, v.queue.in_flight, paths, i as int),
                    ..v
                }),
                crate::text::texts(ready_paths@) == ready(
                    v.drafts,
                    v.queue.in_flight,
                    paths,
                    i as int,
                ),
                recovered_paths(recovered@) == stranded(
                    v.drafts,
                    v.queue.in_flight,
                    paths,
                    i as int,
                ),
                forall|j: int|
                    0 <= j < recovered@.len() ==> is_recorded(self@, #[trigger] recovered@[j]),
            decreases waiting@.len() - i,
        {
            let path: String = waiting[i].clone();
            let ghost before = *self;
            let ghost had = recovered@;
            assert(paths[i as int] == path@);
            let ghost names = crate::text::texts(ready_paths@);
            let ghost cut = recovered_paths(recovered@);
            match self.drafts.state(path.as_str()) {
                Some(DraftState::Pending) => {
                    ready_paths.push(path);
                    assert(crate::text::texts(ready_paths@) =~= names.push(path@));
                },
                Some(DraftState::Uploading) => {
                    if !self.queue.is_in_flight(path.as_str()) {
                        match self.drafts.set_state(path.as_str(), DraftState::Pending) {
                            Ok(meta) => {
                                recovered.push((path, meta));
                                assert(recovered_paths(recovered@) =~= cut.push(path@));
                            },
                            Err(_) => {},
                        }
                    }
                },
                _ => {},
            }
            proof {
                assert(self@ =~= (VfsView {
                    drafts: unstranded(v.drafts, v.queue.in_flight, paths, i + 1),
                    ..v
                }));
                self.keep_handles(before);
                assert forall|j: int| 0 <= j < recovered@.len() implies is_recorded(
                    self@,
                    #[trigger] recovered@[j],
                ) by {
                    if j < had.len() {
                        assert(is_recorded(before@, had[j]));
                    }
                }
            }
            i = i + 1;
        }
        let r = Retry { ready: ready_paths, stranded: recovered };
        proof {
            assert(crate::drafts::lists_waiting(v.drafts, paths));
            assert(found_in(r, v, paths));
        }
        r
    }

    /// Opens a cycle for each path, to be uploaded at once (see
    /// [`crate::writeback::WriteBackQueue::enqueue_immediate`]).
    pub fn enqueue_immediate(&mut self, paths: &Vec<String>) -> (r: usize)
        requires
            old(self).wf(),
            old(self)@.queue.busy + paths@.len() <= u64::MAX,
        ensures
            final(self).wf(),
            cycles_opened(old(self)@, paths@, r, final(self)@),
    {
        let r = self.queue.enqueue_immediate(paths);
        assert(self@ =~= (VfsView { queue: self@.queue, ..old(self)@ }));
        proof {
            self.keep_handles(*old(self));
        }
        r
    }

    /// Sets how long a parked draft waits for further changes.
    pub fn set_debounce_for_tests(&mut self, millis: u64)
        requires
            old(self).wf(),
        ensures
            final(self).wf(),
            final(self)@ == (VfsView {
                queue: (QueueView { debounce_millis: millis, ..old(self)@.queue }),
                ..old(self)@
            }),
    {
        self.queue.set_debounce_for_tests(millis);
        assert(self@ =~= (VfsView { queue: self@.queue, ..old(self)@ }));
        proof {
            self.keep_handles(*old(self));
        }
    }

    /// Sets the waits between the tries of an upload.
    pub fn set_retry_backoff_for_tests(&mut self, first: u64, second: u64)
        requires
            old(self).wf(),
        ensures
            final(self).wf(),
            final(self)@ == (VfsView {
                queue: (QueueView {
                    first_backoff_millis: first,
                    second_backoff_millis: second,
                    ..old(self)@.queue
                }),
                ..old(self)@
            }),
    {
        self.queue.set_retry_backoff_for_tests(first, second);
        assert(self@ =~= (VfsView { queue: self@.queue, ..old(self)@ }));
        proof {
            self.keep_handles(*old(self));
        }
    }
}

/// Whether the first step of an upload answers `r` and leads from `v` to `w`.
pub open spec fn upload_starts(
    v: VfsView,
    remote_path: Seq<char>,
    timed: bool,
    r: Option<String>,
    w: VfsView,
) -> bool {
    match r {
        Some(etag) => {
            &&& v.has_draft(remote_path)
            &&& etag@ == v.draft(remote_path).base_etag
            &&& w == (VfsView {
                queue: crate::writeback::started(v.queue, remote_path),
                ..v
            })
        },
        None => {
            &&& !v.has_draft(remote_path)
            &&& w == (VfsView {
                queue: crate::writeback::given_up(v.queue, remote_path, timed),
                ..v
            })
        },
    }
}

/// Whether the second step of an upload answers `r` and leads from `v` to `w`.
pub open spec fn upload_marked(
    v: VfsView,
    remote_path: Seq<char>,
    timed: bool,
    r: Option<(DraftMeta, UploadParams)>,
    w: VfsView,
) -> bool {
    match r {
        Some(p) => {
            let d = DraftView {
                state: DraftState::Uploading,
                ..v.draft(remote_path)
            };
            &&& v.has_draft(remote_path)
            &&& crate::drafts::records(p.0, d)
            &&& crate::writeback::params_of(
                p.1,
                d,
                remote_path,
                super::handles::draft_data_path(v, remote_path),
            )
            &&& w == v.with_draft(remote_path, d)
        },
        None => {
            &&& !v.has_draft(remote_path)
            &&& w == (VfsView {
                queue: crate::writeback::given_up(v.queue, remote_path, timed),
                ..v
            })
        },
    }
}

/// Whether an upload of which every try failed is parked as `r` tells, from `v` to `w`.
pub open spec fn failure_parks(
    v: VfsView,
    remote_path: Seq<char>,
    error: Seq<char>,
    r: Option<DraftMeta>,
    w: VfsView,
) -> bool {
    &&& r is Some <==> v.has_draft(remote_path)
    &&& ({
        let q = crate::writeback::ended(
            v.queue,
            remote_path,
            seq![
                EventView::UploadFailed {
                    remote_path,
                    error,
                    will_retry: true,
                },
            ],
        );
        match r {
            Some(meta) => {
                let d = DraftView {
                    state: DraftState::Pending,
                    ..v.draft(remote_path)
                };
                &&& crate::drafts::records(meta, d)
                &&& w == (VfsView {
                    queue: q,
                    ..v.with_draft(remote_path, d)
                })
            },
            None => w == (VfsView { queue: q, ..v }),
        }
    })
}

/// Whether the firing of the timer of `remote_path` leads from `v` to `w`.
pub open spec fn timer_fired(
    v: VfsView,
    remote_path: Seq<char>,
    w: VfsView,
) -> bool {
    w == (VfsView {
        queue: (QueueView {
            timers: v.queue.timers.remove(remote_path),
            ..v.queue
        }),
        ..v
    })
}

/// Whether the end of an upload that landed in place answers `r` and leads from `v` to `w`.
pub open spec fn landing_settles(
    v: VfsView,
    remote_path: Seq<char>,
    stamp: u64,
    new_etag: Seq<char>,
    r: (DraftFate, Vec<String>),
    w: VfsView,
) -> bool {
    &&& is_fate(r.0, v, remote_path, stamp, new_base(new_etag))
    &&& w == settled(
        VfsView {
            cached: crate::cache::without_path(v.cached, remote_path),
            ..v
        },
        remote_path,
        stamp,
        new_base(new_etag),
        EventView::UploadSucceeded { remote_path, new_etag },
    )
    &&& crate::text::texts(r.1@).no_duplicates()
    &&& forall|k: Seq<char>| #[trigger]
        crate::text::texts(r.1@).contains(k) <==> v.cached.contains_key(k)
            && v.cached[k].remote_path == remote_path
}

/// Whether the end of an upload that landed as a copy answers `r` and leads from `v` to `w`.
pub open spec fn conflict_settles(
    v: VfsView,
    remote_path: Seq<char>,
    stamp: u64,
    copy: Seq<char>,
    r: DraftFate,
    w: VfsView,
) -> bool {
    &&& is_fate(r, v, remote_path, stamp, None)
    &&& w == settled(
        VfsView {
            tree: crate::tree::invalidated(
                crate::tree::invalidated(v.tree, copy),
                remote_path,
            ),
            ..v
        },
        remote_path,
        stamp,
        None,
        EventView::ConflictSaved { original: remote_path, conflict_copy: copy },
    )
}

/// Whether opening a cycle for each of `paths` answers `r` and leads from `v` to `w`.
pub open spec fn cycles_opened(
    v: VfsView,
    paths: Seq<String>,
    r: usize,
    w: VfsView,
) -> bool {
    &&& r == paths.len()
    &&& w == (VfsView {
        queue: crate::writeback::enqueued(
            v.queue,
            crate::text::texts(paths),
            paths.len() as int,
        ),
        ..v
    })
}

} // verus!
