//! One upload of one draft, from the moment that its timer fires to its report.
//!
//! Each step takes what came of the step before and says what is to be done next; what is done in between
//! are requests to the server and waits.

use vstd::prelude::*;

use super::upload::DraftFate;
use super::{Vfs, VfsView};
use crate::clock::utc_date;
use crate::drafts::{DraftMeta, DraftState, DraftView};
use crate::writeback::{
    aim_upload, copy_target, EventView, UploadAttempts, UploadParams, UploadReply, UploadStep,
    UploadTarget,
};

verus! {

/// An upload whose target is not known yet: whether the file changed on the server is to be learned.
#[derive(Debug)]
pub struct Checking {
    pub path: String,
    pub base_etag: String,
    /// Whether the cycle had a timer.
    pub timed: bool,
}

/// An upload that is being tried.
#[derive(Debug)]
pub struct Trying {
    pub path: String,
    pub params: UploadParams,
    pub target: UploadTarget,
    pub attempts: UploadAttempts,
}

/// An upload that landed in place: the version that it made is to be learned.
#[derive(Debug)]
pub struct Landed {
    pub path: String,
    pub stamp: u64,
}

/// How an upload ended.
#[derive(Debug)]
pub enum Ended {
    /// The draft was gone before it was uploaded.
    Gone,
    /// The draft landed as a copy beside the file.
    Saved { fate: DraftFate },
    /// The draft landed in place. The directories of the cache that hold its old content are to be deleted.
    Landed { fate: DraftFate, purged: Vec<String> },
    /// Every try failed; what is to be recorded of the draft.
    Failed { meta: Option<DraftMeta> },
}

/// What is to be done next.
#[derive(Debug)]
pub enum Next {
    /// Ask the server for the current version of the file, then go on with [`Vfs::checked`].
    Check(Checking),
    /// Record what is said of the draft, if anything is; upload; then go on with [`Vfs::replied`].
    Upload(Trying, Option<DraftMeta>),
    /// Wait this many milliseconds, then upload.
    Wait(Trying, u64),
    /// Ask the server for the version that the upload made, then go on with [`Vfs::learned`].
    Learn(Landed),
    /// Nothing: the upload ended.
    Over(Ended),
}

/// A draft that is being uploaded.
pub open spec fn uploading(d: DraftView) -> DraftView {
    DraftView { state: DraftState::Uploading, ..d }
}

/// The state after the target of the upload of `path` became known: the draft is marked, or, where it is
/// gone, the cycle ends.
pub open spec fn aimed_state(v: VfsView, path: Seq<char>, timed: bool) -> VfsView {
    if v.has_draft(path) {
        v.with_draft(path, uploading(v.draft(path)))
    } else {
        VfsView { queue: crate::writeback::given_up(v.queue, path, timed), ..v }
    }
}

/// Whether `target` is what an upload of `path` is aimed at, given the current version of the file.
pub open spec fn is_aim(
    target: UploadTarget,
    path: Seq<char>,
    base_etag: Seq<char>,
    current: Option<Seq<char>>,
    date: Seq<char>,
) -> bool {
    crate::writeback::aims(target, path, base_etag, current, date)
}

/// Whether `next` is what is to be done once the target of the upload of `path` is known: the first try, or
/// nothing where the draft is gone.
pub open spec fn is_first_try(
    next: Next,
    v: VfsView,
    path: Seq<char>,
    base_etag: Seq<char>,
    current: Option<Seq<char>>,
    date: Seq<char>,
) -> bool {
    if v.has_draft(path) {
        let d = uploading(v.draft(path));
        &&& next matches Next::Upload(t, Some(meta))
        &&& t.path@ == path
        &&& crate::writeback::params_of(
            t.params,
            d,
            path,
            super::handles::draft_data_path(v, path),
        )
        &&& is_aim(t.target, path, base_etag, current, date)
        &&& t.attempts == (UploadAttempts { failed: 0, conflict_no: t.target.conflict_no })
        &&& crate::drafts::records(meta, d)
    } else {
        next matches Next::Over(Ended::Gone)
    }
}

/// Whether `next` is another try of `before` with the given attempts: the same draft, aimed as before.
pub open spec fn is_same_try(next: Trying, before: Trying, attempts: UploadAttempts) -> bool {
    &&& next.path == before.path
    &&& next.params == before.params
    &&& next.target == before.target
    &&& next.attempts == attempts
}

/// Whether a try of an upload that ended as told leads from `v` to `after` and to `next`.
pub open spec fn is_reply(
    next: Next,
    v: VfsView,
    after: VfsView,
    t: Trying,
    reply: UploadReply,
    error: Seq<char>,
    date: Seq<char>,
) -> bool {
    let (attempts, step) = crate::writeback::after_try(
        t.attempts,
        reply,
        v.queue.first_backoff_millis,
        v.queue.second_backoff_millis,
    );
    match step {
        UploadStep::Succeeded => if t.target.conflict_no > 0 {
            &&& next matches Next::Over(Ended::Saved { fate })
            &&& super::upload::is_fate(fate, v, t.path@, t.params.stamp, None)
            &&& after == super::upload::settled(
                VfsView {
                    tree: crate::tree::invalidated(
                        crate::tree::invalidated(v.tree, t.target.uri@),
                        t.path@,
                    ),
                    ..v
                },
                t.path@,
                t.params.stamp,
                None,
                EventView::ConflictSaved {
                    original: t.path@,
                    conflict_copy: t.target.uri@,
                },
            )
        } else {
            &&& next matches Next::Learn(l)
            &&& l.path == t.path
            &&& l.stamp == t.params.stamp
            &&& after == v
        },
        UploadStep::RetryAfter(millis) => {
            &&& next matches Next::Wait(again, wait)
            &&& wait == millis
            &&& is_same_try(again, t, attempts)
            &&& after == v
        },
        UploadStep::Retarget(n) => {
            &&& next matches Next::Upload(again, None)
            &&& again.path == t.path
            &&& again.params == t.params
            &&& again.attempts == attempts
            &&& crate::writeback::aims_at_copy(again.target, t.path@, date, n)
            &&& after == v
        },
        UploadStep::GiveUp => {
            let q = crate::writeback::ended(
                v.queue,
                t.path@,
                seq![
                    EventView::UploadFailed {
                        remote_path: t.path@,
                        error,
                        will_retry: true,
                    },
                ],
            );
            &&& next matches Next::Over(Ended::Failed { meta })
            &&& match meta {
                Some(m) => {
                    let d = DraftView { state: DraftState::Pending, ..v.draft(t.path@) };
                    &&& v.has_draft(t.path@)
                    &&& crate::drafts::records(m, d)
                    &&& after == (VfsView { queue: q, ..v.with_draft(t.path@, d) })
                },
                None => !v.has_draft(t.path@) && after == (VfsView { queue: q, ..v }),
            }
        },
    }
}

impl Vfs {
    /// Begins the upload of a draft. A draft of no remote content has nothing to conflict with, so it is
    /// tried at once; for any other the current version of the file is asked for.
    ///
    /// `timed` tells whether the cycle had a timer: it did where [`Vfs::fire`] was called for it, and did
    /// not where the draft is tried again or was left waiting at the start.
    pub fn begin_upload(&mut self, path: &str, timed: bool) -> (r: Next)
        requires
            old(self).wf(),
            old(self)@.queue.busy > old(self)@.queue.timers.len(),
        ensures
            final(self).wf(),
            upload_begun(old(self)@, path@, timed, r, final(self)@),
    {
        match self.start_upload(path, timed) {
            None => Next::Over(Ended::Gone),
            Some(base_etag) => {
                if base_etag.as_str().unicode_len() == 0 {
                    assert(base_etag@ =~= Seq::<char>::empty());
                    let date: String = String::new();
                    assert(date@ =~= Seq::<char>::empty());
                    self.checked_on(
                        Checking { path: path.to_owned(), base_etag, timed },
                        None,
                        date.as_str(),
                    )
                } else {
                    Next::Check(Checking { path: path.to_owned(), base_etag, timed })
                }
            },
        }
    }

    /// Goes on once the current version of the file is known, as far as it could be learned: the draft is
    /// uploaded in place, or beside the file where that changed since the draft began. A copy beside the
    /// file bears today's date.
    pub fn checked(&mut self, c: Checking, current: Option<String>) -> (r: Next)
        requires
            old(self).wf(),
            old(self)@.queue.busy > old(self)@.queue.timers.len(),
        ensures
            final(self).wf(),
            exists|date: Seq<char>|
                crate::clock::is_day(date) && #[trigger] is_first_try(
                    r,
                    old(self)@,
                    c.path@,
                    c.base_etag@,
                    crate::writeback::opt_text(current),
                    date,
                ),
            final(self)@ == aimed_state(old(self)@, c.path@, c.timed),
    {
        let date: String = utc_date();
        self.checked_on(c, current, date.as_str())
    }

    /// The same on the given date.
    pub fn checked_on(&mut self, c: Checking, current: Option<String>, date: &str) -> (r: Next)
        requires
            old(self).wf(),
            old(self)@.queue.busy > old(self)@.queue.timers.len(),
        ensures
            final(self).wf(),
            is_first_try(
                r,
                old(self)@,
                c.path@,
                c.base_etag@,
                crate::writeback::opt_text(current),
                date@,
            ),
            final(self)@ == aimed_state(old(self)@, c.path@, c.timed),
    {
        let target: UploadTarget = aim_upload(
            c.path.as_str(),
            c.base_etag.as_str(),
            &current,
            date,
        );
        match self.mark_uploading(c.path.as_str(), c.timed) {
            None => Next::Over(Ended::Gone),
            Some(p) => {
                let attempts = UploadAttempts::new(target.conflict_no);
                Next::Upload(Trying { path: c.path, params: p.1, target, attempts }, Some(p.0))
            },
        }
    }

    /// Goes on once a try ended: with another one, at once or after a wait, or with the end of the upload.
    /// A copy beside the file bears today's date.
    pub fn replied(&mut self, t: Trying, reply: UploadReply, error: &str) -> (r: Next)
        requires
            old(self).wf(),
            old(self)@.queue.busy > old(self)@.queue.timers.len(),
        ensures
            final(self).wf(),
            exists|date: Seq<char>|
                crate::clock::is_day(date) && #[trigger] is_reply(
                    r,
                    old(self)@,
                    final(self)@,
                    t,
                    reply,
                    error@,
                    date,
                ),
    {
        let date: String = utc_date();
        self.replied_on(t, reply, error, date.as_str())
    }

    /// The same on the given date.
    pub fn replied_on(&mut self, t: Trying, reply: UploadReply, error: &str, date: &str) -> (r: Next)
        requires
            old(self).wf(),
            old(self)@.queue.busy > old(self)@.queue.timers.len(),
        ensures
            final(self).wf(),
            is_reply(r, old(self)@, final(self)@, t, reply, error@, date@),
    {
        let mut attempts: UploadAttempts = t.attempts;
        let backoff: (u64, u64) = self.queue.retry_backoff_millis();
        match attempts.next(reply, backoff) {
            UploadStep::Succeeded => {
                if t.target.conflict_no > 0 {
                    let fate = self.conflict_saved(
                        t.path.as_str(),
                        t.params.stamp,
                        t.target.uri.as_str(),
                    );
                    Next::Over(Ended::Saved { fate })
                } else {
                    Next::Learn(Landed { path: t.path, stamp: t.params.stamp })
                }
            },
            UploadStep::RetryAfter(millis) => Next::Wait(
                Trying { path: t.path, params: t.params, target: t.target, attempts },
                millis,
            ),
            UploadStep::Retarget(n) => {
                let target: UploadTarget = copy_target(t.path.as_str(), date, n);
                Next::Upload(Trying { path: t.path, params: t.params, target, attempts }, None)
            },
            UploadStep::GiveUp => Next::Over(
                Ended::Failed { meta: self.upload_failed(t.path.as_str(), error) },
            ),
        }
    }

    /// Ends an upload that landed in place, once the version that it made is known, as far as it could be
    /// learned.
    pub fn learned(&mut self, l: Landed, new_etag: Option<String>) -> (r: Next)
        requires
            old(self).wf(),
            old(self)@.queue.busy > old(self)@.queue.timers.len(),
        ensures
            final(self).wf(),
            upload_learned(old(self)@, l, new_etag, r, final(self)@),
    {
        let etag: String = match new_etag {
            Some(e) => e,
            None => {
                let none: String = String::new();
                assert(none@ =~= Seq::<char>::empty());
                none
            },
        };
        let r = self.upload_landed(l.path.as_str(), l.stamp, etag.as_str());
        Next::Over(Ended::Landed { fate: r.0, purged: r.1 })
    }
}

/// Whether the upload of the draft of `path` begins with `r`, from `v0` to `w`.
pub open spec fn upload_begun(
    v0: VfsView,
    path: Seq<char>,
    timed: bool,
    r: Next,
    w: VfsView,
) -> bool {
    let v = VfsView {
        queue: crate::writeback::started(v0.queue, path),
        ..v0
    };
    if !v0.has_draft(path) {
        &&& r matches Next::Over(Ended::Gone)
        &&& w == (VfsView {
            queue: crate::writeback::given_up(v0.queue, path, timed),
            ..v0
        })
    } else if v0.draft(path).base_etag.len() == 0 {
        &&& is_first_try(r, v, path, Seq::empty(), None, Seq::empty())
        &&& w == aimed_state(v, path, timed)
    } else {
        &&& r matches Next::Check(c)
        &&& c.path@ == path
        &&& c.base_etag@ == v0.draft(path).base_etag
        &&& c.timed == timed
        &&& w == v
    }
}

/// Whether an upload that landed in place ends with `r`, from `v` to `w`.
pub open spec fn upload_learned(
    v: VfsView,
    l: Landed,
    new_etag: Option<String>,
    r: Next,
    w: VfsView,
) -> bool {
    let etag = match new_etag {
        Some(e) => e@,
        None => Seq::empty(),
    };
    let base = super::upload::new_base(etag);
    &&& r matches Next::Over(Ended::Landed { fate, purged })
    &&& super::upload::is_fate(fate, v, l.path@, l.stamp, base)
    &&& crate::text::texts(purged@).no_duplicates()
    &&& forall|k: Seq<char>| #[trigger]
        crate::text::texts(purged@).contains(k) <==> v.cached.contains_key(k)
            && v.cached[k].remote_path == l.path@
    &&& w == super::upload::settled(
        VfsView {
            cached: crate::cache::without_path(v.cached, l.path@),
            ..v
        },
        l.path@,
        l.stamp,
        base,
        EventView::UploadSucceeded { remote_path: l.path@, new_etag: etag },
    )
}

} // verus!
