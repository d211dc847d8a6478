//! What holds of the upload of one draft from its beginning to its report.

use vstd::prelude::*;

use crate::drafts::{DraftMeta, DraftState};
use crate::vfs::cycle::{Ended, Landed, Next, Trying};
use crate::vfs::upload::{DraftFate, Retry};
use crate::vfs::VfsView;
use crate::writeback::{EventView, UploadParams, UploadReply, UPLOAD_RETRIES};

verus! {

/// Whether every draft but the one at `k` is the same in `v` and `w`, looked at in `other`.
pub open spec fn others_stay(v: VfsView, w: VfsView, k: Seq<char>, other: Seq<char>) -> bool {
    other != k ==> (w.drafts.contains_key(other) <==> v.drafts.contains_key(other))
        && w.drafts[other] == v.drafts[other]
}

/// Whether the draft at `k` is the same in `v` and `w` but for how far its upload has come.
pub open spec fn content_stays(v: VfsView, w: VfsView, k: Seq<char>) -> bool {
    &&& w.drafts.contains_key(k)
    &&& w.drafts[k].remote_path == v.drafts[k].remote_path
    &&& w.drafts[k].size == v.drafts[k].size
    &&& w.drafts[k].last_write_unix == v.drafts[k].last_write_unix
    &&& w.drafts[k].stamp == v.drafts[k].stamp
}

// ---------------------------------------------------------------------------
// Beginning.
// ---------------------------------------------------------------------------

/// An upload begins if and only if there is a draft. It asks for the file's current version if and only if
/// the draft began at one; any other draft is tried at once. No draft changes before its target is known.
pub proof fn the_current_version_is_asked_for_where_the_draft_has_one(
    v: VfsView,
    path: Seq<char>,
    timed: bool,
    r: Next,
    w: VfsView,
    other: Seq<char>,
)
    requires
        crate::vfs::cycle::upload_begun(v, path, timed, r, w),
    ensures
        ({
            let k = crate::drafts::path_hash(path);
            let drafted = v.drafts.contains_key(k);
            let versioned = v.drafts[k].base_etag.len() > 0;
            &&& (r matches Next::Over(Ended::Gone)) <==> !drafted
            &&& (r matches Next::Check(c) && c.path@ == path && c.base_etag@ == v.drafts[k].base_etag
                && c.timed == timed) <==> drafted && versioned
            &&& (r matches Next::Upload(t, Some(m)) && t.path@ == path && t.target.uri@ == path
                && !t.target.overwrite) <==> drafted && !versioned
            &&& others_stay(v, w, k, other)
            &&& drafted && versioned ==> w.drafts == v.drafts
            &&& drafted ==> w.queue.in_flight == v.queue.in_flight.insert(path) && w.queue.busy
                == v.queue.busy
            &&& !drafted ==> w.queue.in_flight == v.queue.in_flight.remove(path) && w.queue.busy
                == v.queue.busy - 1 && w.drafts == v.drafts
            &&& w.queue.timers == v.queue.timers
        }),
{
}

/// The first step of an upload hands out the version that the draft began at; the second marks the draft
/// as being uploaded and says what is uploaded: the draft's own data, of the size that it records, and
/// with the stamp that tells whether it was written to meanwhile. Where the draft is gone, neither goes on.
pub proof fn a_draft_is_uploaded_as_it_is(
    v: VfsView,
    path: Seq<char>,
    timed: bool,
    first: Option<String>,
    u: VfsView,
    second: Option<(DraftMeta, UploadParams)>,
    w: VfsView,
    other: Seq<char>,
)
    requires
        crate::vfs::upload::upload_starts(v, path, timed, first, u),
        crate::vfs::upload::upload_marked(v, path, timed, second, w),
    ensures
        ({
            let k = crate::drafts::path_hash(path);
            let d = v.drafts[k];
            &&& first is Some <==> v.drafts.contains_key(k)
            &&& second is Some <==> v.drafts.contains_key(k)
            &&& first matches Some(etag) ==> etag@ == d.base_etag && u.queue.in_flight.contains(path)
            &&& first is None ==> u.queue.busy == v.queue.busy - 1 && !u.queue.in_flight.contains(path)
            &&& second is None ==> w.queue.busy == v.queue.busy - 1 && !w.queue.in_flight.contains(
                path,
            )
            &&& u.drafts == v.drafts
            &&& second matches Some(p) ==> {
                &&& content_stays(v, w, k)
                &&& w.drafts[k].state == DraftState::Uploading
                &&& w.drafts[k].base_etag == d.base_etag
                &&& p.0.state == DraftState::Uploading
                &&& p.0.size == d.size
                &&& p.1.file_size == d.size
                &&& p.1.stamp == d.stamp
                &&& p.1.local_path@ == v.draft_root + seq!['/'] + k + seq!['/'] + "data"@
                &&& w.queue == v.queue
            }
            &&& others_stay(v, w, k, other)
        }),
{
}

/// Once the file's current version is known, the draft is tried under its own path if and only if that is
/// the version that it began at, and otherwise under another, where nothing is replaced; where it is gone
/// the upload ends. Either way the draft is marked, with what is drafted unchanged.
pub proof fn the_first_try_never_overwrites_a_changed_file(
    r: Next,
    v: VfsView,
    w: VfsView,
    path: Seq<char>,
    base: Seq<char>,
    current: Seq<char>,
    date: Seq<char>,
    timed: bool,
    other: Seq<char>,
)
    requires
        base.len() > 0,
        crate::vfs::cycle::is_first_try(r, v, path, base, Some(current), date),
        w == crate::vfs::cycle::aimed_state(v, path, timed),
    ensures
        ({
            let k = crate::drafts::path_hash(path);
            let d = v.drafts[k];
            &&& (r matches Next::Over(Ended::Gone)) <==> !v.drafts.contains_key(k)
            &&& v.drafts.contains_key(k) ==> {
                &&& r matches Next::Upload(t, Some(m))
                &&& t.path@ == path
                &&& t.target.uri@ == path <==> current == base
                &&& t.target.overwrite <==> current == base
                &&& current == base ==> t.target.previous_version@ == base
                &&& t.attempts.failed == 0
                &&& t.attempts.conflict_no == t.target.conflict_no
                &&& t.target.conflict_no == 0 <==> current == base
                &&& t.params.file_size == d.size
                &&& t.params.stamp == d.stamp
                &&& m.state == DraftState::Uploading
                &&& m.size == d.size
                &&& content_stays(v, w, k)
                &&& w.drafts[k].state == DraftState::Uploading
                &&& w.drafts[k].base_etag == d.base_etag
                &&& w.queue == v.queue
            }
            &&& others_stay(v, w, k, other)
        }),
{
    if let Next::Upload(t, m) = r {
        if v.drafts.contains_key(crate::drafts::path_hash(path)) {
            crate::writeback_laws::a_changed_file_is_never_overwritten(
                t.target,
                path,
                base,
                current,
                date,
            );
        }
    }
}

/// A draft that began at no version, or whose file's current version could not be learned, is tried under its
/// own path first, over the version that it began at, if any.
pub proof fn the_first_try_is_in_place_where_nothing_is_known_to_have_changed(
    r: Next,
    v: VfsView,
    path: Seq<char>,
    base: Seq<char>,
    current: Option<Seq<char>>,
    date: Seq<char>,
)
    requires
        base.len() == 0 || current is None,
        v.drafts.contains_key(crate::drafts::path_hash(path)),
        crate::vfs::cycle::is_first_try(r, v, path, base, current, date),
    ensures
        r matches Next::Upload(t, Some(m)) && t.path@ == path && t.target.uri@ == path
            && t.target.previous_version@ == base && t.target.overwrite == (base.len() > 0)
            && t.target.conflict_no == 0 && t.attempts.failed == 0 && t.attempts.conflict_no == 0,
{
    if let Next::Upload(t, m) = r {
        crate::writeback_laws::without_two_versions_nothing_conflicts(
            t.target,
            path,
            base,
            current,
            date,
        );
    }
}

// ---------------------------------------------------------------------------
// Trying.
// ---------------------------------------------------------------------------

/// What comes of a try that landed: in place, the version that it made is to be learned, of the draft as it
/// was uploaded, and nothing changed yet; as a copy, the upload is over and reported as saved there.
pub proof fn what_landed_is_learned_or_saved(
    r: Next,
    v: VfsView,
    w: VfsView,
    t: Trying,
    error: Seq<char>,
    date: Seq<char>,
)
    requires
        crate::vfs::cycle::is_reply(r, v, w, t, UploadReply::Landed, error, date),
    ensures
        t.target.conflict_no == 0 ==> w == v && (r matches Next::Learn(l) && l.path@ == t.path@
            && l.stamp == t.params.stamp),
        t.target.conflict_no > 0 ==> {
            let k = crate::drafts::path_hash(t.path@);
            let report = EventView::ConflictSaved {
                original: t.path@,
                conflict_copy: t.target.uri@,
            };
            &&& r matches Next::Over(Ended::Saved { fate })
            &&& w.queue.events.len() > v.queue.events.len()
            &&& w.queue.events[v.queue.events.len() as int] == report
            &&& !w.queue.in_flight.contains(t.path@)
            &&& w.drafts.contains_key(k) <==> v.drafts.contains_key(k) && v.drafts[k].stamp
                != t.params.stamp
            &&& w.drafts.contains_key(k) ==> w.drafts[k].base_etag == v.drafts[k].base_etag
            &&& fate is Gone <==> !v.drafts.contains_key(k)
            &&& fate is Kept <==> w.drafts.contains_key(k)
        },
{
}

/// A try that failed and is not the last is repeated after a wait: the same draft, aimed at the same place.
/// A copy whose name is taken is tried at once under another name beside the file, replacing nothing.
/// Neither changes anything.
pub proof fn a_repeated_try_keeps_its_draft(
    r: Next,
    v: VfsView,
    w: VfsView,
    t: Trying,
    reply: UploadReply,
    error: Seq<char>,
    date: Seq<char>,
)
    requires
        reply != UploadReply::Landed,
        crate::vfs::cycle::is_reply(r, v, w, t, reply, error, date),
    ensures
        ({
            let taken = reply == UploadReply::Collision && 0 < t.attempts.conflict_no < u32::MAX;
            &&& taken ==> w == v && (r matches Next::Upload(n, m) && m is None && n.path == t.path
                && n.params == t.params && n.target.uri@ != t.path@ && !n.target.overwrite
                && n.target.conflict_no == t.attempts.conflict_no + 1 && n.attempts.failed
                == t.attempts.failed)
            &&& !taken && t.attempts.failed + 1 < UPLOAD_RETRIES ==> w == v && (r matches Next::Wait(
                n,
                millis,
            ) && n.path == t.path && n.params == t.params && n.target == t.target
                && n.attempts.failed == t.attempts.failed + 1 && (t.attempts.failed == 0 ==> millis
                == v.queue.first_backoff_millis) && (t.attempts.failed == 1 ==> millis
                == v.queue.second_backoff_millis))
        }),
{
    if let Next::Upload(n, m) = r {
        crate::writeback_laws::a_copy_stays_beside_the_file(
            t.path@,
            date,
            n.target.conflict_no,
        );
    }
}

/// A draft of which every try failed is never lost: it waits again, with what is drafted and the version
/// that it began at unchanged, and the failure is reported as one that will be tried again.
pub proof fn a_failed_upload_loses_nothing(
    r: Next,
    v: VfsView,
    w: VfsView,
    t: Trying,
    reply: UploadReply,
    error: Seq<char>,
    date: Seq<char>,
    other: Seq<char>,
)
    requires
        reply == UploadReply::Failed || reply == UploadReply::Collision && t.attempts.conflict_no == 0,
        t.attempts.failed + 1 >= UPLOAD_RETRIES,
        crate::vfs::cycle::is_reply(r, v, w, t, reply, error, date),
    ensures
        ({
            let k = crate::drafts::path_hash(t.path@);
            &&& r matches Next::Over(Ended::Failed { meta })
            &&& meta is Some <==> v.drafts.contains_key(k)
            &&& meta matches Some(m) ==> m.state == DraftState::Pending && m.size == v.drafts[k].size
                && m.base_etag@ == v.drafts[k].base_etag
            &&& v.drafts.contains_key(k) ==> content_stays(v, w, k) && w.drafts[k].state
                == DraftState::Pending && w.drafts[k].base_etag == v.drafts[k].base_etag
            &&& !v.drafts.contains_key(k) ==> w.drafts == v.drafts
            &&& others_stay(v, w, k, other)
            &&& w.queue.events == v.queue.events.push(
                EventView::UploadFailed { remote_path: t.path@, error, will_retry: true },
            )
            &&& w.queue.timers == v.queue.timers
            &&& w.queue.busy == v.queue.busy - 1
            &&& !w.queue.in_flight.contains(t.path@)
        }),
{
    let report = EventView::UploadFailed { remote_path: t.path@, error, will_retry: true };
    assert(v.queue.events + seq![report] =~= v.queue.events.push(report));
}

/// The same of the step that ends such an upload.
pub proof fn a_failure_parks_the_draft(
    v: VfsView,
    path: Seq<char>,
    error: Seq<char>,
    r: Option<DraftMeta>,
    w: VfsView,
    other: Seq<char>,
)
    requires
        crate::vfs::upload::failure_parks(v, path, error, r, w),
    ensures
        ({
            let k = crate::drafts::path_hash(path);
            &&& r is Some <==> v.drafts.contains_key(k)
            &&& r matches Some(m) ==> m.state == DraftState::Pending && m.size == v.drafts[k].size
            &&& v.drafts.contains_key(k) ==> content_stays(v, w, k) && w.drafts[k].state
                == DraftState::Pending && w.drafts[k].base_etag == v.drafts[k].base_etag
            &&& others_stay(v, w, k, other)
            &&& w.queue.busy == v.queue.busy - 1
            &&& w.queue.timers == v.queue.timers
        }),
{
}

// ---------------------------------------------------------------------------
// Ending.
// ---------------------------------------------------------------------------

/// What becomes of a draft whose upload landed: it is gone if and only if it is, stamp for stamp, what was
/// uploaded. One that was written to meanwhile stays, with what is drafted, waits with its timer armed, and
/// begins from then on at the version that the upload made, where that is known. What is to be done on disk
/// says the same.
pub proof fn a_draft_goes_if_and_only_if_it_was_uploaded(
    v: VfsView,
    path: Seq<char>,
    stamp: u64,
    base: Option<Seq<char>>,
    event: EventView,
    fate: DraftFate,
    other: Seq<char>,
)
    requires
        crate::vfs::upload::is_fate(fate, v, path, stamp, base),
    ensures
        ({
            let w = crate::vfs::upload::settled(v, path, stamp, base, event);
            let k = crate::drafts::path_hash(path);
            let drafted = v.drafts.contains_key(k);
            let done = drafted && v.drafts[k].stamp == stamp;
            &&& w.drafts.contains_key(k) <==> drafted && !done
            &&& drafted && !done ==> {
                &&& content_stays(v, w, k)
                &&& w.drafts[k].state == DraftState::Pending
                &&& w.queue.timers == v.queue.timers.insert(path)
                &&& base matches Some(etag) ==> w.drafts[k].base_etag == etag
                &&& base is None ==> w.drafts[k].base_etag == v.drafts[k].base_etag
            }
            &&& !drafted || done ==> w.queue.timers == v.queue.timers && w.queue.busy == v.queue.busy - 1
            &&& others_stay(v, w, k, other)
            &&& !w.queue.in_flight.contains(path)
            &&& fate is Gone <==> !drafted
            &&& fate is Removed <==> done
            &&& fate matches DraftFate::Kept { meta } ==> meta.size == v.drafts[k].size && meta.state
                == DraftState::Pending && meta.base_etag@ == w.drafts[k].base_etag
            &&& fate matches DraftFate::Removed { dir } ==> dir@ == v.draft_root + seq!['/'] + k
        }),
{
}

/// An upload that landed in place ends with a report of the version that it made; a draft that was written
/// to meanwhile begins at that version, where one was learned, and at the version that it began at
/// otherwise. Nothing of the path stays cached, and what is to be deleted of the cache is just that.
pub proof fn a_landed_upload_is_reported_with_its_version(
    v: VfsView,
    l: Landed,
    new_etag: Option<String>,
    r: Next,
    w: VfsView,
    k: Seq<char>,
)
    requires
        crate::vfs::cycle::upload_learned(v, l, new_etag, r, w),
    ensures
        ({
            let key = crate::drafts::path_hash(l.path@);
            let etag = if new_etag is Some {
                new_etag->0@
            } else {
                Seq::empty()
            };
            &&& r matches Next::Over(Ended::Landed { fate, purged })
            &&& fate is Gone <==> !v.drafts.contains_key(key)
            &&& fate is Kept <==> w.drafts.contains_key(key)
            &&& crate::text::texts(purged@).no_duplicates()
            &&& w.queue.events.len() > v.queue.events.len()
            &&& w.queue.events[v.queue.events.len() as int] == (EventView::UploadSucceeded {
                remote_path: l.path@,
                new_etag: etag,
            })
            &&& w.drafts.contains_key(key) <==> v.drafts.contains_key(key) && v.drafts[key].stamp
                != l.stamp
            &&& w.drafts.contains_key(key) && etag.len() > 0 ==> w.drafts[key].base_etag == etag
            &&& w.drafts.contains_key(key) && etag.len() == 0 ==> w.drafts[key].base_etag
                == v.drafts[key].base_etag
            &&& w.cached.contains_key(k) <==> v.cached.contains_key(k) && v.cached[k].remote_path
                != l.path@
            &&& w.cached.contains_key(k) ==> w.cached[k] == v.cached[k]
            &&& crate::text::texts(purged@).contains(k) <==> v.cached.contains_key(k)
                && v.cached[k].remote_path == l.path@
        }),
{
}

// ---------------------------------------------------------------------------
// Trying again.
// ---------------------------------------------------------------------------

/// Trying again tries no draft that is being edited and none that is being uploaded, and changes neither.
pub proof fn retrying_leaves_edited_and_uploading_drafts_alone(
    v: VfsView,
    paths: Seq<Seq<char>>,
    p: Seq<char>,
)
    requires
        crate::vfs_laws::well_named(v.drafts),
        crate::drafts::lists_waiting(v.drafts, paths),
        v.drafts.contains_key(crate::drafts::path_hash(p)),
        v.drafts[crate::drafts::path_hash(p)].remote_path == p,
        ({
            let d = v.drafts[crate::drafts::path_hash(p)];
            d.state == DraftState::Editing || (d.state == DraftState::Uploading
                && v.queue.in_flight.contains(p))
        }),
    ensures
        ({
            let n = paths.len() as int;
            let k = crate::drafts::path_hash(p);
            let after = crate::vfs::upload::unstranded(v.drafts, v.queue.in_flight, paths, n);
            &&& !crate::vfs::upload::ready(v.drafts, v.queue.in_flight, paths, n).contains(p)
            &&& !crate::vfs::upload::stranded(v.drafts, v.queue.in_flight, paths, n).contains(p)
            &&& after.contains_key(k)
            &&& after[k] == v.drafts[k]
        }),
{
    let k = crate::drafts::path_hash(p);
    crate::drafts::lemma_lists_waiting(v.drafts, paths);
    assert forall|i: int|
        0 <= i < paths.len() && crate::drafts::path_hash(#[trigger] paths[i]) == k implies paths[i]
        == p by {
        assert(paths.contains(paths[i]));
        let j = choose|j: Seq<char>| #[trigger]
            v.drafts.contains_key(j) && v.drafts[j].remote_path == paths[i]
                && crate::drafts::is_waiting(v.drafts[j].state);
        assert(j == crate::drafts::path_hash(paths[i]));
    }
    lemma_left_alone(v.drafts, v.queue.in_flight, paths, paths.len() as int, p);
}

proof fn lemma_left_alone(
    drafts: Map<Seq<char>, crate::drafts::DraftView>,
    in_flight: Set<Seq<char>>,
    paths: Seq<Seq<char>>,
    n: int,
    p: Seq<char>,
)
    requires
        0 <= n <= paths.len(),
        drafts.contains_key(crate::drafts::path_hash(p)),
        ({
            let d = drafts[crate::drafts::path_hash(p)];
            d.state == DraftState::Editing || (d.state == DraftState::Uploading && in_flight.contains(p)
                && forall|i: int|
                0 <= i < paths.len() && crate::drafts::path_hash(#[trigger] paths[i])
                    == crate::drafts::path_hash(p) ==> paths[i] == p)
        }),
    ensures
        ({
            let k = crate::drafts::path_hash(p);
            let m = crate::vfs::upload::unstranded(drafts, in_flight, paths, n);
            &&& m.contains_key(k)
            &&& m[k] == drafts[k]
            &&& !crate::vfs::upload::ready(drafts, in_flight, paths, n).contains(p)
            &&& !crate::vfs::upload::stranded(drafts, in_flight, paths, n).contains(p)
        }),
    decreases n,
{
    if n > 0 {
        lemma_left_alone(drafts, in_flight, paths, n - 1, p);
        let last = paths[n - 1];
        let a0 = crate::vfs::upload::ready(drafts, in_flight, paths, n - 1);
        let b0 = crate::vfs::upload::stranded(drafts, in_flight, paths, n - 1);
        let a = crate::vfs::upload::ready(drafts, in_flight, paths, n);
        let b = crate::vfs::upload::stranded(drafts, in_flight, paths, n);
        if a.contains(p) {
            let i = choose|i: int| 0 <= i < a.len() && a[i] == p;
            if i < a0.len() {
                assert(a0[i] == p);
            }
        }
        if b.contains(p) {
            let i = choose|i: int| 0 <= i < b.len() && b[i] == p;
            if i < b0.len() {
                assert(b0[i] == p);
            }
        }
    }
}

/// What trying again hands out is what it found: every draft that waits and is not being uploaded is among
/// it, one way or the other, and what is to be recorded of one that was stranded is that it waits, with what
/// is drafted as it is.
pub proof fn retrying_hands_out_what_waits(
    v: VfsView,
    r: Retry,
    w: VfsView,
    paths: Seq<Seq<char>>,
    k: Seq<char>,
    p: (String, DraftMeta),
)
    requires
        crate::vfs_laws::well_named(v.drafts),
        crate::drafts::lists_waiting(v.drafts, paths),
        crate::vfs::upload::found_in(r, v, paths),
        v.drafts.contains_key(k),
        v.drafts[k].state != DraftState::Editing,
        v.drafts[k].state == DraftState::Uploading ==> !v.queue.in_flight.contains(
            v.drafts[k].remote_path,
        ),
        crate::vfs::upload::is_recorded(w, p),
    ensures
        ({
            let path = v.drafts[k].remote_path;
            &&& crate::text::texts(r.ready@).contains(path) || crate::vfs::upload::recovered_paths(
                r.stranded@,
            ).contains(path)
        }),
        ({
            let d = w.drafts[crate::drafts::path_hash(p.0@)];
            &&& w.drafts.contains_key(crate::drafts::path_hash(p.0@))
            &&& d.state == DraftState::Pending
            &&& p.1.state == DraftState::Pending
            &&& p.1.size == d.size
            &&& p.1.base_etag@ == d.base_etag
        }),
{
    crate::vfs_laws::retrying_finds_every_waiting_draft(v, paths, k);
}

// ---------------------------------------------------------------------------
// Cycles.
// ---------------------------------------------------------------------------

/// A timer that fired is armed no more, and no other timer is touched; its cycle stays open, so that what
/// comes of it is still to be reported.
pub proof fn a_fired_timer_leaves_its_cycle_open(
    v: VfsView,
    path: Seq<char>,
    w: VfsView,
    other: Seq<char>,
)
    requires
        crate::vfs::upload::timer_fired(v, path, w),
    ensures
        !w.queue.timers.contains(path),
        other != path ==> (w.queue.timers.contains(other) <==> v.queue.timers.contains(other)),
        w.queue.busy == v.queue.busy,
        w.queue.events == v.queue.events,
        w.queue.in_flight == v.queue.in_flight,
        w.drafts == v.drafts,
{
}

/// A cycle is opened for each path that is to be tried, and reported as queued; none gets a timer.
pub proof fn a_cycle_is_opened_for_each_path(v: VfsView, paths: Seq<String>, r: usize, w: VfsView, i: int)
    requires
        crate::vfs::upload::cycles_opened(v, paths, r, w),
        0 <= i < paths.len(),
    ensures
        r == paths.len(),
        w.queue.busy == v.queue.busy + paths.len(),
        w.queue.timers == v.queue.timers,
        w.queue.in_flight == v.queue.in_flight,
        w.queue.events.len() == v.queue.events.len() + paths.len(),
        w.queue.events[v.queue.events.len() + i] == (EventView::UploadQueued {
            remote_path: paths[i]@,
        }),
        w.drafts == v.drafts,
{
    let texts = crate::text::texts(paths);
    lemma_enqueued(v.queue, texts, paths.len() as int, i);
    assert(texts[i] == paths[i]@);
}

proof fn lemma_enqueued(q: crate::writeback::QueueView, paths: Seq<Seq<char>>, n: int, i: int)
    requires
        0 <= n <= paths.len(),
    ensures
        ({
            let p = crate::writeback::enqueued(q, paths, n);
            &&& p.busy == q.busy + n
            &&& p.timers == q.timers
            &&& p.in_flight == q.in_flight
            &&& p.events.len() == q.events.len() + n
            &&& 0 <= i < n ==> p.events[q.events.len() + i] == (EventView::UploadQueued {
                remote_path: paths[i],
            })
        }),
    decreases n,
{
    if n > 0 {
        lemma_enqueued(q, paths, n - 1, i);
    }
}

/// An upload that landed as a copy leaves the version that the draft began at as it is, and is reported as
/// saved there. Both directories are listed again before they are read: what holds the copy and what holds
/// the file.
pub proof fn a_saved_copy_is_reported_and_listed(
    v: VfsView,
    path: Seq<char>,
    stamp: u64,
    copy: Seq<char>,
    fate: DraftFate,
    w: VfsView,
    node: u64,
    now: u64,
)
    requires
        crate::vfs::upload::conflict_settles(v, path, stamp, copy, fate, w),
        v.tree.attrs.contains_key(node),
        v.tree.attrs[node].is_dir,
        ({
            let holds_copy = crate::text::rsplit_once_at(copy, '/') matches Some(p)
                && v.tree.attrs[node].remote_path == p.0;
            let holds_file = crate::text::rsplit_once_at(path, '/') matches Some(p)
                && v.tree.attrs[node].remote_path == p.0;
            holds_copy || holds_file
        }),
    ensures
        ({
            let k = crate::drafts::path_hash(path);
            let done = v.drafts.contains_key(k) && v.drafts[k].stamp == stamp;
            &&& !crate::tree::is_fresh(w.tree, node, now)
            &&& w.queue.events.len() > v.queue.events.len()
            &&& w.queue.events[v.queue.events.len() as int] == (EventView::ConflictSaved {
                original: path,
                conflict_copy: copy,
            })
            &&& w.drafts.contains_key(k) <==> v.drafts.contains_key(k) && !done
            &&& w.drafts.contains_key(k) ==> w.drafts[k].base_etag == v.drafts[k].base_etag
                && content_stays(v, w, k)
            &&& fate is Removed <==> done
            &&& w.cached == v.cached
        }),
{
    let t = crate::tree::invalidated(v.tree, copy);
    crate::tree_laws::invalidation_forces_a_new_listing(v.tree, copy, node, now);
    if t.attrs.contains_key(node) {
        crate::tree_laws::invalidation_forces_a_new_listing(t, path, node, now);
    }
}

/// The step that ends an upload that landed in place says the same as the whole.
pub proof fn a_landing_settles_its_draft(
    v: VfsView,
    path: Seq<char>,
    stamp: u64,
    new_etag: Seq<char>,
    r: (DraftFate, Vec<String>),
    w: VfsView,
    k: Seq<char>,
)
    requires
        crate::vfs::upload::landing_settles(v, path, stamp, new_etag, r, w),
    ensures
        ({
            let key = crate::drafts::path_hash(path);
            let done = v.drafts.contains_key(key) && v.drafts[key].stamp == stamp;
            &&& w.drafts.contains_key(key) <==> v.drafts.contains_key(key) && !done
            &&& w.drafts.contains_key(key) ==> w.drafts[key].base_etag == (if new_etag.len() > 0 {
                new_etag
            } else {
                v.drafts[key].base_etag
            })
            &&& r.0 is Removed <==> done
            &&& crate::text::texts(r.1@).no_duplicates()
            &&& w.queue.events[v.queue.events.len() as int] == (EventView::UploadSucceeded {
                remote_path: path,
                new_etag,
            })
            &&& crate::text::texts(r.1@).contains(k) <==> v.cached.contains_key(k)
                && v.cached[k].remote_path == path
            &&& w.cached.contains_key(k) <==> v.cached.contains_key(k) && v.cached[k].remote_path != path
        }),
{
}

/// At the start every draft that was left waiting is queued, and no other; no timer is armed and nothing is
/// being uploaded; and of the files nothing is known yet but the directory that they all lie in.
pub proof fn what_was_left_waiting_is_queued_at_the_start(
    w: VfsView,
    remote_base: Seq<char>,
    waiting: Seq<Seq<char>>,
    p: Seq<char>,
    node: u64,
)
    requires
        crate::vfs::starts_with(w, remote_base, waiting),
    ensures
        waiting.contains(p) <==> exists|k: Seq<char>| #[trigger]
            w.drafts.contains_key(k) && w.drafts[k].remote_path == p && w.drafts[k].state
                != DraftState::Editing,
        w.queue.busy == waiting.len(),
        w.queue.events.len() == waiting.len(),
        !w.queue.timers.contains(p),
        !w.queue.in_flight.contains(p),
        w.tree.attrs.contains_key(node) <==> node == crate::tree::ROOT_ID,
        w.tree.attrs[crate::tree::ROOT_ID].remote_path == remote_base,
        w.tree.attrs[crate::tree::ROOT_ID].is_dir,
        !w.tree.listed_at.contains_key(node),
{
    crate::drafts_laws::every_draft_that_is_not_edited_is_listed(w.drafts, waiting, p);
    lemma_enqueued(crate::writeback::idle_queue(), waiting, waiting.len() as int, 0);
}

} // verus!
