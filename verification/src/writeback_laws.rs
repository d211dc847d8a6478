//! What holds of the write-back queue and its uploads over several operations.

use vstd::multiset::Multiset;
use vstd::prelude::*;

use crate::writeback::{
    EventView, QueueView, UploadAttempts, UploadParams, UploadReply, UploadStep, UploadTarget,
    UPLOAD_RETRIES,
};

verus! {

// ---------------------------------------------------------------------------
// Reports.
// ---------------------------------------------------------------------------

/// Whether the report opens a cycle for `path`.
pub open spec fn opens(e: EventView, path: Seq<char>) -> bool {
    e == (EventView::UploadQueued { remote_path: path })
}

/// Whether the report closes a cycle for `path`.
pub open spec fn closes(e: EventView, path: Seq<char>) -> bool {
    match e {
        EventView::UploadQueued { .. } => false,
        EventView::UploadSucceeded { remote_path, .. } => remote_path == path,
        EventView::UploadFailed { remote_path, .. } => remote_path == path,
        EventView::UploadCancelled { remote_path } => remote_path == path,
        EventView::UploadRenamed { from, .. } => from == path,
        EventView::ConflictSaved { original, .. } => original == path,
    }
}

/// Number of cycles of `path` that the reports opened and did not close.
pub open spec fn open_cycles(events: Seq<EventView>, path: Seq<char>) -> int
    decreases events.len(),
{
    if events.len() == 0 {
        0
    } else {
        let rest = open_cycles(events.drop_last(), path);
        if opens(events.last(), path) {
            rest + 1
        } else if closes(events.last(), path) {
            rest - 1
        } else {
            rest
        }
    }
}

/// Number of cycles of any path that the reports opened and did not close.
pub open spec fn all_open_cycles(events: Seq<EventView>) -> int
    decreases events.len(),
{
    if events.len() == 0 {
        0
    } else if events.last() is UploadQueued {
        all_open_cycles(events.drop_last()) + 1
    } else {
        all_open_cycles(events.drop_last()) - 1
    }
}

proof fn lemma_push(events: Seq<EventView>, e: EventView, path: Seq<char>)
    ensures
        open_cycles(events.push(e), path) == open_cycles(events, path) + (if opens(e, path) {
            1int
        } else if closes(e, path) {
            -1
        } else {
            0
        }),
        all_open_cycles(events.push(e)) == all_open_cycles(events) + (if e is UploadQueued {
            1int
        } else {
            -1
        }),
{
    assert(events.push(e).drop_last() =~= events);
}

/// Whether the reports account for the open cycles as before: what was opened and not closed changed by
/// as much as the number of open cycles and the number of those that ended without a report.
pub open spec fn accounts(before: QueueView, after: QueueView, silent: int) -> bool {
    all_open_cycles(after.events) - after.busy == all_open_cycles(before.events) - before.busy + silent
}

/// A parked draft opens one cycle, of its path.
pub proof fn arming_opens_one_cycle(q: QueueView, path: Seq<char>, other: Seq<char>)
    ensures
        accounts(q, crate::writeback::armed(q, path), 0),
        open_cycles(crate::writeback::armed(q, path).events, other) == open_cycles(q.events, other)
            + (if other == path {
            1int
        } else {
            0
        }),
{
    lemma_push(q.events, EventView::UploadQueued { remote_path: path }, other);
}

/// A cancelled cycle is reported closed, once, where its timer was armed; otherwise nothing happens.
pub proof fn cancelling_closes_the_cycle(q: QueueView, path: Seq<char>, other: Seq<char>)
    ensures
        accounts(q, crate::writeback::cancelled(q, path), 0),
        open_cycles(crate::writeback::cancelled(q, path).events, other) == open_cycles(
            q.events,
            other,
        ) - (if q.timers.contains(path) && other == path {
            1int
        } else {
            0
        }),
{
    lemma_push(q.events, EventView::UploadCancelled { remote_path: path }, other);
}

/// A cycle that goes on under another path is reported closed under the old one and open under the new
/// one.
pub proof fn a_renamed_cycle_goes_on(
    q: QueueView,
    from: Seq<char>,
    to: Seq<char>,
    other: Seq<char>,
)
    requires
        from != to,
    ensures
        accounts(q, crate::writeback::migrated(q, from, to), 0),
        q.timers.contains(from) ==> open_cycles(
            crate::writeback::migrated(q, from, to).events,
            other,
        ) == open_cycles(q.events, other) + (if other == to {
            1int
        } else if other == from {
            -1
        } else {
            0
        }),
{
    let e = EventView::UploadRenamed { from, to };
    lemma_push(q.events, e, other);
    lemma_push(q.events.push(e), EventView::UploadQueued { remote_path: to }, other);
}

/// How often `path` occurs among the first `n` of `paths`.
pub open spec fn occurrences(paths: Seq<Seq<char>>, n: int, path: Seq<char>) -> int
    decreases n,
{
    if n <= 0 {
        0
    } else {
        occurrences(paths, n - 1, path) + (if paths[n - 1] == path {
            1int
        } else {
            0
        })
    }
}

/// Drafts that are tried again each open one cycle, of their paths.
pub proof fn retrying_opens_a_cycle_each(
    q: QueueView,
    paths: Seq<Seq<char>>,
    n: int,
    other: Seq<char>,
)
    requires
        0 <= n <= paths.len(),
    ensures
        accounts(q, crate::writeback::enqueued(q, paths, n), 0),
        crate::writeback::enqueued(q, paths, n).busy == q.busy + n,
        crate::writeback::enqueued(q, paths, n).timers == q.timers,
        open_cycles(crate::writeback::enqueued(q, paths, n).events, other) == open_cycles(
            q.events,
            other,
        ) + occurrences(paths, n, other),
    decreases n,
{
    if n > 0 {
        retrying_opens_a_cycle_each(q, paths, n - 1, other);
        lemma_push(
            crate::writeback::enqueued(q, paths, n - 1).events,
            EventView::UploadQueued { remote_path: paths[n - 1] },
            other,
        );
    }
}

/// A cycle that ends with a closing report is closed by it, once.
pub proof fn every_end_closes_the_cycle(
    q: QueueView,
    path: Seq<char>,
    report: EventView,
    other: Seq<char>,
)
    requires
        closes(report, path),
    ensures
        accounts(q, crate::writeback::ended(q, path, seq![report]), 0),
        open_cycles(crate::writeback::ended(q, path, seq![report]).events, other) == open_cycles(
            q.events,
            other,
        ) - (if other == path {
            1int
        } else {
            0
        }),
{
    assert(q.events + seq![report] =~= q.events.push(report));
    lemma_push(q.events, report, other);
}

/// A cycle whose draft is gone is closed by a report where it had a timer; otherwise it stays open in the
/// reports.
pub proof fn only_a_cycle_without_a_timer_ends_silently(
    q: QueueView,
    path: Seq<char>,
    timed: bool,
    other: Seq<char>,
)
    ensures
        accounts(
            q,
            crate::writeback::given_up(q, path, timed),
            if timed {
                0
            } else {
                1
            },
        ),
        open_cycles(crate::writeback::given_up(q, path, timed).events, other) == open_cycles(
            q.events,
            other,
        ) - (if timed && other == path {
            1int
        } else {
            0
        }),
{
    if timed {
        every_end_closes_the_cycle(
            q,
            path,
            EventView::UploadCancelled { remote_path: path },
            other,
        );
    } else {
        assert(q.events + Seq::<EventView>::empty() =~= q.events);
    }
}

// ---------------------------------------------------------------------------
// Reports over a history.
// ---------------------------------------------------------------------------

/// How far a cycle is.
pub enum Stage {
    /// Its timer is armed.
    Armed,
    /// Its timer fired; its upload waits or is under way.
    Fired,
    /// It never had a timer: its draft is tried again, or was left waiting at the start. Its upload waits or
    /// is under way.
    Untimed,
}

/// A cycle that is under way.
pub struct Cycle {
    pub path: Seq<char>,
    pub stage: Stage,
}

/// A cycle of `path` whose upload waits or is under way.
pub open spec fn due(path: Seq<char>, timed: bool) -> Cycle {
    Cycle {
        path,
        stage: if timed {
            Stage::Fired
        } else {
            Stage::Untimed
        },
    }
}

/// A cycle of `path` whose timer is armed.
pub open spec fn waiting(path: Seq<char>) -> Cycle {
    Cycle { path, stage: Stage::Armed }
}

/// What can happen to the queue.
pub enum QueueStep {
    Arm { path: Seq<char> },
    Cancel { path: Seq<char> },
    Rename { from: Seq<char>, to: Seq<char> },
    Retry { paths: Seq<Seq<char>> },
    /// A timer fires.
    Fire { path: Seq<char> },
    /// The upload of a cycle begins.
    Start { path: Seq<char> },
    /// A cycle ends with a report that closes it.
    Report { path: Seq<char>, timed: bool, report: EventView },
    /// A cycle ends because its draft is gone.
    GiveUp { path: Seq<char>, timed: bool },
}

/// The queue after a step.
pub open spec fn queue_after(q: QueueView, step: QueueStep) -> QueueView {
    match step {
        QueueStep::Arm { path } => crate::writeback::armed(q, path),
        QueueStep::Cancel { path } => crate::writeback::cancelled(q, path),
        QueueStep::Rename { from, to } => crate::writeback::migrated(q, from, to),
        QueueStep::Retry { paths } => crate::writeback::enqueued(q, paths, paths.len() as int),
        QueueStep::Fire { path } => QueueView { timers: q.timers.remove(path), ..q },
        QueueStep::Start { path } => crate::writeback::started(q, path),
        QueueStep::Report { path, report, .. } => crate::writeback::ended(q, path, seq![report]),
        QueueStep::GiveUp { path, timed } => crate::writeback::given_up(q, path, timed),
    }
}

/// The queue after the steps, one by one, none of its reports taken.
pub open spec fn queue_after_all(q: QueueView, steps: Seq<QueueStep>) -> QueueView
    decreases steps.len(),
{
    if steps.len() == 0 {
        q
    } else {
        queue_after(queue_after_all(q, steps.drop_last()), steps.last())
    }
}

/// The cycles with one more for each of the first `n` paths, none with a timer.
pub open spec fn with_untimed(c: Multiset<Cycle>, paths: Seq<Seq<char>>, n: int) -> Multiset<Cycle>
    decreases n,
{
    if n <= 0 {
        c
    } else {
        with_untimed(c, paths, n - 1).insert(due(paths[n - 1], false))
    }
}

/// The cycles that are under way after a step, given the queue before it.
pub open spec fn cycles_after(c: Multiset<Cycle>, q: QueueView, step: QueueStep) -> Multiset<Cycle> {
    match step {
        QueueStep::Arm { path } => c.insert(waiting(path)),
        QueueStep::Cancel { path } => if q.timers.contains(path) {
            c.remove(waiting(path))
        } else {
            c
        },
        QueueStep::Rename { from, to } => if q.timers.contains(from) {
            c.remove(waiting(from)).insert(waiting(to))
        } else {
            c
        },
        QueueStep::Retry { paths } => with_untimed(c, paths, paths.len() as int),
        QueueStep::Fire { path } => c.remove(waiting(path)).insert(due(path, true)),
        QueueStep::Start { .. } => c,
        QueueStep::Report { path, timed, .. } => c.remove(due(path, timed)),
        QueueStep::GiveUp { path, timed } => c.remove(due(path, timed)),
    }
}

/// The cycles that are under way after the steps.
pub open spec fn cycles_after_all(steps: Seq<QueueStep>) -> Multiset<Cycle>
    decreases steps.len(),
{
    if steps.len() == 0 {
        Multiset::empty()
    } else {
        let rest = steps.drop_last();
        cycles_after(
            cycles_after_all(rest),
            queue_after_all(crate::writeback::idle_queue(), rest),
            steps.last(),
        )
    }
}

/// Number of cycles of `path` that are under way.
pub open spec fn under_way(c: Multiset<Cycle>, path: Seq<char>) -> nat {
    c.count(waiting(path)) + c.count(due(path, true)) + c.count(due(path, false))
}

/// Whether the step is one that can follow: a path is renamed to another one, a timer fires that is armed,
/// an upload begins and ends only for a cycle whose timer fired or that never had one, and a report closes
/// the cycle that it is about.
pub open spec fn can_follow(c: Multiset<Cycle>, q: QueueView, step: QueueStep) -> bool {
    match step {
        QueueStep::Rename { from, to } => from != to,
        QueueStep::Fire { path } => q.timers.contains(path),
        QueueStep::Start { path } => c.count(due(path, true)) + c.count(due(path, false)) > 0,
        QueueStep::Report { path, timed, report } => closes(report, path) && c.count(due(path, timed))
            > 0,
        QueueStep::GiveUp { path, timed } => c.count(due(path, timed)) > 0,
        _ => true,
    }
}

/// Whether the steps can follow each other, from a queue in which nothing happened yet.
pub open spec fn can_happen(steps: Seq<QueueStep>) -> bool
    decreases steps.len(),
{
    steps.len() == 0 || {
        let rest = steps.drop_last();
        &&& can_happen(rest)
        &&& can_follow(
            cycles_after_all(rest),
            queue_after_all(crate::writeback::idle_queue(), rest),
            steps.last(),
        )
    }
}

/// How many cycles of `path` the steps ended without a report.
pub open spec fn silent_ends(steps: Seq<QueueStep>, path: Seq<char>) -> int
    decreases steps.len(),
{
    if steps.len() == 0 {
        0
    } else {
        silent_ends(steps.drop_last(), path) + (if steps.last() == (QueueStep::GiveUp {
            path,
            timed: false,
        }) {
            1int
        } else {
            0
        })
    }
}

/// How many cycles of `path` the steps opened without a timer.
pub open spec fn untimed_cycles(steps: Seq<QueueStep>, path: Seq<char>) -> int
    decreases steps.len(),
{
    if steps.len() == 0 {
        0
    } else {
        untimed_cycles(steps.drop_last(), path) + (match steps.last() {
            QueueStep::Retry { paths } => occurrences(paths, paths.len() as int, path),
            _ => 0,
        })
    }
}

proof fn lemma_with_untimed(c: Multiset<Cycle>, paths: Seq<Seq<char>>, n: int, path: Seq<char>)
    requires
        0 <= n <= paths.len(),
    ensures
        with_untimed(c, paths, n).len() == c.len() + n,
        with_untimed(c, paths, n).count(waiting(path)) == c.count(waiting(path)),
        with_untimed(c, paths, n).count(due(path, true)) == c.count(due(path, true)),
        with_untimed(c, paths, n).count(due(path, false)) == c.count(due(path, false)) + occurrences(
            paths,
            n,
            path,
        ),
    decreases n,
{
    broadcast use vstd::multiset::group_multiset_axioms;

    if n > 0 {
        lemma_with_untimed(c, paths, n - 1, path);
    }
}

proof fn lemma_remove(c: Multiset<Cycle>, x: Cycle)
    requires
        c.count(x) > 0,
    ensures
        c.remove(x).len() == c.len() - 1,
        forall|y: Cycle| #[trigger]
            c.remove(x).count(y) == c.count(y) - (if x == y {
                1int
            } else {
                0
            }),
{
    broadcast use vstd::multiset::group_multiset_axioms;

    assert(Multiset::singleton(x).subset_of(c));
}

/// Whatever happens, the reports tell of every path how it stands: they opened as many cycles of it that
/// they did not close as are still under way or ended without a report, never fewer than none. Only cycles
/// that never had a timer end without one. The queue counts all cycles that are under way, and has a timer
/// only for such.
pub proof fn the_reports_account_for_every_path(steps: Seq<QueueStep>, path: Seq<char>)
    requires
        can_happen(steps),
    ensures
        ({
            let q = queue_after_all(crate::writeback::idle_queue(), steps);
            let c = cycles_after_all(steps);
            &&& open_cycles(q.events, path) == under_way(c, path) + silent_ends(steps, path)
            &&& open_cycles(q.events, path) >= 0
            &&& 0 <= silent_ends(steps, path) <= untimed_cycles(steps, path) - c.count(
                due(path, false),
            )
            &&& q.busy == c.len()
            &&& q.timers.contains(path) ==> c.count(waiting(path)) > 0
        }),
    decreases steps.len(),
{
    broadcast use vstd::multiset::group_multiset_axioms;

    if steps.len() > 0 {
        let rest = steps.drop_last();
        let q = queue_after_all(crate::writeback::idle_queue(), rest);
        let c = cycles_after_all(rest);
        the_reports_account_for_every_path(rest, path);
        match steps.last() {
            QueueStep::Arm { path: p } => arming_opens_one_cycle(q, p, path),
            QueueStep::Cancel { path: p } => {
                the_reports_account_for_every_path(rest, p);
                cancelling_closes_the_cycle(q, p, path);
                if q.timers.contains(p) {
                    lemma_remove(c, waiting(p));
                }
            },
            QueueStep::Rename { from, to } => {
                the_reports_account_for_every_path(rest, from);
                a_renamed_cycle_goes_on(q, from, to, path);
                if q.timers.contains(from) {
                    lemma_remove(c, waiting(from));
                }
            },
            QueueStep::Retry { paths } => {
                retrying_opens_a_cycle_each(q, paths, paths.len() as int, path);
                lemma_with_untimed(c, paths, paths.len() as int, path);
            },
            QueueStep::Fire { path: p } => {
                the_reports_account_for_every_path(rest, p);
                lemma_remove(c, waiting(p));
            },
            QueueStep::Start { .. } => {},
            QueueStep::Report { path: p, timed, report } => {
                every_end_closes_the_cycle(q, p, report, path);
                lemma_remove(c, due(p, timed));
            },
            QueueStep::GiveUp { path: p, timed } => {
                only_a_cycle_without_a_timer_ends_silently(q, p, timed, path);
                lemma_remove(c, due(p, timed));
            },
        }
    }
}

/// An idle queue has closed every cycle of every path that it opened, but for those that ended without a
/// report, and so every cycle of a path that it never tried again.
pub proof fn an_idle_queue_owes_no_report(steps: Seq<QueueStep>, path: Seq<char>)
    requires
        can_happen(steps),
        queue_after_all(crate::writeback::idle_queue(), steps).busy == 0,
    ensures
        ({
            let q = queue_after_all(crate::writeback::idle_queue(), steps);
            &&& open_cycles(q.events, path) == silent_ends(steps, path)
            &&& untimed_cycles(steps, path) == 0 ==> open_cycles(q.events, path) == 0
        }),
{
    broadcast use vstd::multiset::group_multiset_axioms;

    the_reports_account_for_every_path(steps, path);
}

// ---------------------------------------------------------------------------
// Tries.
// ---------------------------------------------------------------------------

/// The tries of one upload come to an end: each one that is followed by another either used up one of the
/// tries, or moved on to the next name.
pub proof fn uploading_ends(a: UploadAttempts, reply: UploadReply, first: u64, second: u64)
    requires
        a.failed < UPLOAD_RETRIES,
    ensures
        ({
            let (b, step) = crate::writeback::after_try(a, reply, first, second);
            &&& b.failed < UPLOAD_RETRIES
            &&& step is RetryAfter ==> b.failed == a.failed + 1 && b.conflict_no == a.conflict_no
            &&& step is Retarget ==> b.failed == a.failed && b.conflict_no == a.conflict_no + 1
            &&& step is GiveUp ==> a.failed + 1 == UPLOAD_RETRIES
            &&& step is Succeeded <==> reply == UploadReply::Landed
        }),
{
}

/// What landed is done, whatever came before, and leaves the count of the tries as it is. A copy whose
/// name is taken moves on to the next number at once, and uses up no try, however many failed before. Any
/// other failure, a taken name of an upload in place among them, is tried again until all tries failed.
pub proof fn each_reply_has_its_answer(
    a: UploadAttempts,
    reply: UploadReply,
    first: u64,
    second: u64,
)
    ensures
        ({
            let (b, step) = crate::writeback::after_try(a, reply, first, second);
            let taken = reply == UploadReply::Collision && 0 < a.conflict_no < u32::MAX;
            let left = a.failed + 1 < UPLOAD_RETRIES;
            &&& step == UploadStep::Succeeded <==> reply == UploadReply::Landed
            &&& reply == UploadReply::Landed ==> b == a
            &&& step is Retarget <==> taken
            &&& taken ==> step == UploadStep::Retarget(b.conflict_no) && b.conflict_no
                == a.conflict_no + 1 && b.failed == a.failed
            &&& step is RetryAfter <==> reply != UploadReply::Landed && !taken && left
            &&& step is RetryAfter ==> b.failed == a.failed + 1 && b.conflict_no == a.conflict_no
            &&& step is GiveUp <==> reply != UploadReply::Landed && !taken && !left
        }),
{
}

/// Before the first repetition the first wait is waited, before the second the second; the third failure
/// is the last.
pub proof fn the_waits_come_in_order(conflict_no: u32, reply: UploadReply, first: u64, second: u64)
    requires
        reply == UploadReply::Failed || reply == UploadReply::Collision && conflict_no == 0,
    ensures
        ({
            let start = UploadAttempts { failed: 0, conflict_no };
            let once = crate::writeback::after_try(start, reply, first, second);
            let twice = crate::writeback::after_try(once.0, reply, first, second);
            let thrice = crate::writeback::after_try(twice.0, reply, first, second);
            &&& once.1 == UploadStep::RetryAfter(first)
            &&& twice.1 == UploadStep::RetryAfter(second)
            &&& thrice.1 == UploadStep::GiveUp
        }),
{
}

// ---------------------------------------------------------------------------
// Targets.
// ---------------------------------------------------------------------------

/// An upload of a draft of version `base`, while the server has version `current`, is aimed at the file
/// itself if and only if the two are one version; then it replaces that version. Otherwise it is aimed at
/// another path and replaces nothing.
pub proof fn a_changed_file_is_never_overwritten(
    target: UploadTarget,
    path: Seq<char>,
    base: Seq<char>,
    current: Seq<char>,
    date: Seq<char>,
)
    requires
        base.len() > 0,
        crate::writeback::aims(target, path, base, Some(current), date),
    ensures
        target.uri@ == path <==> current == base,
        target.overwrite <==> current == base,
        target.conflict_no == 0 <==> current == base,
        current == base ==> target.previous_version@ == base,
        current != base ==> target.previous_version@.len() == 0 && target.conflict_no == 1,
{
    a_copy_stays_beside_the_file(path, date, 1);
}

/// A draft of a file that the server has never seen is uploaded under its own path and replaces nothing,
/// whatever the server has there. A draft whose file's current version could not be learned is uploaded
/// under its own path too, over the version that it began with.
pub proof fn without_two_versions_nothing_conflicts(
    target: UploadTarget,
    path: Seq<char>,
    base: Seq<char>,
    current: Option<Seq<char>>,
    date: Seq<char>,
)
    requires
        base.len() == 0 || current is None,
        crate::writeback::aims(target, path, base, current, date),
    ensures
        target.uri@ == path,
        target.overwrite <==> base.len() > 0,
        target.previous_version@ == base,
        target.conflict_no == 0,
{
}

/// Whether two versions conflict does not depend on which of them the draft began with.
pub proof fn conflicting_is_mutual(a: Seq<char>, b: Seq<char>)
    requires
        a.len() > 0,
        b.len() > 0,
    ensures
        crate::writeback::is_conflict(a, Some(b)) <==> crate::writeback::is_conflict(b, Some(a)),
        crate::writeback::is_conflict(a, Some(b)) <==> a != b,
        !crate::writeback::is_conflict(a, None),
        !crate::writeback::is_conflict(Seq::empty(), Some(b)),
{
}

// ---------------------------------------------------------------------------
// What is uploaded.
// ---------------------------------------------------------------------------

/// The time of an upload is the time of the last write in milliseconds, kept within what can be told: a
/// later write never gives an earlier time.
pub proof fn times_keep_their_order(a: i64, b: i64)
    requires
        a <= b,
    ensures
        crate::writeback::to_millis(a) <= crate::writeback::to_millis(b),
        i64::MIN <= crate::writeback::to_millis(a) <= i64::MAX,
        i64::MIN <= a * 1000 <= i64::MAX ==> crate::writeback::to_millis(a) == a * 1000,
        a * 1000 > i64::MAX ==> crate::writeback::to_millis(a) == i64::MAX,
        a * 1000 < i64::MIN ==> crate::writeback::to_millis(a) == i64::MIN,
{
}

/// An upload sends the draft's content as it lies on disk: as many bytes as a read of the whole draft
/// returns, with the time of the last write; it remembers which writes were in it.
pub proof fn an_upload_sends_what_a_read_returns(
    p: UploadParams,
    d: crate::drafts::DraftView,
    remote_path: Seq<char>,
    data_path: Seq<char>,
    content: Seq<u8>,
)
    requires
        crate::writeback::params_of(p, d, remote_path, data_path),
        crate::drafts_laws::holds(d, content),
    ensures
        p.local_path@ == data_path,
        p.file_size == content.len(),
        p.stamp == d.stamp,
        i64::MIN <= d.last_write_unix * 1000 <= i64::MAX ==> p.last_modified == d.last_write_unix * 1000,
        p.task_id@ == "vfs-writeback-"@ + remote_path,
{
}

/// Uploads of different files never share a task.
pub proof fn tasks_are_told_apart_by_path(a: Seq<char>, b: Seq<char>)
    ensures
        crate::writeback::task_name(a) == crate::writeback::task_name(b) <==> a == b,
{
    let n = "vfs-writeback-"@.len() as int;
    let x = crate::writeback::task_name(a);
    let y = crate::writeback::task_name(b);
    assert(x.subrange(n, x.len() as int) =~= a);
    assert(y.subrange(n, y.len() as int) =~= b);
}

// ---------------------------------------------------------------------------
// Copies.
// ---------------------------------------------------------------------------

proof fn lemma_dec(n: nat)
    ensures
        crate::text::dec(n).len() > 0,
    decreases n,
{
    if n >= 10 {
        lemma_dec(n / 10);
    }
}

proof fn lemma_dec_injective(n: nat, m: nat)
    requires
        crate::text::dec(n) == crate::text::dec(m),
    ensures
        n == m,
    decreases n,
{
    let a = crate::text::dec(n);
    let b = crate::text::dec(m);
    assert(a.last() == b.last());
    if n < 10 {
        if m >= 10 {
            lemma_dec(m / 10);
            assert(b.len() > 1);
        } else {
            assert(a[0] == crate::text::digit(n));
            assert(b[0] == crate::text::digit(m));
        }
    } else {
        lemma_dec(n / 10);
        if m < 10 {
            assert(b.len() == 1);
        } else {
            assert(a.drop_last() =~= crate::text::dec(n / 10));
            assert(b.drop_last() =~= crate::text::dec(m / 10));
            lemma_dec_injective(n / 10, m / 10);
            assert(a.last() == crate::text::digit(n % 10));
            assert(b.last() == crate::text::digit(m % 10));
        }
    }
}

proof fn lemma_suffix_injective(n: u32, m: u32)
    requires
        1 <= n,
        1 <= m,
        crate::writeback::copy_suffix(n) == crate::writeback::copy_suffix(m),
    ensures
        n == m,
{
    let a = crate::writeback::copy_suffix(n);
    let b = crate::writeback::copy_suffix(m);
    if n > 1 && m > 1 {
        let d = crate::text::dec(n as nat);
        let e = crate::text::dec(m as nat);
        assert(a.subrange(1, a.len() as int) =~= d);
        assert(b.subrange(1, b.len() as int) =~= e);
        lemma_dec_injective(n as nat, m as nat);
    } else if n > 1 {
        assert(a.len() > 0);
    } else if m > 1 {
        assert(b.len() > 0);
    }
}

proof fn lemma_between<T>(before: Seq<T>, x: Seq<T>, y: Seq<T>, after: Seq<T>)
    requires
        before + x + after == before + y + after,
    ensures
        x == y,
{
    let s = before + x + after;
    assert(s.len() == before.len() + x.len() + after.len());
    assert(s.len() == before.len() + y.len() + after.len());
    assert(s.subrange(before.len() as int, (before.len() + x.len()) as int) =~= x);
    assert(s.subrange(before.len() as int, (before.len() + y.len()) as int) =~= y);
}

/// Copies of one file that are saved on one day have different names.
pub proof fn copies_of_a_day_have_different_names(
    path: Seq<char>,
    date: Seq<char>,
    n: u32,
    m: u32,
)
    requires
        1 <= n,
        1 <= m,
        crate::writeback::conflict_copy(path, date, n) == crate::writeback::conflict_copy(
            path,
            date,
            m,
        ),
    ensures
        n == m,
{
    let parts = crate::writeback::split_path(path);
    let leaf = crate::writeback::split_extension(parts.1);
    let head = leaf.0 + " (conflict "@ + date + ")"@;
    let x = crate::writeback::copy_suffix(n);
    let y = crate::writeback::copy_suffix(m);
    if parts.0.len() == 0 {
        lemma_between(head, x, y, leaf.1);
    } else {
        let dir = parts.0 + seq!['/'];
        assert(crate::writeback::conflict_copy(path, date, n) =~= (dir + head) + x + leaf.1);
        assert(crate::writeback::conflict_copy(path, date, m) =~= (dir + head) + y + leaf.1);
        lemma_between(dir + head, x, y, leaf.1);
    }
    lemma_suffix_injective(n, m);
}

/// A copy is saved in the directory of the file, under a name that the file does not have; a file that
/// has no directory, or only the empty one, has a copy without one.
pub proof fn a_copy_stays_beside_the_file(path: Seq<char>, date: Seq<char>, n: u32)
    ensures
        crate::writeback::conflict_copy(path, date, n) != path,
        ({
            let dir = crate::writeback::split_path(path).0;
            let copy = crate::writeback::conflict_copy(path, date, n);
            dir.len() > 0 ==> copy.len() > dir.len() && copy.subrange(0, dir.len() as int) == dir
                && copy[dir.len() as int] == '/'
        }),
{
    let parts = crate::writeback::split_path(path);
    let leaf = crate::writeback::split_extension(parts.1);
    let copy = crate::writeback::conflict_copy(path, date, n);
    reveal_strlit(" (conflict ");
    reveal_strlit(")");
    crate::text::lemma_last_index_of(path, '/');
    crate::text::lemma_last_index_of(parts.1, '.');
    assert(leaf.0.len() + leaf.1.len() == parts.1.len());
    if parts.0.len() == 0 {
        assert(copy.len() > parts.1.len());
        assert(path.len() <= parts.1.len() + 1);
    } else {
        assert(copy.subrange(0, parts.0.len() as int) =~= parts.0);
        assert(path.len() == parts.0.len() + 1 + parts.1.len());
    }
}

/// A copy keeps the extension of the file: what tells it apart stands before the last dot of the name.
pub proof fn a_copy_keeps_the_extension(
    dir: Seq<char>,
    stem: Seq<char>,
    ext: Seq<char>,
    date: Seq<char>,
    n: u32,
)
    requires
        dir.len() > 0,
        stem.len() > 0,
        !stem.contains('/'),
        !ext.contains('/'),
        !ext.contains('.'),
    ensures
        ({
            let path = crate::text::child_path(dir, stem + seq!['.'] + ext);
            let copy = crate::writeback::conflict_copy(path, date, n);
            let marked = stem + " (conflict "@ + date + ")"@;
            &&& n <= 1 ==> copy == crate::text::child_path(dir, marked + (seq!['.'] + ext))
            &&& n > 1 ==> copy == crate::text::child_path(
                dir,
                marked + (seq![' '] + crate::text::dec(n as nat)) + (seq!['.'] + ext),
            )
        }),
{
    let name = stem + seq!['.'] + ext;
    assert(!name.contains('/')) by {
        if name.contains('/') {
            let i = choose|i: int| 0 <= i < name.len() && name[i] == '/';
            if i < stem.len() {
                assert(stem[i] == '/');
            } else if i > stem.len() {
                assert(ext[i - stem.len() - 1] == '/');
            }
        }
    }
    crate::text_laws::splitting_undoes_joining(dir, '/', name);
    crate::text_laws::splitting_undoes_joining(stem, '.', ext);
    let marked = stem + " (conflict "@ + date + ")"@;
    assert(marked + Seq::<char>::empty() =~= marked);
}

/// A name without a dot, or with its only dot in front, has no extension: what tells a copy of it apart
/// stands at its end.
pub proof fn a_copy_of_a_name_without_extension_is_marked_at_its_end(
    dir: Seq<char>,
    name: Seq<char>,
    date: Seq<char>,
    n: u32,
)
    requires
        dir.len() > 0,
        !name.contains('/'),
        forall|i: int| 0 < i < name.len() ==> name[i] != '.',
    ensures
        ({
            let copy = crate::writeback::conflict_copy(crate::text::child_path(dir, name), date, n);
            let marked = name + " (conflict "@ + date + ")"@;
            &&& n <= 1 ==> copy == crate::text::child_path(dir, marked)
            &&& n > 1 ==> copy == crate::text::child_path(
                dir,
                marked + (seq![' '] + crate::text::dec(n as nat)),
            )
        }),
{
    crate::text_laws::splitting_undoes_joining(dir, '/', name);
    crate::text::lemma_last_index_of(name, '.');
    let marked = name + " (conflict "@ + date + ")"@;
    let suffix = crate::writeback::copy_suffix(n);
    assert(marked + suffix + Seq::<char>::empty() =~= marked + suffix);
    assert(marked + Seq::<char>::empty() =~= marked);
}

} // verus!
