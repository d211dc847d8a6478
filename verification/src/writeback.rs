//! The write-back queue: when a closed draft is uploaded, under which name, how often an upload is
//! tried, and what is reported.
//!
//! The caller keeps the time, sleeps and talks to the server; every decision in between is taken
//! here.

use vstd::prelude::*;

use crate::clock::utc_date;
use crate::drafts::DraftStore;
use crate::keymap::{KeyMap, StrMap};
use crate::text::{concat, decimal, rsplit_once, same};

verus! {

/// How long a closed draft waits for more edits before it is uploaded, in milliseconds.
pub const WRITEBACK_DEBOUNCE_MILLIS: u64 = 2_000;

/// How often one draft's upload is tried before it is parked.
pub const UPLOAD_RETRIES: u32 = 3;

/// Wait after the first failed try, in milliseconds.
pub const UPLOAD_FIRST_BACKOFF_MILLIS: u64 = 1_000;

/// Wait after the second failed try, in milliseconds.
pub const UPLOAD_SECOND_BACKOFF_MILLIS: u64 = 5_000;

/// What the write-back queue reports.
///
/// Every `UploadQueued` opens a cycle that exactly one of the others closes; `UploadRenamed` is followed
/// at once by an `UploadQueued` for the new path. The exception is a cycle that never had a timer, of a
/// draft that is tried again or was left waiting at the start: where that draft is gone by the time that it
/// would be uploaded, the cycle ends without a report.
#[derive(Debug, PartialEq)]
pub enum VfsEvent {
    UploadQueued { remote_path: String },
    UploadSucceeded { remote_path: String, new_etag: String },
    /// Every try failed; the draft is parked.
    UploadFailed { remote_path: String, error: String, will_retry: bool },
    /// The cycle was stopped before its upload began, or its draft was gone by then.
    UploadCancelled { remote_path: String },
    /// The cycle goes on under another path.
    UploadRenamed { from: String, to: String },
    /// The remote file had changed; the draft was saved beside it.
    ConflictSaved { original: String, conflict_copy: String },
}

/// A [`VfsEvent`] as plain values.
pub enum EventView {
    UploadQueued { remote_path: Seq<char> },
    UploadSucceeded { remote_path: Seq<char>, new_etag: Seq<char> },
    UploadFailed { remote_path: Seq<char>, error: Seq<char>, will_retry: bool },
    UploadCancelled { remote_path: Seq<char> },
    UploadRenamed { from: Seq<char>, to: Seq<char> },
    ConflictSaved { original: Seq<char>, conflict_copy: Seq<char> },
}

impl View for VfsEvent {
    type V = EventView;

    open spec fn view(&self) -> EventView {
        match self {
            VfsEvent::UploadQueued { remote_path } => EventView::UploadQueued {
                remote_path: remote_path@,
            },
            VfsEvent::UploadSucceeded { remote_path, new_etag } => EventView::UploadSucceeded {
                remote_path: remote_path@,
                new_etag: new_etag@,
            },
            VfsEvent::UploadFailed { remote_path, error, will_retry } => EventView::UploadFailed {
                remote_path: remote_path@,
                error: error@,
                will_retry: *will_retry,
            },
            VfsEvent::UploadCancelled { remote_path } => EventView::UploadCancelled {
                remote_path: remote_path@,
            },
            VfsEvent::UploadRenamed { from, to } => EventView::UploadRenamed {
                from: from@,
                to: to@,
            },
            VfsEvent::ConflictSaved { original, conflict_copy } => EventView::ConflictSaved {
                original: original@,
                conflict_copy: conflict_copy@,
            },
        }
    }
}

/// Events as plain values.
pub open spec fn event_views(list: Seq<VfsEvent>) -> Seq<EventView> {
    list.map_values(|e: VfsEvent| e@)
}

/// The write-back queue.
pub struct WriteBackQueue {
    timers: StrMap<()>,
    in_flight: StrMap<()>,
    busy: u64,
    events: Vec<VfsEvent>,
    debounce_millis: u64,
    first_backoff_millis: u64,
    second_backoff_millis: u64,
}

/// A [`WriteBackQueue`] as plain values.
#[verifier::ext_equal]
pub struct QueueView {
    /// Paths whose debounce timer is armed.
    pub timers: Set<Seq<char>>,
    /// Paths that are being processed.
    pub in_flight: Set<Seq<char>>,
    /// Cycles that are open: armed, queued or in progress.
    pub busy: int,
    /// What was reported and not yet taken.
    pub events: Seq<EventView>,
    pub debounce_millis: u64,
    pub first_backoff_millis: u64,
    pub second_backoff_millis: u64,
}

impl View for WriteBackQueue {
    type V = QueueView;

    closed spec fn view(&self) -> QueueView {
        QueueView {
            timers: self.timers@.dom(),
            in_flight: self.in_flight@.dom(),
            busy: self.busy as int,
            events: event_views(self.events@),
            debounce_millis: self.debounce_millis,
            first_backoff_millis: self.first_backoff_millis,
            second_backoff_millis: self.second_backoff_millis,
        }
    }
}

/// A queue in which nothing happened yet.
pub open spec fn idle_queue() -> QueueView {
    QueueView {
        timers: Set::empty(),
        in_flight: Set::empty(),
        busy: 0,
        events: Seq::empty(),
        debounce_millis: WRITEBACK_DEBOUNCE_MILLIS,
        first_backoff_millis: UPLOAD_FIRST_BACKOFF_MILLIS,
        second_backoff_millis: UPLOAD_SECOND_BACKOFF_MILLIS,
    }
}

/// The queue after a cycle for `path` was opened with a timer.
pub open spec fn armed(q: QueueView, path: Seq<char>) -> QueueView {
    QueueView {
        timers: q.timers.insert(path),
        busy: q.busy + 1,
        events: q.events.push(EventView::UploadQueued { remote_path: path }),
        ..q
    }
}

/// The queue after the timer of `path` was stopped; one that is not armed leaves it as it was.
pub open spec fn stopped(q: QueueView, path: Seq<char>) -> QueueView {
    if q.timers.contains(path) {
        QueueView { timers: q.timers.remove(path), busy: q.busy - 1, ..q }
    } else {
        q
    }
}

/// The queue after the cycle of `path` was cancelled, where its timer was armed.
pub open spec fn cancelled(q: QueueView, path: Seq<char>) -> QueueView {
    if q.timers.contains(path) {
        let s = stopped(q, path);
        QueueView { events: s.events.push(EventView::UploadCancelled { remote_path: path }), ..s }
    } else {
        q
    }
}

/// The queue after the cycle of `from` went on under `to`, where its timer was armed.
pub open spec fn migrated(q: QueueView, from: Seq<char>, to: Seq<char>) -> QueueView {
    if q.timers.contains(from) {
        let s = stopped(q, from);
        armed(
            QueueView { events: s.events.push(EventView::UploadRenamed { from, to }), ..s },
            to,
        )
    } else {
        q
    }
}

/// The queue after a cycle was opened for each of the first `n` paths, without a timer.
pub open spec fn enqueued(q: QueueView, paths: Seq<Seq<char>>, n: int) -> QueueView
    decreases n,
{
    if n <= 0 {
        q
    } else {
        let p = enqueued(q, paths, n - 1);
        QueueView {
            busy: p.busy + 1,
            events: p.events.push(EventView::UploadQueued { remote_path: paths[n - 1] }),
            ..p
        }
    }
}

/// The queue after the processing of `path` began.
pub open spec fn started(q: QueueView, path: Seq<char>) -> QueueView {
    QueueView { in_flight: q.in_flight.insert(path), ..q }
}

/// The queue after the processing of `path` ended with the given events.
pub open spec fn ended(q: QueueView, path: Seq<char>, reported: Seq<EventView>) -> QueueView {
    QueueView {
        in_flight: q.in_flight.remove(path),
        busy: q.busy - 1,
        events: q.events + reported,
        ..q
    }
}

/// The queue after the cycle of `path` came to nothing because its draft is gone: reported as cancelled
/// where the cycle had a timer.
pub open spec fn given_up(q: QueueView, path: Seq<char>, timed: bool) -> QueueView {
    ended(
        q,
        path,
        if timed {
            seq![EventView::UploadCancelled { remote_path: path }]
        } else {
            Seq::empty()
        },
    )
}

impl WriteBackQueue {
    /// Whether the lists behind the queue are in order and every armed timer belongs to an open cycle.
    pub closed spec fn wf(&self) -> bool {
        &&& self.timers.wf()
        &&& self.in_flight.wf()
        &&& self.timers@.dom().len() <= self.busy
    }

    /// What being in order says.
    pub proof fn lemma_wf(&self)
        requires
            self.wf(),
        ensures
            self@.timers.finite(),
            self@.timers.len() <= self@.busy,
            0 <= self@.busy <= u64::MAX,
    {
        self.timers.lemma_slots();
    }

    /// An idle queue.
    pub fn new() -> (r: Self)
        ensures
            r.wf(),
            r@ == idle_queue(),
    {
        let r = WriteBackQueue {
            timers: KeyMap::new(),
            in_flight: KeyMap::new(),
            busy: 0,
            events: Vec::new(),
            debounce_millis: WRITEBACK_DEBOUNCE_MILLIS,
            first_backoff_millis: UPLOAD_FIRST_BACKOFF_MILLIS,
            second_backoff_millis: UPLOAD_SECOND_BACKOFF_MILLIS,
        };
        proof {
            r.timers.lemma_slots();
            assert(r.timers@.dom() =~= Set::<Seq<char>>::empty());
            assert(r.in_flight@.dom() =~= Set::<Seq<char>>::empty());
            assert(event_views(r.events@) =~= Seq::<EventView>::empty());
        }
        r
    }

    /// Sets how long a closed draft waits for more edits.
    pub fn set_debounce_for_tests(&mut self, millis: u64)
        requires
            old(self).wf(),
        ensures
            final(self).wf(),
            final(self)@ == (QueueView { debounce_millis: millis, ..old(self)@ }),
    {
        self.debounce_millis = millis;
    }

    /// Sets how long the waits between tries are.
    pub fn set_retry_backoff_for_tests(&mut self, first: u64, second: u64)
        requires
            old(self).wf(),
        ensures
            final(self).wf(),
            final(self)@ == (QueueView {
                first_backoff_millis: first,
                second_backoff_millis: second,
                ..old(self)@
            }),
    {
        self.first_backoff_millis = first;
        self.second_backoff_millis = second;
    }

    /// How long a closed draft waits for more edits, in milliseconds.
    pub fn debounce_millis(&self) -> (r: u64)
        ensures
            r == self@.debounce_millis,
    {
        self.debounce_millis
    }

    /// The waits between tries, in milliseconds.
    pub fn retry_backoff_millis(&self) -> (r: (u64, u64))
        ensures
            r.0 == self@.first_backoff_millis,
            r.1 == self@.second_backoff_millis,
    {
        (self.first_backoff_millis, self.second_backoff_millis)
    }

    fn report(&mut self, event: VfsEvent)
        requires
            old(self).wf(),
        ensures
            final(self).wf(),
            final(self)@ == (QueueView { events: old(self)@.events.push(event@), ..old(self)@ }),
            final(self).timers == old(self).timers,
            final(self).in_flight == old(self).in_flight,
            final(self).busy == old(self).busy,
    {
        let ghost before = event_views(self.events@);
        self.events.push(event);
        assert(event_views(self.events@) =~= before.push(event@));
    }

    /// Takes what was reported, oldest first.
    pub fn take_events(&mut self) -> (r: Vec<VfsEvent>)
        requires
            old(self).wf(),
        ensures
            final(self).wf(),
            event_views(r@) == old(self)@.events,
            final(self)@ == (QueueView { events: Seq::empty(), ..old(self)@ }),
    {
        let mut out: Vec<VfsEvent> = Vec::new();
        std::mem::swap(&mut out, &mut self.events);
        assert(event_views(self.events@) =~= Seq::<EventView>::empty());
        out
    }

    /// Opens a cycle for a draft that was parked: it counts as queued at once and is uploaded when its
    /// timer fires.
    pub fn arm(&mut self, remote_path: &str)
        requires
            old(self).wf(),
            old(self)@.busy < u64::MAX,
        ensures
            final(self).wf(),
            final(self)@ == armed(old(self)@, remote_path@),
    {
        proof {
            self.timers.lemma_slots();
        }
        self.busy = self.busy + 1;
        self.report(VfsEvent::UploadQueued { remote_path: remote_path.to_owned() });
        let ghost before = self.timers@;
        self.timers.insert(remote_path.to_owned(), ());
        proof {
            assert(self.timers@.dom() =~= before.dom().insert(remote_path@));
        }
    }

    /// Stops the timer of `remote_path`. `false` says that none was armed: it had fired, or there never
    /// was one, and the cycle, if there is one, goes on.
    pub fn cancel(&mut self, remote_path: &str) -> (r: bool)
        requires
            old(self).wf(),
        ensures
            final(self).wf(),
            r == old(self)@.timers.contains(remote_path@),
            final(self)@ == stopped(old(self)@, remote_path@),
    {
        let ghost before = self.timers@;
        proof {
            self.timers.lemma_slots();
        }
        match self.timers.remove(&remote_path.to_owned()) {
            Some(_) => {
                proof {
                    assert(before.dom().contains(remote_path@));
                    assert(self.timers@.dom() =~= before.dom().remove(remote_path@));
                }
                self.busy = self.busy - 1;
                true
            },
            None => {
                assert(self.timers@.dom() =~= before.dom());
                false
            },
        }
    }

    /// Cancels the cycle of `remote_path` where its timer is still armed, and reports it.
    pub fn cancel_cycle(&mut self, remote_path: &str) -> (r: bool)
        requires
            old(self).wf(),
        ensures
            final(self).wf(),
            r == old(self)@.timers.contains(remote_path@),
            final(self)@ == cancelled(old(self)@, remote_path@),
    {
        if self.cancel(remote_path) {
            self.report(VfsEvent::UploadCancelled { remote_path: remote_path.to_owned() });
            true
        } else {
            false
        }
    }

    /// Lets a cycle whose timer is still armed go on under another path, with a new wait.
    pub fn migrate_armed_timer(&mut self, old_path: &str, new_path: &str)
        requires
            old(self).wf(),
        ensures
            final(self).wf(),
            final(self)@ == migrated(old(self)@, old_path@, new_path@),
    {
        if self.cancel(old_path) {
            self.report(
                VfsEvent::UploadRenamed { from: old_path.to_owned(), to: new_path.to_owned() },
            );
            self.arm(new_path);
        }
    }

    /// Opens a cycle for each path, to be uploaded at once, without a timer.
    pub fn enqueue_immediate(&mut self, paths: &Vec<String>) -> (r: usize)
        requires
            old(self).wf(),
            old(self)@.busy + paths@.len() <= u64::MAX,
        ensures
            final(self).wf(),
            r == paths@.len(),
            final(self)@ == enqueued(
                old(self)@,
                crate::text::texts(paths@),
                paths@.len() as int,
            ),
    {
        let ghost q = self@;
        let ghost list = crate::text::texts(paths@);
        let mut i: usize = 0;
        while i < paths.len()
            invariant
                i <= paths@.len(),
                list == crate::text::texts(paths@),
                self.wf(),
                q.busy + paths@.len() <= u64::MAX,
                self@ == enqueued(q, list, i as int),
                self@.busy == q.busy + i,
            decreases paths@.len() - i,
        {
            self.busy = self.busy + 1;
            self.report(VfsEvent::UploadQueued { remote_path: paths[i].clone() });
            assert(list[i as int] == paths@[i as int]@);
            i = i + 1;
        }
        paths.len()
    }

    /// Whether nothing is armed, queued or in progress.
    pub fn is_idle(&self) -> (r: bool)
        ensures
            r == (self@.busy == 0),
    {
        self.busy == 0
    }

    /// Number of open cycles.
    pub fn busy(&self) -> (r: u64)
        ensures
            r == self@.busy,
    {
        self.busy
    }

    /// Whether some open cycle waits for no timer: it is being processed, or about to be.
    pub fn has_running(&self) -> (r: bool)
        requires
            self.wf(),
        ensures
            r == (self@.busy > self@.timers.len()),
    {
        proof {
            self.timers.lemma_slots();
        }
        self.busy > self.timers.len() as u64
    }

    /// Notes that the timer of `remote_path` fired: from then on nothing can stop the cycle.
    pub fn fire(&mut self, remote_path: &str)
        requires
            old(self).wf(),
        ensures
            final(self).wf(),
            final(self)@ == (QueueView { timers: old(self)@.timers.remove(remote_path@), ..old(self)@ }),
    {
        let ghost before = self.timers@;
        proof {
            self.timers.lemma_slots();
        }
        let was = self.timers.remove(&remote_path.to_owned());
        assert(self.timers@.dom() =~= before.dom().remove(remote_path@));
    }

    /// Notes that `remote_path` is being processed.
    pub fn start(&mut self, remote_path: &str)
        requires
            old(self).wf(),
        ensures
            final(self).wf(),
            final(self)@ == started(old(self)@, remote_path@),
    {
        let ghost before = self.in_flight@;
        self.in_flight.insert(remote_path.to_owned(), ());
        assert(self.in_flight@.dom() =~= before.dom().insert(remote_path@));
    }

    /// Notes that the processing of `remote_path` ended, with what is to be reported of it.
    pub fn end(&mut self, remote_path: &str, event: Option<VfsEvent>)
        requires
            old(self).wf(),
            old(self)@.busy > old(self)@.timers.len(),
        ensures
            final(self).wf(),
            final(self)@ == ended(
                old(self)@,
                remote_path@,
                match event {
                    Some(e) => seq![e@],
                    None => Seq::empty(),
                },
            ),
    {
        let ghost before = self.in_flight@;
        let ghost q = self@;
        let was = self.in_flight.remove(&remote_path.to_owned());
        self.busy = self.busy - 1;
        assert(self.in_flight@.dom() =~= before.dom().remove(remote_path@));
        match event {
            Some(e) => {
                self.report(e);
                assert(self@.events =~= q.events + seq![e@]);
            },
            None => {
                assert(self@.events =~= q.events + Seq::<EventView>::empty());
            },
        }
    }

    /// Notes that the cycle of `remote_path` came to nothing because its draft is gone. `timed` tells
    /// whether the cycle had a timer.
    pub fn give_up(&mut self, remote_path: &str, timed: bool)
        requires
            old(self).wf(),
            old(self)@.busy > old(self)@.timers.len(),
        ensures
            final(self).wf(),
            final(self)@ == given_up(old(self)@, remote_path@, timed),
    {
        if timed {
            self.end(
                remote_path,
                Some(VfsEvent::UploadCancelled { remote_path: remote_path.to_owned() }),
            );
        } else {
            self.end(remote_path, None);
        }
    }

    /// Whether `remote_path` is being processed.
    pub fn is_in_flight(&self, remote_path: &str) -> (r: bool)
        requires
            self.wf(),
        ensures
            r == self@.in_flight.contains(remote_path@),
    {
        self.in_flight.contains_key(&remote_path.to_owned())
    }

    /// Whether the timer of `remote_path` is armed.
    pub fn is_armed(&self, remote_path: &str) -> (r: bool)
        requires
            self.wf(),
        ensures
            r == self@.timers.contains(remote_path@),
    {
        self.timers.contains_key(&remote_path.to_owned())
    }
}

// ---------------------------------------------------------------------------
// Where a draft is uploaded to.
// ---------------------------------------------------------------------------

/// What an upload is aimed at.
#[derive(Debug)]
pub struct UploadTarget {
    pub uri: String,
    /// Whether the upload replaces remote content.
    pub overwrite: bool,
    /// Version that is replaced; empty where nothing is.
    pub previous_version: String,
    /// Zero for an upload in place; otherwise which copy beside the remote file this is.
    pub conflict_no: u32,
}

/// Directory and file name of a path; the directory is empty where there is none.
pub open spec fn split_path(path: Seq<char>) -> (Seq<char>, Seq<char>) {
    match crate::text::rsplit_once_at(path, '/') {
        Some(parts) => parts,
        None => (Seq::empty(), path),
    }
}

/// File name without its extension, and the extension with its dot. A name that starts with its only
/// dot has no extension.
pub open spec fn split_extension(name: Seq<char>) -> (Seq<char>, Seq<char>) {
    match crate::text::rsplit_once_at(name, '.') {
        Some(parts) => if parts.0.len() > 0 {
            (parts.0, seq!['.'] + parts.1)
        } else {
            (name, Seq::empty())
        },
        None => (name, Seq::empty()),
    }
}

/// What tells the copies of one day apart: nothing for the first, its number for every other.
pub open spec fn copy_suffix(n: u32) -> Seq<char> {
    if n <= 1 {
        Seq::empty()
    } else {
        seq![' '] + crate::text::dec(n as nat)
    }
}

/// Path of copy `n` that is saved beside `path` on `date`.
pub open spec fn conflict_copy(path: Seq<char>, date: Seq<char>, n: u32) -> Seq<char> {
    let parts = split_path(path);
    let leaf = split_extension(parts.1);
    let name = leaf.0 + " (conflict "@ + date + ")"@ + copy_suffix(n) + leaf.1;
    if parts.0.len() == 0 {
        name
    } else {
        crate::text::child_path(parts.0, name)
    }
}

/// Path of copy `n` that is saved beside `remote_path` on `date`, in the same directory.
pub fn conflict_copy_path_on(remote_path: &str, date: &str, n: u32) -> (r: String)
    ensures
        r@ == conflict_copy(remote_path@, date@, n),
{
    let parts: (String, String) = match rsplit_once(remote_path, '/') {
        Some(p) => p,
        None => (String::new(), remote_path.to_owned()),
    };
    let leaf: (String, String) = match rsplit_once(parts.1.as_str(), '.') {
        Some(p) => if !p.0.as_str().is_empty() {
            let mut ext: String = String::new();
            proof {
                reveal_strlit(".");
            }
            ext.append(".");
            ext.append(p.1.as_str());
            assert(ext@ =~= seq!['.'] + p.1@);
            (p.0, ext)
        } else {
            (parts.1.clone(), String::new())
        },
        None => (parts.1.clone(), String::new()),
    };
    let mut suffix: String = String::new();
    if n > 1 {
        proof {
            reveal_strlit(" ");
        }
        suffix.append(" ");
        suffix.append(decimal(n as u64).as_str());
        assert(suffix@ =~= copy_suffix(n));
    }
    let mut name: String = leaf.0;
    name.append(" (conflict ");
    name.append(date);
    name.append(")");
    name.append(suffix.as_str());
    name.append(leaf.1.as_str());
    if parts.0.as_str().is_empty() {
        name
    } else {
        crate::text::join_child(parts.0.as_str(), name.as_str())
    }
}

/// Path of copy `n` that is saved beside `remote_path` today.
pub fn conflict_copy_path(remote_path: &str, n: u32) -> (r: String)
    ensures
        exists|date: Seq<char>|
            crate::clock::is_day(date) && r@ == #[trigger] conflict_copy(remote_path@, date, n),
{
    let date: String = utc_date();
    conflict_copy_path_on(remote_path, date.as_str(), n)
}

/// Whether the remote file changed since a draft began. A draft of a file that the server has never
/// seen conflicts with nothing, and neither does one whose current version could not be learned.
pub open spec fn is_conflict(base_etag: Seq<char>, current: Option<Seq<char>>) -> bool {
    base_etag.len() > 0 && (current matches Some(c) && c != base_etag)
}

/// An optional string as plain values.
pub open spec fn opt_text(s: Option<String>) -> Option<Seq<char>> {
    match s {
        Some(t) => Some(t@),
        None => None,
    }
}

/// Whether the remote file changed since a draft began.
pub fn conflicts(base_etag: &str, current: &Option<String>) -> (r: bool)
    ensures
        r == is_conflict(base_etag@, opt_text(*current)),
{
    match current {
        Some(c) => !base_etag.is_empty() && !same(c.as_str(), base_etag),
        None => false,
    }
}

/// Whether `target` is an upload in place: it replaces what the draft started from, or makes a new
/// file where it started from nothing.
pub open spec fn aims_in_place(
    target: UploadTarget,
    remote_path: Seq<char>,
    base_etag: Seq<char>,
) -> bool {
    &&& target.uri@ == remote_path
    &&& target.overwrite == (base_etag.len() > 0)
    &&& target.previous_version@ == base_etag
    &&& target.conflict_no == 0
}

/// Whether `target` is copy `n` of the day, which replaces nothing.
pub open spec fn aims_at_copy(
    target: UploadTarget,
    remote_path: Seq<char>,
    date: Seq<char>,
    n: u32,
) -> bool {
    &&& target.uri@ == conflict_copy(remote_path, date, n)
    &&& !target.overwrite
    &&& target.previous_version@.len() == 0
    &&& target.conflict_no == n
}

/// Whether `target` is what an upload of a draft is aimed at, given the current version of the file as far
/// as it could be learned.
pub open spec fn aims(
    target: UploadTarget,
    remote_path: Seq<char>,
    base_etag: Seq<char>,
    current: Option<Seq<char>>,
    date: Seq<char>,
) -> bool {
    if is_conflict(base_etag, current) {
        aims_at_copy(target, remote_path, date, 1)
    } else {
        aims_in_place(target, remote_path, base_etag)
    }
}

/// The target of copy `n` of the day.
pub fn copy_target(remote_path: &str, date: &str, n: u32) -> (r: UploadTarget)
    ensures
        aims_at_copy(r, remote_path@, date@, n),
{
    UploadTarget {
        uri: conflict_copy_path_on(remote_path, date, n),
        overwrite: false,
        previous_version: String::new(),
        conflict_no: n,
    }
}

/// Decides where a draft is uploaded to, given the remote file's current version as far as it could
/// be learned: in place, or beside the remote file where that changed since the draft began.
pub fn aim_upload(remote_path: &str, base_etag: &str, current: &Option<String>, date: &str) -> (r:
    UploadTarget)
    ensures
        aims(r, remote_path@, base_etag@, opt_text(*current), date@),
{
    if conflicts(base_etag, current) {
        copy_target(remote_path, date, 1)
    } else {
        UploadTarget {
            uri: remote_path.to_owned(),
            overwrite: !base_etag.is_empty(),
            previous_version: base_etag.to_owned(),
            conflict_no: 0,
        }
    }
}

// ---------------------------------------------------------------------------
// How often an upload is tried.
// ---------------------------------------------------------------------------

/// How one try to upload ended.
#[derive(Debug, Clone, Copy, PartialEq, Eq, Structural)]
pub enum UploadReply {
    Landed,
    /// The server refused: the name is taken.
    Collision,
    /// Any other failure.
    Failed,
}

/// What comes after one try.
#[derive(Debug, Clone, Copy, PartialEq, Eq, Structural)]
pub enum UploadStep {
    /// The draft is on the server.
    Succeeded,
    /// Try again after this many milliseconds.
    RetryAfter(u64),
    /// Try again at once, as this copy of the day.
    Retarget(u32),
    /// Every try failed.
    GiveUp,
}

/// How far the tries of one upload have come.
#[derive(Debug, Clone, Copy, PartialEq, Eq, Structural)]
pub struct UploadAttempts {
    /// Tries that failed.
    pub failed: u32,
    /// As in [`UploadTarget`].
    pub conflict_no: u32,
}

/// What comes after one try, and how far the tries have come then.
///
/// A copy whose name is taken is saved under the next name at once: that the name is taken will not
/// pass, so it uses up no try. Every other failure uses one up.
pub open spec fn after_try(
    a: UploadAttempts,
    reply: UploadReply,
    first_backoff: u64,
    second_backoff: u64,
) -> (UploadAttempts, UploadStep) {
    if reply == UploadReply::Landed {
        (a, UploadStep::Succeeded)
    } else if reply == UploadReply::Collision && 0 < a.conflict_no < u32::MAX {
        let n = (a.conflict_no + 1) as u32;
        (UploadAttempts { conflict_no: n, ..a }, UploadStep::Retarget(n))
    } else if a.failed + 1 < UPLOAD_RETRIES {
        (
            UploadAttempts { failed: (a.failed + 1) as u32, ..a },
            UploadStep::RetryAfter(
                if a.failed == 0 {
                    first_backoff
                } else {
                    second_backoff
                },
            ),
        )
    } else {
        (a, UploadStep::GiveUp)
    }
}

impl UploadAttempts {
    /// Before the first try.
    pub fn new(conflict_no: u32) -> (r: Self)
        ensures
            r == (UploadAttempts { failed: 0, conflict_no }),
    {
        UploadAttempts { failed: 0, conflict_no }
    }

    /// Takes in how one try ended and says what comes next (see [`after_try`]).
    pub fn next(&mut self, reply: UploadReply, backoff: (u64, u64)) -> (r: UploadStep)
        ensures
            (*final(self), r) == after_try(*old(self), reply, backoff.0, backoff.1),
    {
        match reply {
            UploadReply::Landed => UploadStep::Succeeded,
            _ => {
                let taken: bool = reply == UploadReply::Collision;
                if taken && self.conflict_no > 0 && self.conflict_no < u32::MAX {
                    self.conflict_no = self.conflict_no + 1;
                    UploadStep::Retarget(self.conflict_no)
                } else if self.failed < UPLOAD_RETRIES - 1 {
                    let wait: u64 = if self.failed == 0 {
                        backoff.0
                    } else {
                        backoff.1
                    };
                    self.failed = self.failed + 1;
                    UploadStep::RetryAfter(wait)
                } else {
                    UploadStep::GiveUp
                }
            },
        }
    }
}

// ---------------------------------------------------------------------------
// What the uploader is told.
// ---------------------------------------------------------------------------

/// What the uploader is told of a draft.
#[derive(Debug)]
pub struct UploadParams {
    pub local_path: String,
    pub file_size: u64,
    /// Milliseconds since 1970.
    pub last_modified: i64,
    pub task_id: String,
    /// Number of the last change to the content that is uploaded.
    pub stamp: u64,
}

/// `secs` in milliseconds, or the nearest value that fits.
pub open spec fn to_millis(secs: i64) -> int {
    let m = secs * 1000;
    if m > i64::MAX {
        i64::MAX as int
    } else if m < i64::MIN {
        i64::MIN as int
    } else {
        m
    }
}

/// `secs` in milliseconds, or the nearest value that fits.
pub fn millis_of(secs: i64) -> (r: i64)
    ensures
        r == to_millis(secs),
{
    if secs > 9_223_372_036_854_775 {
        i64::MAX
    } else if secs < -9_223_372_036_854_775 {
        i64::MIN
    } else {
        secs * 1000
    }
}

/// Name of a path's upload among the uploader's tasks.
pub open spec fn task_name(remote_path: Seq<char>) -> Seq<char> {
    "vfs-writeback-"@ + remote_path
}

/// Whether `p` is what the uploader is told of the draft `d` whose data lies at `data_path`.
pub open spec fn params_of(
    p: UploadParams,
    d: crate::drafts::DraftView,
    remote_path: Seq<char>,
    data_path: Seq<char>,
) -> bool {
    &&& p.local_path@ == data_path
    &&& p.file_size == d.size
    &&& p.last_modified == to_millis(d.last_write_unix)
    &&& p.task_id@ == task_name(remote_path)
    &&& p.stamp == d.stamp
}

/// What the uploader is told of a path's draft; nothing where there is none any more.
pub fn upload_params(drafts: &DraftStore, remote_path: &str) -> (r: Option<UploadParams>)
    requires
        drafts.wf(),
    ensures
        r is Some <==> drafts.has(remote_path@),
        r matches Some(p) ==> params_of(
            p,
            drafts.of(remote_path@),
            remote_path@,
            crate::text::child_path(
                crate::text::child_path(
                    drafts.root_dir(),
                    crate::drafts::path_hash(remote_path@),
                ),
                "data"@,
            ),
        ),
{
    match (
        drafts.data_path(remote_path),
        drafts.size(remote_path),
        drafts.mtime_unix(remote_path),
        drafts.stamp(remote_path),
    ) {
        (Some(local_path), Some(file_size), Some(secs), Some(stamp)) => Some(
            UploadParams {
                local_path,
                file_size,
                last_modified: millis_of(secs),
                task_id: concat("vfs-writeback-", remote_path),
                stamp,
            },
        ),
        _ => None,
    }
}

} // verus!
