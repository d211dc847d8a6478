//! What holds of the file system over several operations.

use vstd::prelude::*;

use crate::drafts::{DraftMeta, DraftState, DraftView};
use crate::error::VfsError;
use crate::tree::{AttrView, TreeView};
use crate::vfs::namespace::{Creation, StepView};
use crate::vfs::VfsView;
use crate::writeback::{EventView, QueueView};

verus! {

// ---------------------------------------------------------------------------
// Names.
// ---------------------------------------------------------------------------

/// What is shown of the entry that a name in `parent` resolves to.
pub open spec fn shown(v: VfsView, parent: u64, name: Seq<char>) -> AttrView {
    let p = v.entry(parent, name)->0;
    p.1
}

/// The node that a name in `parent` resolves to.
pub open spec fn node_of(v: VfsView, parent: u64, name: Seq<char>) -> u64 {
    let p = v.entry(parent, name)->0;
    p.0
}

proof fn lemma_first_named(
    t: TreeView,
    dir: u64,
    ids: Seq<u64>,
    name: Seq<char>,
)
    requires
        crate::tree::tree_wf(t),
        forall|i: int| 0 <= i < ids.len() ==> crate::reach::edge(t.children, dir, #[trigger] ids[i]),
    ensures
        crate::tree::first_named(crate::tree::known_rows(ids, t.attrs), name) matches Some(row)
            ==> crate::tree::known_named(t, dir, name) == Some(row),
    decreases ids.len(),
{
    if ids.len() > 0 {
        let rest = ids.drop_last();
        assert forall|i: int| 0 <= i < rest.len() implies crate::reach::edge(
            t.children,
            dir,
            #[trigger] rest[i],
        ) by {
            assert(rest[i] == ids[i]);
        }
        lemma_first_named(t, dir, rest, name);
        let id = ids.last();
        assert(crate::reach::edge(t.children, dir, ids[ids.len() - 1]));
        let n = choose|n: Seq<char>| #[trigger]
            t.known.contains_key((dir, n)) && t.known[(dir, n)] == id;
        if t.attrs.contains_key(id) {
            let list = crate::tree::known_rows(ids, t.attrs);
            assert(list.drop_last() =~= crate::tree::known_rows(rest, t.attrs));
            assert(t.attrs[id].name == n);
        }
    }
}

/// A name in a directory resolves to one node: the one that is known by that name, as far as something
/// is known of it, whether a listing told of it or it exists only here.
pub proof fn a_name_resolves_to_one_node(v: VfsView, parent: u64, name: Seq<char>)
    requires
        crate::tree::tree_wf(v.tree),
    ensures
        v.entry(parent, name) == (match crate::tree::known_named(v.tree, parent, name) {
            Some(p) => Some((p.0, v.overlaid(p.1))),
            None => None,
        }),
{
    let t = v.tree;
    if t.children.contains_key(parent) {
        let ids = t.children[parent];
        assert forall|i: int| 0 <= i < ids.len() implies crate::reach::edge(
            t.children,
            parent,
            #[trigger] ids[i],
        ) by {
            assert(ids.contains(ids[i]));
        }
        lemma_first_named(t, parent, ids, name);
    }
}

/// Creating a file under a name that resolves to something is refused as such, and changes nothing. Under
/// any other name the file resolves at once, from the first step on, and it is there with no content
/// before anything is uploaded: nothing is queued, and no other entry, draft or cached block is touched.
pub proof fn creating_takes_a_free_name_or_changes_nothing(
    v: VfsView,
    parent: u64,
    name: Seq<char>,
    now: i64,
    r: Result<Creation, VfsError>,
    w: VfsView,
)
    requires
        crate::tree::tree_wf(v.tree),
        v.tree.attrs.contains_key(parent),
        v.tree.next_id < u64::MAX,
        crate::vfs::namespace::create_answers(v, parent, name, now, r, w),
    ensures
        r is Err <==> v.entry(parent, name) is Some,
        r matches Err(e) ==> {
            &&& w == v
            &&& crate::frontend_util::error_errno(e) == crate::frontend_util::FrontendErrno::Exist
        },
        r matches Ok(c) ==> {
            let path = crate::text::child_path(v.tree.attrs[parent].remote_path, name);
            let done = crate::vfs::namespace::creation_finished(w, c.meta);
            &&& node_of(w, parent, name) == c.node.0
            &&& w.entry(parent, name) is Some
            &&& done.entry(parent, name) == Some(
                (
                    c.node.0,
                    (AttrView {
                        name,
                        remote_path: path,
                        size: 0,
                        mtime_secs: now,
                        is_dir: false,
                        etag: Seq::empty(),
                    }),
                ),
            )
            &&& done.has_draft(path)
            &&& done.draft(path).size == 0
            &&& done.draft(path).base_etag == Seq::<char>::empty()
            &&& done.queue == v.queue
            &&& done.cached == v.cached
            &&& forall|k: Seq<char>|
                k != crate::drafts::path_hash(path) && #[trigger] v.drafts.contains_key(k)
                    ==> done.drafts.contains_key(k) && done.drafts[k] == v.drafts[k]
            &&& forall|id: u64|
                id != c.node.0 && #[trigger] v.tree.attrs.contains_key(id)
                    ==> done.tree.attrs.contains_key(id) && done.tree.attrs[id] == v.tree.attrs[id]
        },
{
    crate::frontend_util::a_taken_name_is_told_as_taken(name);
    if let Ok(c) = r {
        let done = crate::vfs::namespace::creation_finished(w, c.meta);
        crate::tree::lemma_local_keeps_order(v.tree, parent, name);
        a_name_resolves_to_one_node(w, parent, name);
        a_name_resolves_to_one_node(done, parent, name);
    }
}

/// Of two creations of one name the second is refused, whether the first is finished by then or only
/// begun, and it leaves the first one's file as it is.
pub proof fn of_two_creations_the_second_is_refused(
    v: VfsView,
    parent: u64,
    name: Seq<char>,
    now: i64,
    first: Creation,
    w: VfsView,
    finished: bool,
    later: i64,
    second: Result<Creation, VfsError>,
    after: VfsView,
)
    requires
        crate::tree::tree_wf(v.tree),
        v.tree.next_id < u64::MAX,
        crate::vfs::namespace::create_answers(v, parent, name, now, Ok(first), w),
        ({
            let at = if finished {
                crate::vfs::namespace::creation_finished(w, first.meta)
            } else {
                w
            };
            crate::vfs::namespace::create_answers(at, parent, name, later, second, after)
        }),
    ensures
        second is Err,
        after == (if finished {
            crate::vfs::namespace::creation_finished(w, first.meta)
        } else {
            w
        }),
{
    creating_takes_a_free_name_or_changes_nothing(v, parent, name, now, Ok(first), w);
}

/// An entry that was removed, a file or a directory, no longer resolves, and nothing is known of its node.
pub proof fn a_removed_entry_no_longer_resolves(v: VfsView, parent: u64, name: Seq<char>)
    requires
        crate::tree::tree_wf(v.tree),
        v.entry(parent, name) is Some,
    ensures
        ({
            let path = shown(v, parent, name).remote_path;
            let w = crate::vfs::namespace::draft_dropped(v, path);
            let gone = VfsView { tree: crate::tree::forgotten(w.tree, path), ..w };
            &&& gone.entry(parent, name) is None
            &&& !gone.tree.attrs.contains_key(node_of(v, parent, name))
            &&& !gone.has_draft(path)
        }),
{
    let path = shown(v, parent, name).remote_path;
    let w = crate::vfs::namespace::draft_dropped(v, path);
    let gone = VfsView { tree: crate::tree::forgotten(w.tree, path), ..w };
    a_name_resolves_to_one_node(v, parent, name);
    crate::tree::lemma_forgetting_keeps_order(v.tree, path);
    a_name_resolves_to_one_node(gone, parent, name);
    assert(crate::tree::entries_at(v.tree, path).contains(v.tree.known[(parent, name)]));
}

/// An entry that the server renamed, a file or a directory, no longer resolves under its old name, and
/// nothing is known of its node; the directories that held it and hold it now are listed again before they
/// are read.
pub proof fn a_renamed_entry_leaves_its_old_name(
    v: VfsView,
    parent: u64,
    name: Seq<char>,
    new_path: Seq<char>,
    dir: u64,
    now: u64,
)
    requires
        crate::tree::tree_wf(v.tree),
        v.entry(parent, name) is Some,
        v.tree.attrs.contains_key(dir),
        v.tree.attrs[dir].is_dir,
        ({
            let path = shown(v, parent, name).remote_path;
            let holds_old = crate::text::rsplit_once_at(path, '/') matches Some(p)
                && v.tree.attrs[dir].remote_path == p.0;
            let holds_new = crate::text::rsplit_once_at(new_path, '/') matches Some(p)
                && v.tree.attrs[dir].remote_path == p.0;
            holds_old || holds_new
        }),
    ensures
        ({
            let path = shown(v, parent, name).remote_path;
            let t = crate::tree::forgotten(crate::tree::forgotten(v.tree, path), new_path);
            let w = VfsView { tree: t, ..v };
            &&& w.entry(parent, name) is None
            &&& !t.attrs.contains_key(node_of(v, parent, name))
            &&& t.attrs.contains_key(dir) ==> !crate::tree::is_fresh(t, dir, now)
        }),
{
    let path = shown(v, parent, name).remote_path;
    let u = crate::tree::forgotten(v.tree, path);
    let t = crate::tree::forgotten(u, new_path);
    a_name_resolves_to_one_node(v, parent, name);
    crate::tree::lemma_forgetting_keeps_order(v.tree, path);
    crate::tree::lemma_forgetting_keeps_order(u, new_path);
    a_name_resolves_to_one_node(VfsView { tree: t, ..v }, parent, name);
    assert(crate::tree::entries_at(v.tree, path).contains(v.tree.known[(parent, name)]));
    if t.attrs.contains_key(dir) {
        assert(u.attrs.contains_key(dir));
        assert(crate::tree::listings_touched(v.tree, path).contains(dir)
            || crate::tree::listings_touched(u, new_path).contains(dir));
    }
}

/// A file that the server has never seen resolves under its new name after a rename, and no longer under
/// the old one.
pub proof fn a_renamed_new_file_resolves_under_its_new_name(
    v: VfsView,
    parent: u64,
    name: Seq<char>,
    new_parent: u64,
    new_name: Seq<char>,
)
    requires
        crate::tree::tree_wf(v.tree),
        v.tree.next_id < u64::MAX,
        v.entry(parent, name) is Some,
        !shown(v, parent, name).is_dir,
        v.tree.attrs.contains_key(new_parent),
        new_parent == crate::tree::ROOT_ID || v.tree.attrs[new_parent].remote_path != shown(
            v,
            parent,
            name,
        ).remote_path,
        (parent, name) != (new_parent, new_name),
    ensures
        ({
            let path = shown(v, parent, name).remote_path;
            let t = crate::tree::forgotten(v.tree, path);
            let w = VfsView { tree: crate::tree::local_inserted(t, new_parent, new_name), ..v };
            &&& w.entry(new_parent, new_name) is Some
            &&& shown(w, new_parent, new_name).remote_path == crate::text::child_path(
                v.tree.attrs[new_parent].remote_path,
                new_name,
            )
            &&& w.entry(parent, name) is None
        }),
{
    let path = shown(v, parent, name).remote_path;
    let t = crate::tree::forgotten(v.tree, path);
    let u = crate::tree::local_inserted(t, new_parent, new_name);
    let w = VfsView { tree: u, ..v };
    let id = v.tree.known[(parent, name)];
    a_name_resolves_to_one_node(v, parent, name);
    crate::tree::lemma_forgetting_keeps_order(v.tree, path);
    crate::tree::lemma_local_keeps_order(t, new_parent, new_name);
    assert(crate::tree::entries_at(v.tree, path).contains(id));
    assert(t.attrs.contains_key(new_parent));
    a_name_resolves_to_one_node(w, new_parent, new_name);
    a_name_resolves_to_one_node(w, parent, name);
    assert(u.known.contains_key((parent, name)));
    assert(u.known.contains_key((new_parent, new_name)));
    assert(u.known[(new_parent, new_name)] != id);
}

// ---------------------------------------------------------------------------
// Requests of a rename.
// ---------------------------------------------------------------------------

/// Where an entry at `name` in `dir` is after a request, if the request is about it as it is then; a
/// request to delete must be about something else.
pub open spec fn after_step(at: Option<(Seq<char>, Seq<char>)>, step: StepView) -> Option<
    (Seq<char>, Seq<char>),
> {
    match at {
        None => None,
        Some(p) => {
            let here = crate::text::child_path(p.0, p.1);
            match step {
                StepView::Delete { uri } => if uri == here {
                    None
                } else {
                    at
                },
                StepView::Rename { uri, new_name } => if uri == here {
                    Some((p.0, new_name))
                } else {
                    None
                },
                StepView::Move { uri, dst } => if uri == here {
                    Some((dst, p.1))
                } else {
                    None
                },
            }
        },
    }
}

/// Where an entry is after the requests, one by one.
pub open spec fn after_steps(at: Option<(Seq<char>, Seq<char>)>, steps: Seq<StepView>) -> Option<
    (Seq<char>, Seq<char>),
>
    decreases steps.len(),
{
    if steps.len() == 0 {
        at
    } else {
        after_step(after_steps(at, steps.drop_last()), steps.last())
    }
}

proof fn lemma_steps_push(
    at: Option<(Seq<char>, Seq<char>)>,
    steps: Seq<StepView>,
    step: StepView,
)
    ensures
        after_steps(at, steps.push(step)) == after_step(after_steps(at, steps), step),
{
    assert(steps.push(step).drop_last() =~= steps);
}

/// The requests of a rename take the entry to its new place, each of them about the entry where it is at
/// that time; what is deleted first is never the entry itself.
pub proof fn a_rename_ends_at_the_new_name(
    dir: Seq<char>,
    name: Seq<char>,
    dst: Seq<char>,
    new_name: Seq<char>,
    same_dir: bool,
    replaces: bool,
)
    requires
        crate::text::child_path(dir, name) != crate::text::child_path(dst, new_name),
        same_dir ==> dir == dst,
    ensures
        after_steps(
            Some((dir, name)),
            crate::vfs::namespace::rename_steps(
                crate::text::child_path(dir, name),
                name,
                dst,
                new_name,
                same_dir,
                replaces,
            ),
        ) == Some((dst, new_name)),
{
    let at = Some((dir, name));
    let old_path = crate::text::child_path(dir, name);
    let delete = StepView::Delete { uri: crate::text::child_path(dst, new_name) };
    let none = Seq::<StepView>::empty();
    assert(after_steps(at, none) == at);
    lemma_steps_push(at, none, delete);
    assert(none.push(delete) =~= seq![delete]);
    let first = if replaces {
        seq![delete]
    } else {
        none
    };
    assert(after_steps(at, first) == at);
    let rename = StepView::Rename { uri: old_path, new_name };
    let step = StepView::Move { uri: old_path, dst };
    lemma_steps_push(at, first, rename);
    lemma_steps_push(at, first, step);
    lemma_steps_push(
        at,
        first.push(step),
        StepView::Rename { uri: crate::text::child_path(dst, name), new_name },
    );
}

// ---------------------------------------------------------------------------
// Open files.
// ---------------------------------------------------------------------------

/// What an open file reads is never evicted, however far the cache is over budget.
pub proof fn open_files_are_never_evicted(
    v: VfsView,
    gone: Seq<Seq<char>>,
    after: Map<Seq<char>, crate::cache::EntryView>,
    h: u64,
)
    requires
        crate::vfs::handles_retained(v),
        v.open.dom().finite(),
        v.open.contains_key(h),
        crate::cache::evicts_to(v.cached, v.retains, v.cache_budget, gone, after),
    ensures
        ({
            let k = v.open[h].hash();
            &&& !gone.contains(k)
            &&& crate::cache::lookup_entry(after, k) == crate::cache::lookup_entry(v.cached, k)
        }),
{
    let k = v.open[h].hash();
    let on = v.open.dom().filter(|x: u64| v.open[x].hash() == k);
    assert(on.contains(h));
    vstd::set_lib::lemma_set_empty_equivalency_len(on);
    assert(crate::vfs::open_count(v.open, k) > 0);
    assert(v.retains.contains_key(k));
    crate::cache_laws::retained_entries_survive_eviction(
        v.cached,
        v.retains,
        v.cache_budget,
        gone,
        after,
        k,
    );
}

/// A draft that is saved, closed, opened again and closed again is queued for one upload, not two.
pub proof fn reopening_leaves_one_upload_queued(q: QueueView, path: Seq<char>)
    requires
        !q.timers.contains(path),
    ensures
        ({
            let once = crate::writeback::armed(q, path);
            let again = crate::writeback::armed(crate::writeback::cancelled(once, path), path);
            &&& again.timers == once.timers
            &&& again.busy == once.busy
            &&& again.events == once.events.push(
                EventView::UploadCancelled { remote_path: path },
            ).push(EventView::UploadQueued { remote_path: path })
        }),
{
    let once = crate::writeback::armed(q, path);
    let again = crate::writeback::armed(crate::writeback::cancelled(once, path), path);
    assert(again.timers =~= once.timers);
}

// ---------------------------------------------------------------------------
// Uploads.
// ---------------------------------------------------------------------------

/// A write to a draft while its upload is under way is never lost: when the upload lands, the draft
/// stays, with what was written, and is queued again as a change of what was uploaded.
pub proof fn a_write_during_an_upload_is_never_lost(
    v: VfsView,
    path: Seq<char>,
    size: u64,
    now: i64,
    base: Option<Seq<char>>,
    event: EventView,
)
    requires
        v.has_draft(path),
        v.draft(path).stamp < v.draft_clock,
    ensures
        ({
            let uploaded = v.draft(path).stamp;
            let written = crate::drafts::edited(v.draft(path), size, now, v.draft_clock);
            let w = v.with_draft(path, written);
            let after = crate::vfs::upload::settled(w, path, uploaded, base, event);
            &&& after.has_draft(path)
            &&& after.draft(path).size == size
            &&& after.draft(path).stamp == v.draft_clock
            &&& after.draft(path).state == DraftState::Pending
            &&& after.queue.timers.contains(path)
            &&& base matches Some(etag) ==> after.draft(path).base_etag == etag
        }),
{
}

/// A draft that was not written to while its upload was under way is done when the upload lands, and
/// nothing of the path is left queued on its account.
pub proof fn an_unchanged_draft_is_done_once_uploaded(
    v: VfsView,
    path: Seq<char>,
    base: Option<Seq<char>>,
    event: EventView,
)
    requires
        v.has_draft(path),
    ensures
        ({
            let after = crate::vfs::upload::settled(v, path, v.draft(path).stamp, base, event);
            &&& !after.has_draft(path)
            &&& after.queue.timers == v.queue.timers
            &&& after.queue.busy == v.queue.busy - 1
            &&& after.queue.events == v.queue.events.push(event)
        }),
{
    assert(v.queue.events + seq![event] =~= v.queue.events.push(event));
}

/// An upload that landed leaves no block of the path's old content to be read, under whatever etag.
pub proof fn an_upload_leaves_no_stale_block(
    v: VfsView,
    path: Seq<char>,
    stamp: u64,
    base: Option<Seq<char>>,
    event: EventView,
    etag: Seq<char>,
    idx: u64,
)
    requires
        crate::cache_laws::well_named(v.cached),
        !crate::cache_laws::shares_directory(v.cached, path, etag),
    ensures
        ({
            let purged = VfsView { cached: crate::cache::without_path(v.cached, path), ..v };
            let after = crate::vfs::upload::settled(purged, path, stamp, base, event);
            &&& crate::cache_laws::well_named(after.cached)
            &&& !crate::cache::is_cached(after.cached, crate::cache::key_hash(path, etag), idx)
        }),
{
    crate::cache_laws::a_purged_path_reads_nothing(v.cached, path, etag, idx);
}

// ---------------------------------------------------------------------------
// Trying again.
// ---------------------------------------------------------------------------

/// Whether every draft lies in the directory that its path names.
pub open spec fn well_named(drafts: Map<Seq<char>, DraftView>) -> bool {
    forall|k: Seq<char>| #[trigger]
        drafts.contains_key(k) ==> k == crate::drafts::path_hash(drafts[k].remote_path)
}

/// Every draft stays in the directory that its path names: when one begins, changes, goes, or is moved to
/// another path.
pub proof fn drafts_lie_where_their_paths_say(
    v: VfsView,
    meta: DraftMeta,
    d: DraftView,
    path: Seq<char>,
    to: Seq<char>,
)
    requires
        well_named(v.drafts),
        d.remote_path == path,
    ensures
        well_named(crate::vfs::files::draft_begun(v, meta).drafts),
        well_named(v.with_draft(path, d).drafts),
        well_named(v.drafts.remove(crate::drafts::path_hash(path))),
        well_named(crate::drafts_laws::renamed(v.drafts, path, to)),
{
}

proof fn lemma_unstranded(
    drafts: Map<Seq<char>, DraftView>,
    in_flight: Set<Seq<char>>,
    paths: Seq<Seq<char>>,
    n: int,
)
    requires
        0 <= n <= paths.len(),
    ensures
        ({
            let m = crate::vfs::upload::unstranded(drafts, in_flight, paths, n);
            let a = crate::vfs::upload::ready(drafts, in_flight, paths, n);
            let b = crate::vfs::upload::stranded(drafts, in_flight, paths, n);
            &&& m.dom() == drafts.dom()
            &&& forall|k: Seq<char>| #[trigger]
                m.contains_key(k) ==> m[k] == drafts[k] || (drafts[k].state == DraftState::Uploading
                    && m[k] == (DraftView { state: DraftState::Pending, ..drafts[k] }))
            &&& forall|i: int|
                0 <= i < n && crate::vfs::upload::is_parked(drafts, #[trigger] paths[i])
                    ==> a.contains(paths[i])
            &&& forall|i: int|
                0 <= i < n && crate::vfs::upload::is_stranded(drafts, in_flight, #[trigger] paths[i])
                    ==> (a.contains(paths[i]) || b.contains(paths[i]))
                    && crate::vfs::upload::is_parked(m, paths[i])
        }),
    decreases n,
{
    if n > 0 {
        lemma_unstranded(drafts, in_flight, paths, n - 1);
        let before = crate::vfs::upload::unstranded(drafts, in_flight, paths, n - 1);
        let m = crate::vfs::upload::unstranded(drafts, in_flight, paths, n);
        let a0 = crate::vfs::upload::ready(drafts, in_flight, paths, n - 1);
        let b0 = crate::vfs::upload::stranded(drafts, in_flight, paths, n - 1);
        let a = crate::vfs::upload::ready(drafts, in_flight, paths, n);
        let b = crate::vfs::upload::stranded(drafts, in_flight, paths, n);
        let p = paths[n - 1];
        let k = crate::drafts::path_hash(p);
        assert(m.dom() =~= drafts.dom());
        assert forall|x: Seq<char>| a0.contains(x) implies a.contains(x) by {
            let i = choose|i: int| 0 <= i < a0.len() && a0[i] == x;
            assert(a[i] == x);
        }
        assert forall|x: Seq<char>| b0.contains(x) implies b.contains(x) by {
            let i = choose|i: int| 0 <= i < b0.len() && b0[i] == x;
            assert(b[i] == x);
        }
        if crate::vfs::upload::is_parked(before, p) {
            assert(a[a0.len() as int] == p);
        }
        if crate::vfs::upload::is_stranded(before, in_flight, p) {
            assert(b[b0.len() as int] == p);
        }
        if drafts.contains_key(k) {
            assert(before.contains_key(k));
        }
        assert forall|i: int|
            0 <= i < n && crate::vfs::upload::is_stranded(drafts, in_flight, #[trigger] paths[i]) implies (
        a.contains(paths[i]) || b.contains(paths[i])) && crate::vfs::upload::is_parked(
            m,
            paths[i],
        ) by {
            let j = crate::drafts::path_hash(paths[i]);
            assert(before.contains_key(j));
            assert(before[j] == drafts[j] || before[j].state == DraftState::Pending);
        }
    }
}

/// Trying again finds every draft that waits, and every one that is marked as being uploaded while
/// nothing uploads it; the latter wait from then on. Nothing else of any draft changes.
pub proof fn retrying_finds_every_waiting_draft(v: VfsView, paths: Seq<Seq<char>>, k: Seq<char>)
    requires
        well_named(v.drafts),
        crate::drafts::lists_waiting(v.drafts, paths),
        v.drafts.contains_key(k),
        crate::drafts::is_waiting(v.drafts[k].state),
        v.drafts[k].state == DraftState::Uploading ==> !v.queue.in_flight.contains(
            v.drafts[k].remote_path,
        ),
    ensures
        ({
            let n = paths.len() as int;
            let path = v.drafts[k].remote_path;
            let after = crate::vfs::upload::unstranded(v.drafts, v.queue.in_flight, paths, n);
            &&& crate::vfs::upload::ready(v.drafts, v.queue.in_flight, paths, n).contains(path)
                || crate::vfs::upload::stranded(v.drafts, v.queue.in_flight, paths, n).contains(path)
            &&& after.contains_key(k)
            &&& after[k] == (DraftView { state: DraftState::Pending, ..v.drafts[k] })
        }),
{
    let n = paths.len() as int;
    let path = v.drafts[k].remote_path;
    lemma_unstranded(v.drafts, v.queue.in_flight, paths, n);
    crate::drafts::lemma_lists_waiting(v.drafts, paths);
    assert(paths.contains(path));
    let i = choose|i: int| 0 <= i < paths.len() && paths[i] == path;
    assert(crate::drafts::path_hash(paths[i]) == k);
    let after = crate::vfs::upload::unstranded(v.drafts, v.queue.in_flight, paths, n);
    assert(after.contains_key(k));
}

proof fn lemma_tried_once(
    drafts: Map<Seq<char>, DraftView>,
    in_flight: Set<Seq<char>>,
    paths: Seq<Seq<char>>,
    n: int,
)
    requires
        paths.no_duplicates(),
        0 <= n <= paths.len(),
    ensures
        crate::vfs::upload::ready(drafts, in_flight, paths, n).no_duplicates(),
        crate::vfs::upload::stranded(drafts, in_flight, paths, n).no_duplicates(),
        forall|p: Seq<char>| #[trigger]
            crate::vfs::upload::ready(drafts, in_flight, paths, n).contains(p) ==> paths.take(n).contains(p)
                && !crate::vfs::upload::stranded(drafts, in_flight, paths, n).contains(p),
        forall|p: Seq<char>| #[trigger]
            crate::vfs::upload::stranded(drafts, in_flight, paths, n).contains(p) ==> paths.take(
                n,
            ).contains(p),
    decreases n,
{
    if n > 0 {
        lemma_tried_once(drafts, in_flight, paths, n - 1);
        let last = paths[n - 1];
        let before = paths.take(n - 1);
        let now = paths.take(n);
        assert(now =~= before.push(last));
        assert(!before.contains(last)) by {
            if before.contains(last) {
                let i = choose|i: int| 0 <= i < before.len() && before[i] == last;
                assert(paths[i] == paths[n - 1]);
            }
        }
        assert forall|p: Seq<char>| before.contains(p) || p == last implies now.contains(p) by {
            if before.contains(p) {
                let i = choose|i: int| 0 <= i < before.len() && before[i] == p;
                assert(now[i] == p);
            } else {
                assert(now[n - 1] == p);
            }
        }
        let r0 = crate::vfs::upload::ready(drafts, in_flight, paths, n - 1);
        let s0 = crate::vfs::upload::stranded(drafts, in_flight, paths, n - 1);
        lemma_push_contains(r0, last);
        lemma_push_contains(s0, last);
    }
}

proof fn lemma_push_contains(s: Seq<Seq<char>>, x: Seq<char>)
    ensures
        forall|p: Seq<char>| #[trigger] s.push(x).contains(p) <==> s.contains(p) || p == x,
        s.no_duplicates() && !s.contains(x) ==> s.push(x).no_duplicates(),
{
    let t = s.push(x);
    assert forall|p: Seq<char>| #[trigger] t.contains(p) <==> s.contains(p) || p == x by {
        if s.contains(p) {
            let i = choose|i: int| 0 <= i < s.len() && s[i] == p;
            assert(t[i] == p);
        }
        if p == x {
            assert(t[s.len() as int] == p);
        }
        if t.contains(p) {
            let i = choose|i: int| 0 <= i < t.len() && t[i] == p;
            if i < s.len() {
                assert(s[i] == p);
            }
        }
    }
    if s.no_duplicates() && !s.contains(x) {
        assert forall|i: int, j: int| 0 <= i < t.len() && 0 <= j < t.len() && i != j implies t[i]
            != t[j] by {
            if i < s.len() && j < s.len() {
                assert(s[i] != s[j]);
            } else if i < s.len() {
                assert(s.contains(s[i]));
            } else {
                assert(s.contains(s[j]));
            }
        }
    }
}

/// Trying again what waits finds no draft twice.
pub proof fn retrying_tries_no_draft_twice(v: VfsView, paths: Seq<Seq<char>>)
    requires
        well_named(v.drafts),
        crate::drafts::lists_waiting(v.drafts, paths),
    ensures
        ({
            let n = paths.len() as int;
            let ready = crate::vfs::upload::ready(v.drafts, v.queue.in_flight, paths, n);
            let stranded = crate::vfs::upload::stranded(v.drafts, v.queue.in_flight, paths, n);
            &&& ready.no_duplicates()
            &&& stranded.no_duplicates()
            &&& forall|p: Seq<char>| #[trigger] ready.contains(p) ==> !stranded.contains(p)
        }),
{
    let keys = choose|keys: Seq<Seq<char>>| #[trigger]
        crate::drafts::waits_in(v.drafts, keys, paths);
    assert forall|i: int, j: int|
        0 <= i < paths.len() && 0 <= j < paths.len() && i != j implies paths[i] != paths[j] by {
        assert(keys.contains(keys[i]) && keys.contains(keys[j]));
        assert(v.drafts.contains_key(keys[i]) && v.drafts.contains_key(keys[j])) by {
            let a = crate::drafts::is_waiting(v.drafts[keys[i]].state);
            let b = crate::drafts::is_waiting(v.drafts[keys[j]].state);
        }
        assert(paths[i] == v.drafts[keys[i]].remote_path);
        assert(paths[j] == v.drafts[keys[j]].remote_path);
    }
    lemma_tried_once(v.drafts, v.queue.in_flight, paths, paths.len() as int);
}

} // verus!
