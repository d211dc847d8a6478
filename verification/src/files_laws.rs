//! What holds of showing, opening, reading, writing and closing files.

use vstd::prelude::*;

use crate::cache::{FileKey, MetaFile};
use crate::drafts::{DraftMeta, DraftState};
use crate::error::VfsError;
use crate::tree::{AttrView, NodeAttr, NodeId, RemoteFile, LISTING_TTL_MILLIS};
use crate::vfs::files::{Source, TruncatePlan, WritePlan};
use crate::vfs::handles::{Closing, OpenPlan, ReadPlan};
use crate::vfs::{FileHandle, VfsView};

verus! {

// ---------------------------------------------------------------------------
// What is shown of a file.
// ---------------------------------------------------------------------------

/// Whether what is shown of a file is what is drafted of it: where its path has a draft, the size and the
/// time of the last write that the draft records.
pub open spec fn shows_its_draft(v: VfsView, a: AttrView) -> bool {
    let k = crate::drafts::path_hash(a.remote_path);
    v.drafts.contains_key(k) ==> a.size == v.drafts[k].size && a.mtime_secs
        == v.drafts[k].last_write_unix
}

/// What is shown of an entry whose path has a draft is the draft's size and the time of its last write,
/// whatever version the entry has, and whether the server has seen it or not; of any other entry, what the
/// server told. Nothing else of it is shown otherwise than it was told.
pub proof fn a_draft_is_shown_whatever_the_server_told(v: VfsView, a: AttrView)
    ensures
        shows_its_draft(v, v.overlaid(a)),
        !v.drafts.contains_key(crate::drafts::path_hash(a.remote_path)) ==> v.overlaid(a) == a,
        v.overlaid(a).name == a.name,
        v.overlaid(a).remote_path == a.remote_path,
        v.overlaid(a).is_dir == a.is_dir,
        v.overlaid(a).etag == a.etag,
{
}

/// What is asked of a node is answered if and only if something is known of it: its name, path, kind and
/// version as they were told, and its draft where its path has one.
pub proof fn a_node_shows_its_draft(v: VfsView, node: u64, r: Option<NodeAttr>)
    requires
        crate::vfs::getattr_shows(v, node, r),
    ensures
        r is Some <==> v.tree.attrs.contains_key(node),
        r matches Some(a) ==> {
            let b = v.tree.attrs[node];
            &&& shows_its_draft(v, a@)
            &&& a.name@ == b.name
            &&& a.remote_path@ == b.remote_path
            &&& a.is_dir == b.is_dir
            &&& a.etag@ == b.etag
            &&& !v.drafts.contains_key(crate::drafts::path_hash(b.remote_path)) ==> a.size == b.size
                && a.mtime_secs == b.mtime_secs
        },
{
}

/// A name is found if and only if something is known of the node that bears it; what is shown of it is
/// what is shown of the node, and so of its draft.
pub proof fn a_name_shows_what_its_node_shows(
    v: VfsView,
    parent: u64,
    name: Seq<char>,
    r: Option<(NodeId, NodeAttr)>,
    asked: Option<NodeAttr>,
)
    requires
        crate::tree::tree_wf(v.tree),
        crate::vfs::lookup_shows(v, parent, name, r),
        r matches Some(p) ==> crate::vfs::getattr_shows(v, p.0.0, asked),
    ensures
        r is Some <==> v.tree.known.contains_key((parent, name)) && v.tree.attrs.contains_key(
            v.tree.known[(parent, name)],
        ),
        r matches Some(p) ==> {
            &&& p.0.0 == v.tree.known[(parent, name)]
            &&& p.1.name@ == name
            &&& shows_its_draft(v, p.1@)
            &&& asked matches Some(a) && a@ == p.1@
        },
{
    crate::vfs_laws::a_name_resolves_to_one_node(v, parent, name);
    if let Some(p) = r {
        assert(v.tree.known.contains_key((parent, name)));
    }
}

proof fn lemma_row(ids: Seq<u64>, attrs: Map<u64, AttrView>, i: int)
    requires
        0 <= i < crate::tree::known_rows(ids, attrs).len(),
    ensures
        ({
            let row = crate::tree::known_rows(ids, attrs)[i];
            ids.contains(row.0) && attrs.contains_key(row.0) && row.1 == attrs[row.0]
        }),
    decreases ids.len(),
{
    if ids.len() > 0 {
        let rest = ids.drop_last();
        let before = crate::tree::known_rows(rest, attrs);
        assert(ids[ids.len() - 1] == ids.last());
        if i < before.len() {
            lemma_row(rest, attrs, i);
            let id = before[i].0;
            let j = choose|j: int| 0 <= j < rest.len() && rest[j] == id;
            assert(ids[j] == id);
        }
    }
}

/// A directory shows the entries that are known in it and no others, whether a listing told of them or
/// they exist only here; each is shown as its node is, and so with its draft.
pub proof fn a_directory_shows_what_its_nodes_show(
    v: VfsView,
    dir: u64,
    r: Seq<(NodeId, NodeAttr)>,
    i: int,
    asked: Option<NodeAttr>,
    name: Seq<char>,
)
    requires
        crate::tree::tree_wf(v.tree),
        crate::vfs::readdir_shows(v, dir, r),
        0 <= i < r.len() ==> crate::vfs::getattr_shows(v, r[i].0.0, asked),
    ensures
        0 <= i < r.len() ==> {
            &&& v.tree.known.contains_key((dir, r[i].1.name@))
            &&& v.tree.known[(dir, r[i].1.name@)] == r[i].0.0
            &&& shows_its_draft(v, r[i].1@)
            &&& asked matches Some(a) && a@ == r[i].1@
        },
        v.tree.known.contains_key((dir, name)) && v.tree.attrs.contains_key(
            v.tree.known[(dir, name)],
        ) ==> exists|j: int|
            0 <= j < r.len() && (#[trigger] r[j]).0.0 == v.tree.known[(dir, name)],
{
    let t = v.tree;
    let listed = crate::tree::listed_rows(t, dir);
    let extra = choose|extra: Seq<(u64, AttrView)>| #[trigger]
        crate::vfs::only_here(t, dir, extra) && crate::tree::rows(r) == (listed
            + extra).map_values(|p: (u64, AttrView)| (p.0, v.overlaid(p.1)));
    let all = listed + extra;
    let shown = all.map_values(|p: (u64, AttrView)| (p.0, v.overlaid(p.1)));
    assert(r.len() == all.len()) by {
        assert(crate::tree::rows(r).len() == r.len());
        assert(shown.len() == all.len());
    }
    if 0 <= i < r.len() {
        let id = all[i].0;
        assert(crate::tree::rows(r)[i] == (r[i].0.0, r[i].1@));
        assert(shown[i] == (id, v.overlaid(all[i].1)));
        if i < listed.len() {
            lemma_row(t.children[dir], t.attrs, i);
            assert(crate::reach::edge(t.children, dir, id));
        } else {
            assert(extra.contains(extra[i - listed.len()]));
            assert(extra.contains((id, all[i].1)));
        }
        assert(t.attrs.contains_key(id) && all[i].1 == t.attrs[id]);
        let n = choose|n: Seq<char>| #[trigger]
            t.known.contains_key((dir, n)) && t.known[(dir, n)] == id;
        assert(t.attrs[t.known[(dir, n)]].name == n);
    }
    if t.known.contains_key((dir, name)) && t.attrs.contains_key(t.known[(dir, name)]) {
        let id = t.known[(dir, name)];
        assert(crate::tree::is_known_child(t, dir, id));
        let j = if crate::vfs::lists_id(listed, id) {
            choose|j: int| 0 <= j < listed.len() && (#[trigger] listed[j]).0 == id
        } else {
            assert(extra.contains((id, t.attrs[id])));
            listed.len() + (choose|j: int|
                0 <= j < extra.len() && extra[j] == (id, t.attrs[id]))
        };
        assert(all[j].0 == id);
        assert(shown[j].0 == id);
        assert(crate::tree::rows(r)[j] == (r[j].0.0, r[j].1@));
        assert(r[j].0.0 == id);
    }
}

proof fn lemma_rows_once(ids: Seq<u64>, attrs: Map<u64, AttrView>, i: int, j: int)
    requires
        ids.no_duplicates(),
        0 <= i < j < crate::tree::known_rows(ids, attrs).len(),
    ensures
        crate::tree::known_rows(ids, attrs)[i].0 != crate::tree::known_rows(ids, attrs)[j].0,
    decreases ids.len(),
{
    if ids.len() > 0 {
        let rest = ids.drop_last();
        let before = crate::tree::known_rows(rest, attrs);
        if j < before.len() {
            lemma_rows_once(rest, attrs, i, j);
        } else {
            lemma_row(rest, attrs, i);
            let id = before[i].0;
            let n = choose|n: int| 0 <= n < rest.len() && rest[n] == id;
            assert(ids[n] == id);
            assert(ids[ids.len() - 1] == ids.last());
        }
    }
}

/// A directory shows each entry once, where its listing does.
pub proof fn a_directory_shows_each_entry_once(
    v: VfsView,
    dir: u64,
    r: Seq<(NodeId, NodeAttr)>,
    i: int,
    j: int,
)
    requires
        crate::vfs::readdir_shows(v, dir, r),
        v.tree.children.contains_key(dir) ==> v.tree.children[dir].no_duplicates(),
        0 <= i < j < r.len(),
    ensures
        r[i].0.0 != r[j].0.0,
{
    let t = v.tree;
    let listed = crate::tree::listed_rows(t, dir);
    let extra = choose|extra: Seq<(u64, AttrView)>| #[trigger]
        crate::vfs::only_here(t, dir, extra) && crate::tree::rows(r) == (listed
            + extra).map_values(|p: (u64, AttrView)| (p.0, v.overlaid(p.1)));
    let all = listed + extra;
    let shown = all.map_values(|p: (u64, AttrView)| (p.0, v.overlaid(p.1)));
    assert(crate::tree::rows(r).len() == r.len());
    assert(shown.len() == all.len());
    assert(crate::tree::rows(r)[i] == (r[i].0.0, r[i].1@) && shown[i].0 == all[i].0);
    assert(crate::tree::rows(r)[j] == (r[j].0.0, r[j].1@) && shown[j].0 == all[j].0);
    if j < listed.len() {
        lemma_rows_once(t.children[dir], t.attrs, i, j);
    } else if i >= listed.len() {
        assert(extra[i - listed.len()].0 != extra[j - listed.len()].0);
    } else {
        let x = extra[j - listed.len()];
        assert(extra.contains(x));
        assert(extra.contains((x.0, x.1)));
        assert(listed[i].0 == all[i].0);
    }
}

/// A listing that is five seconds old or more is asked for again, and so is one that was told to be; one
/// that is younger is not, whatever the directory. What is asked for is the directory's own path, and a
/// directory of which nothing is known is not asked for.
pub proof fn a_listing_is_asked_for_when_it_is_old(
    v: VfsView,
    dir: u64,
    now: u64,
    r: Result<Option<String>, VfsError>,
)
    requires
        crate::vfs::listing_planned(v, dir, now, r),
    ensures
        ({
            let young = v.tree.children.contains_key(dir) && v.tree.listed_at.contains_key(dir) && now
                < v.tree.listed_at[dir] + 5_000;
            &&& (r matches Ok(None)) <==> young
            &&& (r matches Ok(Some(path)) ==> path@ == v.tree.attrs[dir].remote_path)
            &&& r is Err <==> !young && !v.tree.attrs.contains_key(dir)
        }),
{
    assert(LISTING_TTL_MILLIS == 5_000);
}

// ---------------------------------------------------------------------------
// Opening.
// ---------------------------------------------------------------------------

/// Every file of which something is known can be opened, and nothing else. A download URL is needed if and
/// only if the file has no draft. From then on one more handle is counted on the version that was opened,
/// and on no other; nothing else changes.
pub proof fn opening_counts_one_handle(
    v: VfsView,
    node: u64,
    r: Result<OpenPlan, VfsError>,
    w: VfsView,
    k: Seq<char>,
)
    requires
        crate::vfs::handles::open_answers(v, node, r, w),
        crate::vfs::handles::can_count(v, node),
    ensures
        r is Ok <==> v.tree.attrs.contains_key(node) && !v.tree.attrs[node].is_dir,
        r is Err ==> w == v,
        r matches Ok(plan) ==> {
            let a = v.tree.attrs[node];
            let key = crate::cache::key_hash(a.remote_path, a.etag);
            &&& plan.key.remote_path@ == a.remote_path
            &&& plan.key.etag@ == a.etag
            &&& plan.size == a.size
            &&& plan.needs_url <==> !v.drafts.contains_key(crate::drafts::path_hash(a.remote_path))
            &&& w.retains.contains_key(key)
            &&& w.retains[key] == (if v.retains.contains_key(key) {
                v.retains[key] + 1
            } else {
                1
            })
            &&& k != key ==> (w.retains.contains_key(k) <==> v.retains.contains_key(k))
                && w.retains[k] == v.retains[k]
            &&& w.drafts == v.drafts
            &&& w.open == v.open
            &&& w.queue == v.queue
            &&& w.cached == v.cached
            &&& w.tree == v.tree
        },
{
}

/// A file that is opened while its draft waits for the timer of its upload is edited again: the timer is
/// stopped, and what is drafted stays as it is. A draft that is being edited or uploaded, or that waits for
/// no timer, is left alone, and so are all others.
pub proof fn opening_calls_a_waiting_upload_off(
    v: VfsView,
    path: Seq<char>,
    r: Option<DraftMeta>,
    w: VfsView,
    k: Seq<char>,
)
    requires
        crate::vfs::handles::draft_reopened(v, path, r, w),
    ensures
        ({
            let key = crate::drafts::path_hash(path);
            let d = v.drafts[key];
            let waits = v.drafts.contains_key(key) && d.state == DraftState::Pending
                && v.queue.timers.contains(path);
            &&& r is Some <==> waits
            &&& r matches Some(m) ==> m.state == DraftState::Editing && m.size == d.size && m.base_etag@
                == d.base_etag
            &&& !waits ==> w == v
            &&& waits ==> {
                let e = w.drafts[key];
                &&& w.drafts.contains_key(key)
                &&& e.state == DraftState::Editing
                &&& e.remote_path == d.remote_path
                &&& e.base_etag == d.base_etag
                &&& e.size == d.size
                &&& e.last_write_unix == d.last_write_unix
                &&& e.stamp == d.stamp
                &&& !w.queue.timers.contains(path)
                &&& w.queue.busy == v.queue.busy - 1
            }
            &&& k != key ==> (w.drafts.contains_key(k) <==> v.drafts.contains_key(k)) && w.drafts[k]
                == v.drafts[k]
            &&& k != path ==> (w.queue.timers.contains(k) <==> v.queue.timers.contains(k))
        }),
{
}

// ---------------------------------------------------------------------------
// Reading.
// ---------------------------------------------------------------------------

/// A read through an open handle gets the bytes of the file's draft where it has one, whatever the handle
/// was opened with; otherwise those of the version that the handle was opened with. A handle that was
/// opened without a URL is stale once the draft is gone. Only a handle that is not open is told so.
pub proof fn a_read_goes_to_the_draft_or_to_the_version_that_was_opened(
    v: VfsView,
    h: u64,
    offset: u64,
    len: u32,
    r: Result<ReadPlan, VfsError>,
)
    requires
        crate::vfs::handles::read_answers(v, h, offset, len, r),
    ensures
        !v.open.contains_key(h) ==> (r matches Err(VfsError::Other(m)) && m@
            == "read: file handle is not open"@),
        v.open.contains_key(h) ==> {
            let f = v.open[h];
            let drafted = v.drafts.contains_key(crate::drafts::path_hash(f.remote_path));
            &&& (r matches Ok(ReadPlan::Draft { data_path, span })) <==> drafted
            &&& (r matches Ok(ReadPlan::Remote { key, size, download_url })) <==> !drafted
                && f.download_url is Some
            &&& (r matches Err(VfsError::StaleHandle(e)) && e.remote_path@ == f.remote_path) <==> !drafted
                && f.download_url is None
            &&& r matches Ok(ReadPlan::Remote { key, size, download_url }) ==> key.remote_path@
                == f.remote_path && key.etag@ == f.etag && size == f.size && Some(download_url@)
                == f.download_url
        },
{
}

/// The size that is shown of a file with a draft is where its reads end: a read of it gets the bytes that
/// it asks for, one by one, up to that size and none past it.
pub proof fn reads_of_a_draft_end_at_the_size_that_is_shown(
    v: VfsView,
    node: u64,
    shown: NodeAttr,
    h: u64,
    offset: u64,
    len: u32,
    r: Result<ReadPlan, VfsError>,
)
    requires
        crate::vfs::getattr_shows(v, node, Some(shown)),
        v.open.contains_key(h),
        v.open[h].remote_path == shown.remote_path@,
        v.drafts.contains_key(crate::drafts::path_hash(shown.remote_path@)),
        crate::vfs::handles::read_answers(v, h, offset, len, r),
    ensures
        r matches Ok(ReadPlan::Draft { data_path, span }) && span.offset == offset && span.len <= len
            && (offset >= shown.size ==> span.len == 0) && (offset < shown.size ==> offset + span.len
            <= shown.size && (span.len < len ==> offset + span.len == shown.size)),
{
}

/// Reads, writes and uploads of one draft go to one place.
pub proof fn a_draft_is_read_written_and_uploaded_in_one_place(
    v: VfsView,
    h: u64,
    other: u64,
    offset: u64,
    len: u32,
    read: Result<ReadPlan, VfsError>,
    written: Result<WritePlan, VfsError>,
    size: u64,
    now: i64,
    resized: Result<TruncatePlan, VfsError>,
)
    requires
        v.open.contains_key(h),
        v.open.contains_key(other),
        v.open[h].remote_path == v.open[other].remote_path,
        crate::vfs::handles::read_answers(v, h, offset, len, read),
        crate::vfs::files::write_answers(v, other, written),
        crate::vfs::files::truncate_answers(v, other, size, now, resized),
    ensures
        read matches Ok(ReadPlan::Draft { data_path, span }) ==> {
            &&& written matches Ok(WritePlan::Ready { remote_path: _, data_path: w }) && w@ == data_path@
            &&& resized matches Ok(TruncatePlan::Ready { remote_path: _, data_path: t }) && t@
                == data_path@
        },
{
}

// ---------------------------------------------------------------------------
// Writing.
// ---------------------------------------------------------------------------

/// A write through an open handle goes to the file's draft where it has one. Where it has none, one is made
/// of the version that the handle was opened with, and of that one.
pub proof fn a_write_starts_from_the_version_that_was_opened(
    v: VfsView,
    h: u64,
    r: Result<WritePlan, VfsError>,
)
    requires
        crate::vfs::files::write_answers(v, h, r),
    ensures
        r is Err <==> !v.open.contains_key(h),
        v.open.contains_key(h) ==> {
            let f = v.open[h];
            let drafted = v.drafts.contains_key(crate::drafts::path_hash(f.remote_path));
            &&& (r matches Ok(WritePlan::Ready { remote_path, data_path }) && remote_path@
                == f.remote_path) <==> drafted
            &&& r matches Ok(WritePlan::Materialize(s)) ==> s.key.remote_path@ == f.remote_path
                && s.key.etag@ == f.etag && s.size == f.size && crate::writeback::opt_text(
                s.download_url,
            ) == f.download_url
        },
{
}

/// A draft that is made for a write is a change of the version that the handle was opened with, so that its
/// upload conflicts with every other; it is as long as what was copied, and is being edited.
pub proof fn a_copied_draft_is_a_change_of_what_was_opened(
    v: VfsView,
    h: u64,
    source: Source,
    copied: u64,
    now: i64,
    meta: DraftMeta,
)
    requires
        crate::vfs::files::write_answers(v, h, Ok(WritePlan::Materialize(source))),
        crate::vfs::files::is_draft_of(meta, source, copied, now),
    ensures
        ({
            let w = crate::vfs::files::draft_begun(v, meta);
            let k = crate::drafts::path_hash(v.open[h].remote_path);
            &&& !v.drafts.contains_key(k)
            &&& w.drafts.contains_key(k)
            &&& w.drafts[k].base_etag == v.open[h].etag
            &&& w.drafts[k].remote_path == v.open[h].remote_path
            &&& w.drafts[k].size == copied
            &&& w.drafts[k].state == DraftState::Editing
            &&& w.drafts[k].last_write_unix == now
        }),
{
}

/// A resize goes to the file's draft where it has one. Where it has none, one is made: an empty one where
/// nothing of the file is to stay, and otherwise one of the version that the handle was opened with. Either
/// way the draft begins at that version.
pub proof fn a_resize_fetches_only_what_stays(
    v: VfsView,
    h: u64,
    size: u64,
    now: i64,
    r: Result<TruncatePlan, VfsError>,
)
    requires
        crate::vfs::files::truncate_answers(v, h, size, now, r),
    ensures
        r is Err <==> !v.open.contains_key(h),
        v.open.contains_key(h) ==> {
            let f = v.open[h];
            let drafted = v.drafts.contains_key(crate::drafts::path_hash(f.remote_path));
            &&& (r matches Ok(TruncatePlan::Ready { remote_path, data_path }) && remote_path@
                == f.remote_path) <==> drafted
            &&& (r matches Ok(TruncatePlan::Empty(_))) <==> !drafted && size == 0
            &&& (r matches Ok(TruncatePlan::Materialize(_))) <==> !drafted && size > 0
            &&& r matches Ok(TruncatePlan::Empty(m)) ==> m.remote_path@ == f.remote_path
                && m.base_etag@ == f.etag && m.size == 0 && m.last_write_unix == now && m.state
                == DraftState::Editing
            &&& r matches Ok(TruncatePlan::Materialize(s)) ==> s.key.remote_path@ == f.remote_path
                && s.key.etag@ == f.etag && s.size == f.size
        },
{
}

/// Whether only the size, the time of the last write and the stamp of the draft at `k` changed from `v` to
/// `w`, and nothing of any other.
pub open spec fn only_content_changed(v: VfsView, w: VfsView, k: Seq<char>, other: Seq<char>) -> bool {
    &&& w.drafts.contains_key(k)
    &&& w.drafts[k].remote_path == v.drafts[k].remote_path
    &&& w.drafts[k].base_etag == v.drafts[k].base_etag
    &&& w.drafts[k].state == v.drafts[k].state
    &&& other != k ==> (w.drafts.contains_key(other) <==> v.drafts.contains_key(other))
        && w.drafts[other] == v.drafts[other]
    &&& w.queue == v.queue
    &&& w.open == v.open
    &&& w.tree == v.tree
    &&& w.cached == v.cached
    &&& w.retains == v.retains
}

/// A write grows a draft up to its own end and never shrinks it; a resize makes it as long as asked. Each
/// is the draft's last write, is told apart from every write before it, and touches neither the version
/// that the draft began at, nor how far its upload has come, nor any other draft. Where there is no draft
/// nothing happens.
pub proof fn an_edit_changes_one_draft(
    v: VfsView,
    path: Seq<char>,
    offset: u64,
    len: u64,
    now: i64,
    written: Result<DraftMeta, VfsError>,
    w: VfsView,
    size: u64,
    resized: Result<DraftMeta, VfsError>,
    t: VfsView,
    other: Seq<char>,
)
    requires
        v.draft_clock < u64::MAX,
        offset + len <= u64::MAX,
        crate::vfs::files::write_finished(v, path, offset, len, now, written, w),
        crate::vfs::files::truncate_finished(v, path, size, now, resized, t),
        forall|k: Seq<char>|
            v.drafts.contains_key(k) ==> (#[trigger] v.drafts[k]).stamp < v.draft_clock,
    ensures
        ({
            let k = crate::drafts::path_hash(path);
            let d = v.drafts[k];
            &&& written is Ok <==> v.drafts.contains_key(k)
            &&& resized is Ok <==> v.drafts.contains_key(k)
            &&& !v.drafts.contains_key(k) ==> w == v && t == v
            &&& v.drafts.contains_key(k) ==> {
                &&& only_content_changed(v, w, k, other)
                &&& only_content_changed(v, t, k, other)
                &&& w.drafts[k].size >= d.size
                &&& w.drafts[k].size >= offset + len
                &&& w.drafts[k].size == d.size || w.drafts[k].size == offset + len
                &&& t.drafts[k].size == size
                &&& w.drafts[k].last_write_unix == now
                &&& t.drafts[k].last_write_unix == now
                &&& w.drafts[k].stamp != d.stamp
                &&& t.drafts[k].stamp != d.stamp
                &&& w.drafts[k].stamp < w.draft_clock
                &&& t.drafts[k].stamp < t.draft_clock
            }
            &&& written matches Ok(m) ==> m.size == w.drafts[k].size && m.last_write_unix == now
                && m.state == d.state && m.base_etag@ == d.base_etag
            &&& resized matches Ok(m) ==> m.size == size && m.last_write_unix == now && m.state
                == d.state && m.base_etag@ == d.base_etag
        }),
{
}

/// A draft that begins records what it was begun with, under a stamp of its own; it takes the place of one
/// at its path, and every other draft stays.
pub proof fn a_draft_begins_as_recorded(v: VfsView, meta: DraftMeta, k: Seq<char>)
    requires
        v.draft_clock < u64::MAX,
    ensures
        ({
            let w = crate::vfs::files::draft_begun(v, meta);
            let key = crate::drafts::path_hash(meta.remote_path@);
            let d = w.drafts[key];
            &&& w.drafts.contains_key(key)
            &&& d.remote_path == meta.remote_path@
            &&& d.base_etag == meta.base_etag@
            &&& d.size == meta.size
            &&& d.state == meta.state
            &&& d.last_write_unix == meta.last_write_unix
            &&& v.draft_clock <= d.stamp < w.draft_clock
            &&& k != key ==> (w.drafts.contains_key(k) <==> v.drafts.contains_key(k)) && w.drafts[k]
                == v.drafts[k]
            &&& w.queue == v.queue
            &&& w.open == v.open
            &&& w.tree == v.tree
        }),
{
}

// ---------------------------------------------------------------------------
// Closing.
// ---------------------------------------------------------------------------

/// A handle that is closed is gone, and no other is. A draft that is left edited waits from then on for its
/// upload, with what is drafted unchanged; one that waits already, or is being uploaded, is left alone.
/// Once the close is finished, the timer of a draft that was left edited is armed, and no other is; and one
/// handle less is counted on the version that was open.
pub proof fn closing_parks_what_was_edited(
    v: VfsView,
    h: u64,
    r: Result<Closing, VfsError>,
    w: VfsView,
    done: VfsView,
    k: Seq<char>,
    other: u64,
)
    requires
        crate::vfs::handles::close_answers(v, h, r, w),
        r matches Ok(c) ==> crate::vfs::handles::close_finished(w, c, done),
    ensures
        r is Ok <==> v.open.contains_key(h),
        r is Err ==> w == v,
        r is Err ==> (r matches Err(VfsError::Other(m)) && m@ == "close: file handle is not open"@),
        r is Ok ==> {
            let f = v.open[h];
            let key = crate::drafts::path_hash(f.remote_path);
            let d = v.drafts[key];
            let e = w.drafts[key];
            let edited = v.drafts.contains_key(key) && d.state == DraftState::Editing;
            let counted = crate::cache::key_hash(f.remote_path, f.etag);
            &&& !w.open.contains_key(h)
            &&& other != h ==> (w.open.contains_key(other) <==> v.open.contains_key(other))
                && w.open[other] == v.open[other]
            &&& edited ==> w.drafts.contains_key(key) && e.state == DraftState::Pending && e.size
                == d.size && e.base_etag == d.base_etag && e.stamp == d.stamp && e.remote_path
                == d.remote_path && e.last_write_unix == d.last_write_unix
            &&& !edited ==> w.drafts == v.drafts && done.queue == v.queue
            &&& k != key ==> (w.drafts.contains_key(k) <==> v.drafts.contains_key(k)) && w.drafts[k]
                == v.drafts[k]
            &&& done.drafts == w.drafts
            &&& edited ==> done.queue.timers == v.queue.timers.insert(f.remote_path)
                && done.queue.busy == v.queue.busy + 1
            &&& v.retains.contains_key(counted) && v.retains[counted] > 1
                ==> done.retains.contains_key(counted) && done.retains[counted]
                == v.retains[counted] - 1
            &&& v.retains.contains_key(counted) && v.retains[counted] == 1
                ==> !done.retains.contains_key(counted)
            &&& k != counted ==> (done.retains.contains_key(k) <==> v.retains.contains_key(k))
                && done.retains[k] == v.retains[k]
        },
{
}

// ---------------------------------------------------------------------------
// Fetching in advance.
// ---------------------------------------------------------------------------

/// One fetch in advance at a time is under way for a path: one is planned if and only if none is and the
/// file has blocks past the read; it fetches those that follow, four at most. Another path's is its own.
pub proof fn one_fetch_in_advance_at_a_time(
    v: VfsView,
    path: Seq<char>,
    size: u64,
    last_block: u64,
    r: Option<(u64, u64)>,
    w: VfsView,
    other: Seq<char>,
)
    requires
        size > 0,
        crate::vfs::files::readahead_planned(v, path, size, last_block, r, w),
    ensures
        ({
            let more = (last_block + 1) * crate::cache::BLOCK_SIZE < size;
            &&& r is Some <==> more && !v.readahead.contains(path)
            &&& r is None ==> w == v
            &&& r is Some ==> w.readahead.contains(path)
            &&& other != path ==> (w.readahead.contains(other) <==> v.readahead.contains(other))
            &&& r matches Some(b) ==> {
                &&& b.0 == last_block + 1
                &&& b.0 <= b.1 <= last_block + 4
                &&& b.1 * crate::cache::BLOCK_SIZE < size
                &&& b.1 < last_block + 4 ==> (b.1 + 1) * crate::cache::BLOCK_SIZE >= size
            }
            &&& w.cached == v.cached
            &&& w.drafts == v.drafts
        }),
{
}

// ---------------------------------------------------------------------------
// Handles.
// ---------------------------------------------------------------------------

/// A handle that is handed out is on what was opened; no handle before had its number, and none after will.
/// All others stay as they are, and nothing else changes.
pub proof fn every_handle_has_its_own_number(
    v: VfsView,
    key: FileKey,
    size: u64,
    download_url: Option<String>,
    r: FileHandle,
    w: VfsView,
    other: u64,
)
    requires
        v.next_handle < u64::MAX,
        crate::vfs::handles::handle_registered(v, key, size, download_url, r, w),
    ensures
        !v.open.contains_key(r.0),
        v.next_handle <= r.0 < w.next_handle,
        w.open.contains_key(r.0),
        w.open[r.0].remote_path == key.remote_path@,
        w.open[r.0].etag == key.etag@,
        w.open[r.0].size == size,
        download_url matches Some(u) ==> w.open[r.0].download_url == Some(u@),
        download_url is None ==> w.open[r.0].download_url is None,
        other != r.0 ==> (w.open.contains_key(other) <==> v.open.contains_key(other)) && w.open[other]
            == v.open[other],
        w.drafts == v.drafts,
        w.queue == v.queue,
        w.retains == v.retains,
        w.tree == v.tree,
{
}

/// A new download URL is the handle's from then on, whether it had one before or not, and no other handle's;
/// a handle that is not open gets none.
pub proof fn a_renewed_url_is_used_from_then_on(
    v: VfsView,
    h: u64,
    url: Seq<char>,
    w: VfsView,
    other: u64,
)
    requires
        crate::vfs::handles::url_renewed(v, h, url, w),
    ensures
        w.open.contains_key(h) <==> v.open.contains_key(h),
        v.open.contains_key(h) ==> w.open[h].download_url == Some(url) && w.open[h].remote_path
            == v.open[h].remote_path && w.open[h].etag == v.open[h].etag && w.open[h].size
            == v.open[h].size,
        other != h ==> (w.open.contains_key(other) <==> v.open.contains_key(other)) && w.open[other]
            == v.open[other],
        w.drafts == v.drafts,
        w.retains == v.retains,
{
}

/// No name for a temporary file is handed out twice.
pub proof fn temporary_files_have_different_names(
    v: VfsView,
    first: Seq<char>,
    w: VfsView,
    later: VfsView,
    second: Seq<char>,
    after: VfsView,
)
    requires
        v.next_tmp < u64::MAX,
        crate::vfs::files::temp_named(v, first, w),
        later.next_tmp >= w.next_tmp,
        crate::vfs::files::temp_named(later, second, after),
    ensures
        first != second,
        w.next_tmp > v.next_tmp,
{
    let n = "materialize-"@.len() as int;
    if first == second {
        let a = crate::text::dec(v.next_tmp as nat);
        let b = crate::text::dec(later.next_tmp as nat);
        assert(first.subrange(n, first.len() as int) =~= a);
        assert(second.subrange(n, second.len() as int) =~= b);
        crate::text_laws::a_number_reads_back(v.next_tmp as nat);
        crate::text_laws::a_number_reads_back(later.next_tmp as nat);
    }
}

// ---------------------------------------------------------------------------
// Blocks.
// ---------------------------------------------------------------------------

/// A block that was read whole stays, and its version is the one used most recently; one that was not is
/// given up, alone. No other version loses a block either way.
pub proof fn a_block_is_given_up_only_if_it_was_not_read_whole(
    v: VfsView,
    key: FileKey,
    idx: u64,
    complete: bool,
    now: i64,
    r: Option<MetaFile>,
    w: VfsView,
    other: Seq<char>,
    j: u64,
)
    requires
        crate::cache::entries_wf(v.cached, v.cache_clock),
        crate::vfs::files::block_read_finished(v, key, idx, complete, now, r, w),
    ensures
        ({
            let k = crate::cache::key_hash(key.remote_path@, key.etag@);
            &&& w.cached.dom() == v.cached.dom()
            &&& other != k ==> w.cached[other] == v.cached[other]
            &&& v.cached.contains_key(k) ==> {
                &&& w.cached[k].blocks.contains(j) <==> v.cached[k].blocks.contains(j) && (complete || j
                    != idx)
                &&& complete && other != k && v.cached.contains_key(other) ==> w.cached[other].seq
                    < w.cached[k].seq
                &&& r is None <==> complete
            }
            &&& w.drafts == v.drafts
            &&& w.open == v.open
            &&& w.retains == v.retains
        }),
{
    let k = key.hash();
    if v.cached.contains_key(k) && complete {
        crate::budget_laws::what_was_read_is_the_most_recent(v.cached, v.cache_clock, k, now, other);
    }
    if !complete {
        crate::budget_laws::a_lost_block_is_given_up_alone(v.cached, k, idx, w.cached, r, other, j);
    }
    assert(w.cached.dom() =~= v.cached.dom());
}

/// A block that was written is there from then on, with every block that was there before and no other; its
/// version is the one used most recently, and what is recorded of it on disk says the same.
pub proof fn a_written_block_is_recorded(
    v: VfsView,
    key: FileKey,
    idx: u64,
    file_len: u64,
    now: i64,
    r: MetaFile,
    w: VfsView,
    other: Seq<char>,
    j: u64,
)
    requires
        crate::cache::entries_wf(v.cached, v.cache_clock),
        crate::vfs::files::block_recorded(v, key, idx, file_len, now, r, w),
    ensures
        ({
            let k = crate::cache::key_hash(key.remote_path@, key.etag@);
            let e = w.cached[k];
            &&& w.cached.contains_key(k)
            &&& e.blocks.contains(j) <==> j == idx || (v.cached.contains_key(k)
                && v.cached[k].blocks.contains(j))
            &&& e.data_len == file_len
            &&& v.cache_clock < u64::MAX ==> e.seq < w.cache_clock
            &&& r.blocks@ == e.blocks
            &&& r.etag@ == key.etag@
            &&& r.last_used_unix == now
            &&& other != k ==> (w.cached.contains_key(other) <==> v.cached.contains_key(other))
                && w.cached[other] == v.cached[other]
            &&& other != k && v.cached.contains_key(other) ==> w.cached[other].seq < e.seq
            &&& w.drafts == v.drafts
            &&& w.retains == v.retains
        }),
{
    let k = key.hash();
    crate::budget_laws::what_was_written_is_the_most_recent(
        v.cached,
        v.cache_clock,
        key,
        idx,
        file_len,
        now,
        w.cached[k],
        other,
        j,
    );
}

/// A fetch in advance that ended makes way for another of its path, and for no other's.
pub proof fn an_ended_fetch_in_advance_makes_way(
    v: VfsView,
    path: Seq<char>,
    w: VfsView,
    other: Seq<char>,
    size: u64,
    last_block: u64,
    r: Option<(u64, u64)>,
    after: VfsView,
)
    requires
        crate::vfs::files::readahead_ended(v, path, w),
        size > (last_block + 1) * crate::cache::BLOCK_SIZE,
        crate::vfs::files::readahead_planned(w, path, size, last_block, r, after),
    ensures
        r is Some,
        other != path ==> (w.readahead.contains(other) <==> v.readahead.contains(other)),
        w.cached == v.cached,
        w.drafts == v.drafts,
{
}

// ---------------------------------------------------------------------------
// Listings.
// ---------------------------------------------------------------------------

/// A listing is taken in if and only if the one before is old, and is trusted from then on; nothing but what
/// is known of entries changes. Each entry that it names is known from then on as the server told of it.
pub proof fn a_listing_that_is_taken_in_is_known(
    v: VfsView,
    dir: u64,
    files: Seq<RemoteFile>,
    now: u64,
    w: VfsView,
    i: int,
)
    requires
        crate::tree::tree_wf(v.tree),
        dir < v.tree.next_id,
        v.tree.next_id + files.len() <= u64::MAX,
        forall|i: int, j: int|
            0 <= i < j < files.len() ==> (#[trigger] files[i]).name@ != (#[trigger] files[j]).name@,
        crate::vfs::listing_taken(v, dir, files, now, w),
        0 <= i < files.len(),
    ensures
        ({
            let young = v.tree.children.contains_key(dir) && v.tree.listed_at.contains_key(dir) && now
                < v.tree.listed_at[dir] + 5_000;
            let a = w.tree.attrs[w.tree.known[(dir, files[i].name@)]];
            &&& young ==> w == v
            &&& crate::tree::is_fresh(w.tree, dir, now)
            &&& !young ==> {
                &&& w.tree.attrs.contains_key(w.tree.known[(dir, files[i].name@)])
                &&& a.name == files[i].name@
                &&& a.remote_path == files[i].path@
                &&& files[i].size >= 0 ==> a.size == files[i].size
                &&& a.is_dir <==> files[i].file_type == 1
                &&& files[i].primary_entity matches Some(e) ==> a.etag == e@
            }
            &&& w.drafts == v.drafts
            &&& w.queue == v.queue
            &&& w.open == v.open
            &&& w.cached == v.cached
        }),
{
    assert(LISTING_TTL_MILLIS == 5_000);
    if !crate::tree::is_fresh(v.tree, dir, now) {
        crate::tree_laws::a_directory_shows_what_was_listed(v.tree, dir, files, now);
        let rows = crate::tree::listed_rows(w.tree, dir);
        assert(rows[i] == (w.tree.known[(dir, files[i].name@)], crate::tree::attr_of(files[i])));
        lemma_row(w.tree.children[dir], w.tree.attrs, i);
    }
}

} // verus!
