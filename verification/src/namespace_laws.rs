//! What holds of removing and renaming entries.

use vstd::prelude::*;

use crate::drafts::{DraftMeta, DraftMove};
use crate::error::VfsError;
use crate::tree::{AttrView, NodeId};
use crate::vfs::namespace::{RenamePlan, StepView, UnlinkPlan};
use crate::vfs::VfsView;

verus! {

// ---------------------------------------------------------------------------
// What stands in the way.
// ---------------------------------------------------------------------------

/// Whether a handle is open on `path` or on something below it.
pub open spec fn has_handle(v: VfsView, path: Seq<char>) -> bool {
    exists|h: u64| #[trigger]
        v.open.contains_key(h) && (v.open[h].remote_path == path || (path + seq!['/']).is_prefix_of(
            v.open[h].remote_path,
        ))
}

/// Whether something below `path` has a draft.
pub open spec fn has_draft_below(v: VfsView, path: Seq<char>) -> bool {
    exists|k: Seq<char>| #[trigger]
        v.drafts.contains_key(k) && (path + seq!['/']).is_prefix_of(v.drafts[k].remote_path)
}

/// Whether some node is known in directory `dir`, and something is known of it.
pub open spec fn has_child(v: VfsView, dir: u64) -> bool {
    exists|name: Seq<char>| #[trigger]
        v.tree.known.contains_key((dir, name)) && v.tree.attrs.contains_key(
            v.tree.known[(dir, name)],
        )
}

// ---------------------------------------------------------------------------
// Removing.
// ---------------------------------------------------------------------------

/// A removal that is let through asks the server to delete the path unless its draft has an empty base
/// version: a file whose draft began at a version of the server is deleted there, and so is one without a
/// draft. A draft of the path, and no other, is gone with it.
pub proof fn a_removal_is_passed_on_unless_the_server_never_saw_the_file(
    v: VfsView,
    parent: u64,
    name: Seq<char>,
    plan: UnlinkPlan,
    w: VfsView,
    k: Seq<char>,
)
    requires
        crate::vfs::namespace::unlink_answers(v, parent, name, Ok(plan), w),
    ensures
        v.entry(parent, name) matches Some(p) && plan.remote_path@ == p.1.remote_path,
        ({
            let key = crate::drafts::path_hash(plan.remote_path@);
            let only_here = v.drafts.contains_key(key) && v.drafts[key].base_etag.len() == 0;
            &&& plan.delete_remote <==> !only_here
            &&& plan.draft_dir is Some <==> v.drafts.contains_key(key)
            &&& !w.drafts.contains_key(key)
            &&& k != key ==> (w.drafts.contains_key(k) <==> v.drafts.contains_key(k)) && w.drafts[k]
                == v.drafts[k]
            &&& v.drafts.contains_key(key) ==> !w.queue.timers.contains(plan.remote_path@)
            &&& !v.drafts.contains_key(key) ==> w.queue == v.queue
            &&& w.tree == v.tree
            &&& w.open == v.open
            &&& w.cached == v.cached
            &&& w.retains == v.retains
        }),
{
}

/// A removal is refused if and only if there is nothing to remove, the entry is a directory with something
/// in it, or a handle is open on the entry or below it. What is refused changes nothing, and the refusal
/// names the path and the reason.
pub proof fn a_removal_is_refused_only_for_a_reason(
    v: VfsView,
    parent: u64,
    name: Seq<char>,
    r: Result<UnlinkPlan, VfsError>,
    w: VfsView,
)
    requires
        crate::tree::tree_wf(v.tree),
        crate::vfs::namespace::unlink_answers(v, parent, name, r, w),
    ensures
        r is Err ==> w == v,
        v.entry(parent, name) is None ==> r is Err,
        v.entry(parent, name) matches Some(p) ==> {
            let path = p.1.remote_path;
            let full = p.1.is_dir && (has_child(v, p.0) || has_draft_below(v, path));
            &&& r is Err <==> full || has_handle(v, path)
            &&& full ==> (r matches Err(VfsError::DirNotEmpty(e)) && e.remote_path@ == path)
            &&& !full && has_handle(v, path) ==> (r matches Err(VfsError::UnlinkBusy(e))
                && e.remote_path@ == path)
        },
{
    if let Some(p) = v.entry(parent, name) {
        let path = p.1.remote_path;
        lemma_occupied(v, p.0, path);
        lemma_reasons(v, path);
    }
}

proof fn lemma_reasons(v: VfsView, path: Seq<char>)
    ensures
        v.subtree_open(path) <==> has_handle(v, path),
        v.draft_strictly_under(path) <==> has_draft_below(v, path),
{
    if has_handle(v, path) {
        let h = choose|h: u64| #[trigger]
            v.open.contains_key(h) && (v.open[h].remote_path == path || (path
                + seq!['/']).is_prefix_of(v.open[h].remote_path));
        assert(v.open.contains_key(h));
    }
    if v.subtree_open(path) {
        let h = choose|h: u64| #[trigger]
            v.open.contains_key(h) && (v.open[h].remote_path == path
                || crate::text::is_strictly_under(v.open[h].remote_path, path));
        assert(v.open.contains_key(h));
    }
    if has_draft_below(v, path) {
        let k = choose|k: Seq<char>| #[trigger]
            v.drafts.contains_key(k) && (path + seq!['/']).is_prefix_of(v.drafts[k].remote_path);
        assert(v.drafts.contains_key(k));
    }
    if v.draft_strictly_under(path) {
        let k = choose|k: Seq<char>| #[trigger]
            v.drafts.contains_key(k) && crate::text::is_strictly_under(
                v.drafts[k].remote_path,
                path,
            );
        assert(v.drafts.contains_key(k));
    }
}

proof fn lemma_first_row(ids: Seq<u64>, attrs: Map<u64, AttrView>)
    requires
        crate::tree::known_rows(ids, attrs).len() > 0,
    ensures
        exists|i: int| 0 <= i < ids.len() && attrs.contains_key(#[trigger] ids[i]),
    decreases ids.len(),
{
    if ids.len() > 0 {
        if attrs.contains_key(ids.last()) {
            assert(attrs.contains_key(ids[ids.len() - 1]));
        } else {
            lemma_first_row(ids.drop_last(), attrs);
            let rest = ids.drop_last();
            let i = choose|i: int| 0 <= i < rest.len() && attrs.contains_key(#[trigger] rest[i]);
            assert(attrs.contains_key(ids[i]));
        }
    }
}

proof fn lemma_occupied(v: VfsView, dir: u64, path: Seq<char>)
    requires
        crate::tree::tree_wf(v.tree),
    ensures
        crate::vfs::namespace::occupied(v, dir, path) <==> has_child(v, dir) || has_draft_below(v, path),
{
    let t = v.tree;
    lemma_reasons(v, path);
    if crate::tree::listed_rows(t, dir).len() > 0 {
        let ids = t.children[dir];
        lemma_first_row(ids, t.attrs);
        let i = choose|i: int| 0 <= i < ids.len() && t.attrs.contains_key(#[trigger] ids[i]);
        assert(ids.contains(ids[i]));
        assert(crate::reach::edge(t.children, dir, ids[i]));
        let n = choose|n: Seq<char>| #[trigger]
            t.known.contains_key((dir, n)) && t.known[(dir, n)] == ids[i];
        assert(t.known.contains_key((dir, n)));
        assert(has_child(v, dir));
    }
    if has_child(v, dir) {
        let n = choose|n: Seq<char>| #[trigger]
            t.known.contains_key((dir, n)) && t.attrs.contains_key(t.known[(dir, n)]);
        assert(crate::tree::is_known_child(t, dir, t.known[(dir, n)]));
    }
    if exists|c: u64| #[trigger] crate::tree::is_known_child(t, dir, c) {
        let c = choose|c: u64| #[trigger] crate::tree::is_known_child(t, dir, c);
        let n = choose|n: Seq<char>| #[trigger]
            t.known.contains_key((dir, n)) && t.known[(dir, n)] == c;
        assert(t.known.contains_key((dir, n)));
        assert(has_child(v, dir));
    }
}

// ---------------------------------------------------------------------------
// A server that takes requests.
// ---------------------------------------------------------------------------

/// What a server has: what stands under each path.
pub type Served = Map<Seq<char>, int>;

/// What a server has after a request about one of its files. It refuses a request about what it does not
/// have, and one that would give an entry a path that is taken.
pub open spec fn served(m: Option<Served>, step: StepView) -> Option<Served> {
    match m {
        None => None,
        Some(s) => match step {
            StepView::Delete { uri } => if s.contains_key(uri) {
                Some(s.remove(uri))
            } else {
                None
            },
            StepView::Rename { uri, new_name } => match crate::text::rsplit_once_at(uri, '/') {
                Some(parts) => taken_to(s, uri, parts.0 + seq!['/'] + new_name),
                None => None,
            },
            StepView::Move { uri, dst } => match crate::text::rsplit_once_at(uri, '/') {
                Some(parts) => taken_to(s, uri, dst + seq!['/'] + parts.1),
                None => None,
            },
        },
    }
}

/// What a server has after what stood at `from` stands at `to`.
pub open spec fn taken_to(s: Served, from: Seq<char>, to: Seq<char>) -> Option<Served> {
    if s.contains_key(from) && !s.contains_key(to) {
        Some(s.remove(from).insert(to, s[from]))
    } else {
        None
    }
}

/// What a server has after the requests, one by one; nothing where it refused one.
pub open spec fn served_all(m: Option<Served>, steps: Seq<StepView>) -> Option<Served>
    decreases steps.len(),
{
    if steps.len() == 0 {
        m
    } else {
        served(served_all(m, steps.drop_last()), steps.last())
    }
}

proof fn lemma_served_push(m: Option<Served>, steps: Seq<StepView>, step: StepView)
    ensures
        served_all(m, steps.push(step)) == served(served_all(m, steps), step),
{
    assert(steps.push(step).drop_last() =~= steps);
}

/// The requests of a rename of a file are all taken by a server that refuses to give an entry a name that
/// is taken, whether a file is there already or not, in the same directory or in another. They leave the
/// file as the only one under the new path, nothing under the old one, and every other file as it was.
///
/// A file that takes another name in another directory is moved there under its old name first, so that
/// name must be free there.
pub proof fn a_rename_is_taken_and_leaves_the_file_alone_under_its_new_path(
    m: Served,
    dir: Seq<char>,
    name: Seq<char>,
    dst: Seq<char>,
    new_name: Seq<char>,
    replaces: bool,
)
    requires
        !name.contains('/'),
        !new_name.contains('/'),
        dir != dst || name != new_name,
        m.contains_key(dir + seq!['/'] + name),
        replaces <==> m.contains_key(dst + seq!['/'] + new_name),
        dir != dst && name != new_name ==> !m.contains_key(dst + seq!['/'] + name),
    ensures
        ({
            let old_path = dir + seq!['/'] + name;
            let new_path = dst + seq!['/'] + new_name;
            served_all(
                Some(m),
                crate::vfs::namespace::rename_steps(
                    old_path,
                    name,
                    dst,
                    new_name,
                    dir == dst,
                    replaces,
                ),
            ) == Some(m.remove(old_path).remove(new_path).insert(new_path, m[old_path]))
        }),
{
    let old_path = dir + seq!['/'] + name;
    let new_path = dst + seq!['/'] + new_name;
    let over = dst + seq!['/'] + name;
    crate::text_laws::a_path_tells_directory_and_name(dir, name, dst, new_name);
    crate::text_laws::a_path_tells_directory_and_name(dir, name, dst, name);
    crate::text_laws::a_path_tells_directory_and_name(dst, name, dst, new_name);
    let none = Seq::<StepView>::empty();
    let delete = StepView::Delete { uri: new_path };
    let rename = StepView::Rename { uri: old_path, new_name };
    let step = StepView::Move { uri: old_path, dst };
    let after = StepView::Rename { uri: over, new_name };
    assert(served_all(Some(m), none) == Some(m));
    lemma_served_push(Some(m), none, delete);
    assert(none.push(delete) =~= seq![delete]);
    let free = if replaces {
        m.remove(new_path)
    } else {
        m
    };
    let first = if replaces {
        seq![delete]
    } else {
        none
    };
    assert(served_all(Some(m), first) == Some(free));
    lemma_served_push(Some(m), first, rename);
    lemma_served_push(Some(m), first, step);
    lemma_served_push(Some(m), first.push(step), after);
    let end = m.remove(old_path).remove(new_path).insert(new_path, m[old_path]);
    assert(free.remove(old_path).insert(new_path, m[old_path]) =~= end);
    assert(free.remove(old_path).insert(over, m[old_path]).remove(over).insert(
        new_path,
        m[old_path],
    ) =~= end);
}

/// What a rename of a file asks of the server does to the server's files what the rename is meant to do:
/// where the server has the file, and has a file under the new path if and only if the listing told of
/// one, its requests are all taken and move the one file. Of a file that the server has never seen nothing
/// is asked.
pub proof fn a_planned_rename_moves_one_file_on_the_server(
    v: VfsView,
    parent: u64,
    name: Seq<char>,
    new_parent: u64,
    new_name: Seq<char>,
    plan: RenamePlan,
    m: Served,
)
    requires
        crate::vfs::namespace::rename_answers(v, parent, name, new_parent, new_name, Ok(Some(plan))),
        v.tree.attrs.contains_key(parent),
        v.entry(parent, name) matches Some(p) && !p.1.is_dir && p.1.remote_path
            == v.tree.attrs[parent].remote_path + seq!['/'] + name,
        !name.contains('/'),
        !new_name.contains('/'),
        ({
            let dir = v.tree.attrs[parent].remote_path;
            let dst = v.tree.attrs[new_parent].remote_path;
            let there = crate::tree::first_named(
                crate::tree::listed_rows(v.tree, new_parent),
                new_name,
            );
            &&& dir == dst <==> parent == new_parent
            &&& m.contains_key(dir + seq!['/'] + name)
            &&& m.contains_key(dst + seq!['/'] + new_name) <==> (there matches Some(row)
                && !row.1.is_dir)
            &&& dir != dst && name != new_name ==> !m.contains_key(dst + seq!['/'] + name)
        }),
    ensures
        ({
            let old_path = v.tree.attrs[parent].remote_path + seq!['/'] + name;
            let new_path = v.tree.attrs[new_parent].remote_path + seq!['/'] + new_name;
            let key = crate::drafts::path_hash(old_path);
            let only_here = v.drafts.contains_key(key) && v.drafts[key].base_etag.len() == 0;
            let steps = crate::vfs::namespace::step_views(plan.steps@);
            &&& plan.old_path@ == old_path
            &&& plan.new_path@ == new_path
            &&& plan.existed_remotely <==> !only_here
            &&& only_here ==> steps.len() == 0
            &&& !only_here ==> served_all(Some(m), steps) == Some(
                m.remove(old_path).remove(new_path).insert(new_path, m[old_path]),
            )
        }),
{
    let dir = v.tree.attrs[parent].remote_path;
    let dst = v.tree.attrs[new_parent].remote_path;
    let replaces = m.contains_key(dst + seq!['/'] + new_name);
    if dir != dst || name != new_name {
        a_rename_is_taken_and_leaves_the_file_alone_under_its_new_path(
            m,
            dir,
            name,
            dst,
            new_name,
            replaces,
        );
    }
}

/// A rename deletes nothing but a file that a file takes the place of: never a directory, never for one, and
/// never anything but what has the new path. What it renames or moves is the entry, by the path that it has
/// then.
pub proof fn a_rename_deletes_only_what_it_replaces(
    v: VfsView,
    parent: u64,
    name: Seq<char>,
    new_parent: u64,
    new_name: Seq<char>,
    plan: RenamePlan,
    i: int,
)
    requires
        crate::vfs::namespace::rename_answers(v, parent, name, new_parent, new_name, Ok(Some(plan))),
        0 <= i < plan.steps@.len(),
    ensures
        ({
            let p = v.entry(parent, name)->0;
            let dst = v.tree.attrs[new_parent].remote_path;
            let there = crate::tree::first_named(
                crate::tree::listed_rows(v.tree, new_parent),
                new_name,
            );
            &&& v.entry(parent, name) is Some
            &&& plan.existed_remotely
            &&& match plan.steps@[i]@ {
                StepView::Delete { uri } => uri == dst + seq!['/'] + new_name && i == 0 && !p.1.is_dir && (
                there matches Some(row) && !row.1.is_dir),
                StepView::Rename { uri, new_name: to } => to == new_name && i == plan.steps@.len() - 1
                    && (parent == new_parent ==> uri == p.1.remote_path) && (parent != new_parent
                    ==> uri == dst + seq!['/'] + name && name != new_name),
                StepView::Move { uri, dst: to } => uri == p.1.remote_path && to == dst && parent
                    != new_parent,
            }
        }),
{
    let steps = crate::vfs::namespace::step_views(plan.steps@);
    assert(steps.len() == plan.steps@.len());
    assert(steps[i] == plan.steps@[i]@);
    assert(i == 0 || i == 1 || i == 2);
}

// ---------------------------------------------------------------------------
// Renaming.
// ---------------------------------------------------------------------------

/// A rename to the path that the entry has is no rename. Any other is refused if and only if there is
/// nothing to rename or no such directory; a handle is open on either path or below it, something below
/// either path has a draft, or the new path itself has one; or a file that the server has never seen would
/// take the name of a directory.
pub proof fn a_rename_is_refused_only_for_a_reason(
    v: VfsView,
    parent: u64,
    name: Seq<char>,
    new_parent: u64,
    new_name: Seq<char>,
    r: Result<Option<RenamePlan>, VfsError>,
)
    requires
        crate::vfs::namespace::rename_answers(v, parent, name, new_parent, new_name, r),
    ensures
        v.entry(parent, name) is None || !v.tree.attrs.contains_key(new_parent) ==> r is Err,
        v.entry(parent, name) matches Some(p) ==> v.tree.attrs.contains_key(new_parent) ==> {
            let old_path = p.1.remote_path;
            let new_path = v.tree.attrs[new_parent].remote_path + seq!['/'] + new_name;
            let key = crate::drafts::path_hash(old_path);
            let only_here = v.drafts.contains_key(key) && v.drafts[key].base_etag.len() == 0;
            let there = crate::tree::first_named(
                crate::tree::listed_rows(v.tree, new_parent),
                new_name,
            );
            let onto_directory = only_here && (there matches Some(row) && row.1.is_dir);
            let old_busy = has_handle(v, old_path) || has_draft_below(v, old_path);
            let new_busy = has_handle(v, new_path) || has_draft_below(v, new_path)
                || v.drafts.contains_key(crate::drafts::path_hash(new_path));
            &&& (r matches Ok(None)) <==> old_path == new_path
            &&& r is Err <==> old_path != new_path && (old_busy || new_busy || onto_directory)
            &&& old_path != new_path && old_busy ==> (r matches Err(VfsError::RenameBusy(e))
                && e.remote_path@ == old_path)
            &&& old_path != new_path && !old_busy && new_busy ==> (r matches Err(
                VfsError::RenameBusy(e),
            ) && e.remote_path@ == new_path)
            &&& old_path != new_path && !old_busy && !new_busy && onto_directory ==> (r matches Err(
                VfsError::RenameOntoDirectory(e),
            ) && e.remote_path@ == new_path)
        },
{
    if let Some(p) = v.entry(parent, name) {
        lemma_reasons(v, p.1.remote_path);
        lemma_reasons(v, crate::text::child_path(v.tree.attrs[new_parent].remote_path, new_name));
    }
}

/// A file that the server has never seen takes the place of a file there: its draft begins, from then on,
/// at the version that it replaces, so that its upload replaces that version and no other. A rename of any
/// other entry leaves the version that its draft began at as it is, and so does one to a free name.
pub proof fn a_new_file_takes_the_version_that_it_replaces(
    v: VfsView,
    parent: u64,
    name: Seq<char>,
    new_parent: u64,
    new_name: Seq<char>,
    plan: RenamePlan,
    moved: DraftMove,
    w: VfsView,
)
    requires
        crate::vfs::namespace::rename_answers(v, parent, name, new_parent, new_name, Ok(Some(plan))),
        crate::vfs::namespace::draft_moves(v, plan, Some(moved), w),
    ensures
        ({
            let old_key = crate::drafts::path_hash(plan.old_path@);
            let new_key = crate::drafts::path_hash(plan.new_path@);
            let there = crate::tree::first_named(
                crate::tree::listed_rows(v.tree, new_parent),
                new_name,
            );
            let before = v.drafts[old_key];
            let d = w.drafts[new_key];
            &&& v.drafts.contains_key(old_key)
            &&& w.drafts.contains_key(new_key)
            &&& before.base_etag.len() > 0 || there is None ==> d.base_etag == before.base_etag
            &&& before.base_etag.len() == 0 ==> (there matches Some(row) ==> d.base_etag
                == row.1.etag)
        }),
{
}

/// A draft goes along with its entry: what is drafted, when it was last written and how far its upload has
/// come stay as they are, under the new path. The old path has no draft, and every other draft stays.
pub proof fn a_draft_goes_along_with_its_entry(
    v: VfsView,
    plan: RenamePlan,
    r: Option<DraftMove>,
    w: VfsView,
    k: Seq<char>,
)
    requires
        crate::vfs::namespace::draft_moves(v, plan, r, w),
        crate::drafts::path_hash(plan.old_path@) != crate::drafts::path_hash(plan.new_path@),
    ensures
        ({
            let old_key = crate::drafts::path_hash(plan.old_path@);
            let new_key = crate::drafts::path_hash(plan.new_path@);
            &&& r is Some <==> v.drafts.contains_key(old_key)
            &&& r is None ==> w == v
            &&& r matches Some(m) ==> {
                let before = v.drafts[old_key];
                let d = w.drafts[new_key];
                &&& w.drafts.contains_key(new_key)
                &&& !w.drafts.contains_key(old_key)
                &&& d.remote_path == plan.new_path@
                &&& d.size == before.size
                &&& d.state == before.state
                &&& d.last_write_unix == before.last_write_unix
                &&& d.stamp == before.stamp
                &&& plan.adopt is None ==> d.base_etag == before.base_etag
                &&& plan.adopt matches Some(etag) ==> d.base_etag == etag@
                &&& m.from_hash@ == old_key
                &&& m.to_hash@ == new_key
                &&& m.meta.state == before.state
                &&& m.meta.size == before.size
                &&& m.meta.remote_path@ == plan.new_path@
                &&& m.meta.base_etag@ == d.base_etag
            }
            &&& k != old_key && k != new_key ==> (w.drafts.contains_key(k)
                <==> v.drafts.contains_key(k)) && w.drafts[k] == v.drafts[k]
            &&& w.queue == v.queue
            &&& w.tree == v.tree
            &&& w.open == v.open
        }),
{
}

/// Once a rename is finished, an upload whose timer was armed waits under the new path, if the entry had a
/// draft; nothing is known of the old path any more; and a file that the server has never seen is there
/// under its new name. The cache, the handles and the drafts are not touched.
pub proof fn a_finished_rename_leaves_nothing_under_the_old_path(
    v: VfsView,
    plan: RenamePlan,
    had_draft: bool,
    new_parent: u64,
    new_name: Seq<char>,
    w: VfsView,
    node: u64,
)
    requires
        crate::tree::tree_wf(v.tree),
        v.tree.next_id < u64::MAX,
        crate::vfs::namespace::rename_finished(
            v,
            plan,
            had_draft,
            new_parent,
            new_name,
            Ok(()),
            w,
        ),
        plan.old_path@ != plan.new_path@,
    ensures
        had_draft && v.queue.timers.contains(plan.old_path@) ==> w.queue.timers.contains(
            plan.new_path@,
        ) && !w.queue.timers.contains(plan.old_path@),
        !had_draft || !v.queue.timers.contains(plan.old_path@) ==> w.queue == v.queue,
        w.drafts == v.drafts,
        w.open == v.open,
        w.cached == v.cached,
        w.retains == v.retains,
        plan.existed_remotely && node != crate::tree::ROOT_ID && w.tree.attrs.contains_key(node)
            ==> w.tree.attrs[node].remote_path != plan.old_path@ && w.tree.attrs[node].remote_path
            != plan.new_path@,
        !plan.existed_remotely && had_draft ==> {
            let id = w.tree.known[(new_parent, new_name)];
            &&& w.tree.known.contains_key((new_parent, new_name))
            &&& w.tree.attrs.contains_key(id)
            &&& w.tree.attrs[id].name == new_name
            &&& w.tree.attrs[id].remote_path == v.tree.attrs[new_parent].remote_path + seq!['/']
                + new_name
            &&& !w.tree.attrs[id].is_dir
        },
{
    let t = crate::tree::forgotten(v.tree, plan.old_path@);
    let u = crate::tree::forgotten(t, plan.new_path@);
    if plan.existed_remotely && node != crate::tree::ROOT_ID && u.attrs.contains_key(node) {
        assert(!crate::tree::entries_at(v.tree, plan.old_path@).contains(node));
        assert(!crate::tree::entries_at(t, plan.new_path@).contains(node));
    }
}

// ---------------------------------------------------------------------------
// Creating directories.
// ---------------------------------------------------------------------------

/// A directory is asked for in every directory that is known, and nowhere else, under the path of the
/// directory that it is created in. Once it is listed there, its node is the one that the listing shows.
pub proof fn a_directory_is_created_where_it_was_asked_for(
    v: VfsView,
    parent: u64,
    name: Seq<char>,
    r: Result<String, VfsError>,
    w: VfsView,
    done: Result<NodeId, VfsError>,
)
    requires
        crate::tree::tree_wf(w.tree),
        crate::vfs::namespace::mkdir_answers(v, parent, name, r),
        crate::vfs::namespace::mkdir_finished(w, parent, name, done),
    ensures
        r is Ok <==> v.tree.attrs.contains_key(parent) && v.tree.attrs[parent].is_dir,
        r matches Ok(uri) ==> uri@ == v.tree.attrs[parent].remote_path + seq!['/'] + name,
        done matches Ok(id) ==> w.entry(parent, name) matches Some(p) && p.0 == id.0,
        done is Ok <==> crate::tree::first_named(
            crate::tree::listed_rows(w.tree, parent),
            name,
        ) is Some,
{
}

/// A file that was created is open, under a number of its own, and reads what is drafted of it: the handle
/// has no URL, and one more handle is counted on the version that no server has. No other handle changes.
pub proof fn a_created_file_is_open(v: VfsView, meta: DraftMeta, other: u64)
    requires
        v.next_handle < u64::MAX,
        v.draft_clock < u64::MAX,
    ensures
        ({
            let w = crate::vfs::namespace::creation_finished(v, meta);
            let f = w.open[v.next_handle];
            let k = crate::cache::key_hash(meta.remote_path@, Seq::empty());
            &&& w.open.contains_key(v.next_handle)
            &&& f.remote_path == meta.remote_path@
            &&& f.etag.len() == 0
            &&& f.size == 0
            &&& f.download_url is None
            &&& v.next_handle < w.next_handle
            &&& w.retains.contains_key(k)
            &&& v.retains.contains_key(k) && v.retains[k] < u32::MAX ==> w.retains[k] == v.retains[k] + 1
            &&& !v.retains.contains_key(k) ==> w.retains[k] == 1
            &&& other != v.next_handle ==> (w.open.contains_key(other) <==> v.open.contains_key(other))
                && w.open[other] == v.open[other]
            &&& w.queue == v.queue
            &&& w.tree == v.tree
        }),
{
}

} // verus!
