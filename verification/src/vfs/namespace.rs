//! Creating, removing and renaming entries.

use vstd::prelude::*;

use super::{failure, quoted, FileHandle, OpenView, Vfs, VfsView};
use crate::cache::FileKey;
use crate::drafts::{fresh_meta, DraftMeta, DraftMove, DraftView};
use crate::error::{
    DirNotEmptyError, RenameBusyError, RenameOntoDirectoryError, UnlinkBusyError, VfsError,
};
use crate::text::{concat, join_child, same, strictly_under};
use crate::tree::{AttrView, NodeAttr, NodeId};

verus! {

/// What is said of a name that cannot be created because it exists.
pub open spec fn exists_message(name: Seq<char>) -> Seq<char> {
    "EEXIST: an entry named "@ + super::quoted_text(name) + " already exists in this directory"@
}

/// What is said of a name that does not exist, after the name of the operation.
pub open spec fn no_entry_message(operation: Seq<char>, name: Seq<char>) -> Seq<char> {
    operation + ": no such entry "@ + super::quoted_text(name)
}

/// A file that is being created.
#[derive(Debug)]
pub struct Creation {
    pub node: NodeId,
    /// What is to be recorded of its draft.
    pub meta: DraftMeta,
}

/// Whether `r` is the answer to creating `name` in `parent`, and `w` the state after it.
pub open spec fn create_answers(
    v: VfsView,
    parent: u64,
    name: Seq<char>,
    now: i64,
    r: Result<Creation, VfsError>,
    w: VfsView,
) -> bool {
    match r {
        Ok(c) => {
            &&& v.tree.attrs.contains_key(parent)
            &&& v.entry(parent, name) is None
            &&& w == (VfsView { tree: crate::tree::local_inserted(v.tree, parent, name), ..v })
            &&& c.node.0 == w.tree.known[(parent, name)]
            &&& c.meta.remote_path@ == crate::text::child_path(
                v.tree.attrs[parent].remote_path,
                name,
            )
            &&& c.meta.base_etag@ == Seq::<char>::empty()
            &&& c.meta.size == 0
            &&& c.meta.state == crate::drafts::DraftState::Editing
            &&& c.meta.last_write_unix == now
        },
        Err(e) => {
            &&& w == v
            &&& if v.tree.attrs.contains_key(parent) {
                v.entry(parent, name) is Some && super::says(e, exists_message(name))
            } else {
                super::says(e, "create: unknown parent (readdir/lookup it first)"@)
            }
        },
    }
}

/// The state after a file was created whose draft `meta` records: the draft begins, and a handle is open
/// on it.
pub open spec fn creation_finished(v: VfsView, meta: DraftMeta) -> VfsView {
    VfsView {
        retains: crate::cache::retained(
            v.retains,
            crate::cache::key_hash(meta.remote_path@, Seq::empty()),
        ),
        open: v.open.insert(
            v.next_handle,
            (OpenView {
                remote_path: meta.remote_path@,
                etag: Seq::empty(),
                size: 0,
                download_url: None,
            }),
        ),
        next_handle: (v.next_handle + 1) as u64,
        ..super::files::draft_begun(v, meta)
    }
}

impl Vfs {
    /// Creates a file, first step: the name becomes visible. A name that resolves to something is
    /// refused, be it there on the server or only here.
    ///
    /// The draft is one of no remote content: its upload has nothing to conflict with.
    pub fn create(&mut self, parent: NodeId, name: &str, now: i64) -> (r: Result<Creation, VfsError>)
        requires
            old(self).wf(),
            old(self)@.tree.next_id < u64::MAX,
        ensures
            final(self).wf(),
            create_answers(old(self)@, parent.0, name@, now, r, final(self)@),
    {
        let parent_attr: NodeAttr = match self.tree.getattr(parent) {
            Some(a) => a,
            None => {
                return Err(failure("create: unknown parent (readdir/lookup it first)"));
            },
        };
        if self.lookup(parent, name).is_some() {
            let start: String = concat("EEXIST: an entry named ", quoted(name).as_str());
            return Err(
                VfsError::Other(concat(start.as_str(), " already exists in this directory")),
            );
        }
        let remote_path: String = join_child(parent_attr.remote_path.as_str(), name);
        match self.tree.insert_local_entry(parent, name) {
            Ok(node) => {
                proof {
                    assert(self@ =~= (VfsView { tree: self@.tree, ..old(self)@ }));
                    self.keep_handles(*old(self));
                    reveal_strlit("");
                    assert(""@ =~= Seq::<char>::empty());
                }
                Ok(Creation { node, meta: fresh_meta(remote_path.as_str(), "", 0, now) })
            },
            Err(e) => Err(e),
        }
    }

    /// Creates a file, last step, once the draft is on disk: the draft begins, and a handle is open on
    /// it. The handle has no URL: it reads the draft.
    pub fn finish_create(&mut self, meta: &DraftMeta) -> (r: FileHandle)
        requires
            old(self).wf(),
            old(self)@.draft_clock < u64::MAX,
            old(self)@.next_handle < u64::MAX,
            ({
                let k = crate::cache::key_hash(meta.remote_path@, Seq::empty());
                old(self)@.retains.contains_key(k) ==> old(self)@.retains[k] < u32::MAX
            }),
        ensures
            final(self).wf(),
            r.0 == old(self)@.next_handle,
            !old(self)@.open.contains_key(r.0),
            final(self)@ == creation_finished(old(self)@, *meta),
    {
        let ghost v = self@;
        self.begin_draft(meta);
        let ghost begun = self@;
        let key = FileKey { remote_path: meta.remote_path.clone(), etag: String::new() };
        proof {
            assert(key.etag@ =~= Seq::<char>::empty());
        }
        self.retain(&key);
        proof {
            let k = key.hash();
            assert(super::handles_retained(v)) by {
                old(self).lemma_wf();
            }
            if super::open_count(v.open, k) > 0 {
                assert(v.retains.contains_key(k));
            }
        }
        let h = self.register(key, 0, None);
        assert(self@.open =~= v.open.insert(
            h.0,
            (OpenView {
                remote_path: meta.remote_path@,
                etag: Seq::empty(),
                size: 0,
                download_url: None,
            }),
        ));
        h
    }

    /// Creates a directory, first step: the URI to create on the server, which is to fail where
    /// something is there.
    pub fn mkdir(&self, parent: NodeId, name: &str) -> (r: Result<String, VfsError>)
        requires
            self.wf(),
        ensures
            mkdir_answers(self@, parent.0, name@, r),
    {
        match self.tree.getattr(parent) {
            Some(a) => if a.is_dir {
                Ok(join_child(a.remote_path.as_str(), name))
            } else {
                Err(failure("mkdir: parent is not a directory"))
            },
            None => Err(failure("mkdir: unknown parent (readdir/lookup it first)")),
        }
    }

    /// Creates a directory, last step, once the server has it and `parent` was listed anew: its node.
    pub fn finish_mkdir(&self, parent: NodeId, name: &str) -> (r: Result<NodeId, VfsError>)
        requires
            self.wf(),
        ensures
            mkdir_finished(self@, parent.0, name@, r),
    {
        match self.tree.lookup(parent, name) {
            Some(p) => Ok(p.0),
            None => Err(failure("mkdir: created folder not found in the fresh listing")),
        }
    }
}

// ---------------------------------------------------------------------------
// Removing.
// ---------------------------------------------------------------------------

/// An entry that is being removed.
#[derive(Debug)]
pub struct UnlinkPlan {
    pub remote_path: String,
    /// Directory of the draft that is dropped with it, to be deleted.
    pub draft_dir: Option<String>,
    /// Whether the server has anything to delete.
    pub delete_remote: bool,
}

/// Whether something is in the directory `id` at `path`: something listed, something that exists only
/// here, or a draft anywhere below.
pub open spec fn occupied(v: VfsView, id: u64, path: Seq<char>) -> bool {
    ||| crate::tree::listed_rows(v.tree, id).len() > 0
    ||| exists|c: u64| #[trigger] crate::tree::is_known_child(v.tree, id, c)
    ||| v.draft_strictly_under(path)
}

/// Whether the server has heard of the file or directory at `path`: one whose draft is of no remote
/// content it has not.
pub open spec fn existed_remotely(v: VfsView, path: Seq<char>) -> bool {
    v.has_draft(path) ==> v.draft(path).base_etag.len() > 0
}

impl Vfs {
    /// Whether a handle is open at `path` or below it.
    fn is_subtree_open(&self, path: &str) -> (r: bool)
        requires
            self.wf(),
        ensures
            r == self@.subtree_open(path@),
    {
        let ids: Vec<u64> = self.open_files.keys();
        let mut i: usize = 0;
        while i < ids.len()
            invariant
                i <= ids@.len(),
                ids@.to_set() == self@.open.dom(),
                forall|j: int|
                    0 <= j < i ==> {
                        let f = self@.open[#[trigger] ids@[j]];
                        f.remote_path != path@ && !crate::text::is_strictly_under(
                            f.remote_path,
                            path@,
                        )
                    },
            decreases ids@.len() - i,
        {
            assert(ids@.to_set().contains(ids@[i as int]));
            if let Some(f) = self.open_files.get(&ids[i]) {
                if same(f.key.remote_path.as_str(), path) || strictly_under(
                    f.key.remote_path.as_str(),
                    path,
                ) {
                    return true;
                }
            }
            i = i + 1;
        }
        assert forall|h: u64| #[trigger] self@.open.contains_key(h) implies self@.open[h].remote_path
            != path@ && !crate::text::is_strictly_under(self@.open[h].remote_path, path@) by {
            assert(ids@.to_set().contains(h));
        }
        false
    }

    /// Whether something is in a directory (see [`occupied`]).
    fn is_occupied(&self, id: NodeId, path: &str) -> (r: bool)
        requires
            self.wf(),
        ensures
            r == occupied(self@, id.0, path@),
    {
        let listed: Vec<(NodeId, NodeAttr)> = self.tree.readdir(id);
        let known: Vec<(NodeId, NodeAttr)> = self.tree.known_children_of(id);
        let ghost list = crate::tree::rows(known@);
        proof {
            if known@.len() > 0 {
                assert(list.contains(list[0]));
                assert(crate::tree::is_known_child(self@.tree, id.0, list[0].0));
            }
            if exists|c: u64| #[trigger] crate::tree::is_known_child(self@.tree, id.0, c) {
                let c = choose|c: u64| #[trigger] crate::tree::is_known_child(self@.tree, id.0, c);
                assert(list.contains((c, self@.tree.attrs[c])));
            }
        }
        listed.len() > 0 || known.len() > 0 || self.drafts.has_draft_strictly_under(path)
    }

    /// Removes an entry, first step. What is in a directory keeps it, and so does a handle: one that is
    /// open must not bring the entry back with a later write.
    ///
    /// A draft of the entry is dropped, and its upload called off where its timer has not fired. A file
    /// that the server has never seen is not to be deleted there.
    pub fn unlink(&mut self, parent: NodeId, name: &str) -> (r: Result<UnlinkPlan, VfsError>)
        requires
            old(self).wf(),
        ensures
            final(self).wf(),
            unlink_answers(old(self)@, parent.0, name@, r, final(self)@),
    {
        let found: (NodeId, NodeAttr) = match self.lookup(parent, name) {
            Some(p) => p,
            None => {
                let start: String = concat("unlink", ": no such entry ");
                return Err(VfsError::Other(concat(start.as_str(), quoted(name).as_str())));
            },
        };
        let remote_path: String = found.1.remote_path;
        if found.1.is_dir && self.is_occupied(found.0, remote_path.as_str()) {
            return Err(VfsError::DirNotEmpty(DirNotEmptyError { remote_path }));
        }
        if self.is_subtree_open(remote_path.as_str()) {
            return Err(VfsError::UnlinkBusy(UnlinkBusyError { remote_path }));
        }
        match self.drafts.base_etag(remote_path.as_str()) {
            Some(base_etag) => {
                let was_armed: bool = self.queue.cancel_cycle(remote_path.as_str());
                let dir: String = self.drafts.remove(remote_path.as_str());
                assert(self@ =~= draft_dropped(old(self)@, remote_path@));
                let delete_remote: bool = base_etag.as_str().unicode_len() > 0;
                Ok(UnlinkPlan { remote_path, draft_dir: Some(dir), delete_remote })
            },
            None => Ok(UnlinkPlan { remote_path, draft_dir: None, delete_remote: true }),
        }
    }

    /// Removes an entry, last step, once the server has deleted what there was to delete: what was known of
    /// it is forgotten, of a directory too.
    pub fn finish_unlink(&mut self, plan: &UnlinkPlan)
        requires
            old(self).wf(),
        ensures
            final(self).wf(),
            final(self)@ == (VfsView {
                tree: crate::tree::forgotten(old(self)@.tree, plan.remote_path@),
                ..old(self)@
            }),
    {
        self.tree.forget_path(plan.remote_path.as_str());
        proof {
            assert(self@ =~= (VfsView { tree: self@.tree, ..old(self)@ }));
            self.keep_handles(*old(self));
        }
    }
}

/// The state after the draft of `path`, if there is one, was dropped.
pub open spec fn draft_dropped(v: VfsView, path: Seq<char>) -> VfsView {
    if v.has_draft(path) {
        VfsView {
            queue: crate::writeback::cancelled(v.queue, path),
            drafts: v.drafts.remove(crate::drafts::path_hash(path)),
            ..v
        }
    } else {
        v
    }
}

// ---------------------------------------------------------------------------
// Renaming.
// ---------------------------------------------------------------------------

/// One request to the server.
#[derive(Debug)]
pub enum RemoteStep {
    Delete { uri: String },
    /// Changes the name of an entry within its directory.
    Rename { uri: String, new_name: String },
    /// Moves an entry, under its name, to the directory `dst`.
    Move { uri: String, dst: String },
}

/// A [`RemoteStep`] as plain values.
pub enum StepView {
    Delete { uri: Seq<char> },
    Rename { uri: Seq<char>, new_name: Seq<char> },
    Move { uri: Seq<char>, dst: Seq<char> },
}

impl View for RemoteStep {
    type V = StepView;

    open spec fn view(&self) -> StepView {
        match *self {
            RemoteStep::Delete { uri } => StepView::Delete { uri: uri@ },
            RemoteStep::Rename { uri, new_name } => StepView::Rename {
                uri: uri@,
                new_name: new_name@,
            },
            RemoteStep::Move { uri, dst } => StepView::Move { uri: uri@, dst: dst@ },
        }
    }
}

/// The requests as plain values.
pub open spec fn step_views(list: Seq<RemoteStep>) -> Seq<StepView> {
    list.map_values(|s: RemoteStep| s@)
}

/// The requests that take the entry `name` at `old_path` to the name `new_name` in the directory
/// `dst`, which is its own directory if `same_dir`.
///
/// The server refuses a name that is taken, so a file that is to be replaced is deleted first. An entry
/// that changes directory and name moves under its old name first, and is renamed where it then is.
pub open spec fn rename_steps(
    old_path: Seq<char>,
    name: Seq<char>,
    dst: Seq<char>,
    new_name: Seq<char>,
    same_dir: bool,
    replaces: bool,
) -> Seq<StepView> {
    let first = if replaces {
        seq![StepView::Delete { uri: crate::text::child_path(dst, new_name) }]
    } else {
        Seq::empty()
    };
    if same_dir {
        first.push(StepView::Rename { uri: old_path, new_name })
    } else if name == new_name {
        first.push(StepView::Move { uri: old_path, dst })
    } else {
        first.push(StepView::Move { uri: old_path, dst }).push(
            StepView::Rename { uri: crate::text::child_path(dst, name), new_name },
        )
    }
}

/// Whether an entry at `path` is in use: a handle is open there or below, or a draft lies below.
pub open spec fn in_use(v: VfsView, path: Seq<char>) -> bool {
    v.subtree_open(path) || v.draft_strictly_under(path)
}

/// What the server told of the name `new_name` in `new_parent`.
pub open spec fn told(v: VfsView, new_parent: u64, new_name: Seq<char>) -> Option<AttrView> {
    match crate::tree::first_named(crate::tree::listed_rows(v.tree, new_parent), new_name) {
        Some(row) => Some(row.1),
        None => None,
    }
}

/// A rename that is under way.
#[derive(Debug)]
pub struct RenamePlan {
    pub old_path: String,
    pub new_path: String,
    /// What to ask of the server, in this order; nothing for a file that it has never seen.
    pub steps: Vec<RemoteStep>,
    pub existed_remotely: bool,
    /// The version that the draft is to replace, where a file that the server has never seen takes the
    /// name of one that it has.
    pub adopt: Option<String>,
}

impl Vfs {
    fn is_in_use(&self, path: &str) -> (r: bool)
        requires
            self.wf(),
        ensures
            r == in_use(self@, path@),
    {
        self.is_subtree_open(path) || self.drafts.has_draft_strictly_under(path)
    }

    /// Renames an entry, first step. Nothing is to be done where it has that name already.
    ///
    /// An entry that is in use keeps its name, for its handles and the drafts below it would go on under
    /// the old one; and no entry takes the name of one that is in use or has a draft. A file that the
    /// server has never seen does not take the name of a directory either: its upload would be refused
    /// for ever.
    pub fn rename(&self, parent: NodeId, name: &str, new_parent: NodeId, new_name: &str) -> (r: Result<
        Option<RenamePlan>,
        VfsError,
    >)
        requires
            self.wf(),
        ensures
            rename_answers(self@, parent.0, name@, new_parent.0, new_name@, r),
    {
        let found: (NodeId, NodeAttr) = match self.lookup(parent, name) {
            Some(p) => p,
            None => {
                let start: String = concat("rename", ": no such entry ");
                return Err(VfsError::Other(concat(start.as_str(), quoted(name).as_str())));
            },
        };
        let old_path: String = found.1.remote_path;
        let dst: String = match self.tree.getattr(new_parent) {
            Some(a) => a.remote_path,
            None => {
                return Err(failure("rename: unknown new_parent (readdir/lookup it first)"));
            },
        };
        let new_path: String = join_child(dst.as_str(), new_name);
        if same(old_path.as_str(), new_path.as_str()) {
            return Ok(None);
        }
        if self.is_in_use(old_path.as_str()) {
            return Err(VfsError::RenameBusy(RenameBusyError { remote_path: old_path }));
        }
        if self.is_in_use(new_path.as_str()) || self.drafts.state(new_path.as_str()).is_some() {
            return Err(VfsError::RenameBusy(RenameBusyError { remote_path: new_path }));
        }
        let remote: bool = match self.drafts.base_etag(old_path.as_str()) {
            Some(base_etag) => base_etag.as_str().unicode_len() > 0,
            None => true,
        };
        let there: Option<(NodeId, NodeAttr)> = self.tree.lookup(new_parent, new_name);
        if remote {
            let replaces: bool = match &there {
                Some(t) => !found.1.is_dir && !t.1.is_dir,
                None => false,
            };
            let steps: Vec<RemoteStep> = requests(
                old_path.as_str(),
                name,
                dst.as_str(),
                new_name,
                parent.0 == new_parent.0,
                replaces,
            );
            return Ok(
                Some(
                    RenamePlan { old_path, new_path, steps, existed_remotely: true, adopt: None },
                ),
            );
        }
        let adopt: Option<String> = match there {
            Some(t) => {
                if t.1.is_dir {
                    return Err(
                        VfsError::RenameOntoDirectory(
                            RenameOntoDirectoryError { remote_path: new_path },
                        ),
                    );
                }
                Some(t.1.etag)
            },
            None => None,
        };
        let steps: Vec<RemoteStep> = Vec::new();
        assert(step_views(steps@) =~= Seq::<StepView>::empty());
        Ok(Some(RenamePlan { old_path, new_path, steps, existed_remotely: false, adopt }))
    }

    /// Renames an entry, second step, once the server has done its part: a draft of it goes along. The
    /// result is what is to move on disk, and what is to be recorded there.
    pub fn move_draft(&mut self, plan: &RenamePlan) -> (r: Option<DraftMove>)
        requires
            old(self).wf(),
        ensures
            final(self).wf(),
            draft_moves(old(self)@, *plan, r, final(self)@),
    {
        match self.drafts.rename(plan.old_path.as_str(), plan.new_path.as_str()) {
            Ok(m) => {
                let ghost here = self.drafts.drafts();
                match &plan.adopt {
                    Some(etag) => match self.drafts.rebase(plan.new_path.as_str(), etag.as_str()) {
                        Ok(meta) => {
                            proof {
                                let k = crate::drafts::path_hash(plan.new_path@);
                                let d = moved(old(self)@.draft(plan.old_path@), *plan);
                                assert(here.insert(k, d) =~= old(self)@.drafts.remove(
                                    crate::drafts::path_hash(plan.old_path@),
                                ).insert(k, d));
                                assert(self@ =~= (VfsView { drafts: here.insert(k, d), ..old(self)@ }));
                                self.keep_handles(*old(self));
                            }
                            Some(DraftMove { from_hash: m.from_hash, to_hash: m.to_hash, meta })
                        },
                        Err(_) => None,
                    },
                    None => {
                        proof {
                            assert(self@ =~= (VfsView { drafts: here, ..old(self)@ }));
                            self.keep_handles(*old(self));
                        }
                        Some(m)
                    },
                }
            },
            Err(_) => {
                assert(self@ =~= old(self)@);
                None
            },
        }
    }

    /// Renames an entry, last step: an upload whose timer has not fired goes on under the new path, what was
    /// known of both paths is forgotten, of a directory too, and a file that the server has never seen is
    /// visible under its new name.
    pub fn finish_rename(
        &mut self,
        plan: &RenamePlan,
        had_draft: bool,
        new_parent: NodeId,
        new_name: &str,
    ) -> (r: Result<(), VfsError>)
        requires
            old(self).wf(),
            old(self)@.tree.next_id < u64::MAX,
        ensures
            final(self).wf(),
            rename_finished(old(self)@, *plan, had_draft, new_parent.0, new_name@, r, final(self)@),
    {
        if had_draft {
            self.queue.migrate_armed_timer(plan.old_path.as_str(), plan.new_path.as_str());
        }
        self.tree.forget_path(plan.old_path.as_str());
        let ghost q = self.queue@;
        if plan.existed_remotely {
            self.tree.forget_path(plan.new_path.as_str());
        } else if had_draft {
            match self.tree.insert_local_entry(new_parent, new_name) {
                Ok(_) => {},
                Err(e) => {
                    proof {
                        assert(self@ =~= (VfsView { queue: q, tree: self@.tree, ..old(self)@ }));
                        self.keep_handles(*old(self));
                    }
                    return Err(e);
                },
            }
        }
        proof {
            assert(self@ =~= (VfsView { queue: q, tree: self@.tree, ..old(self)@ }));
            self.keep_handles(*old(self));
        }
        Ok(())
    }
}

/// A draft after it went along with a rename.
pub open spec fn moved(d: DraftView, plan: RenamePlan) -> DraftView {
    DraftView {
        remote_path: plan.new_path@,
        base_etag: match plan.adopt {
            Some(etag) => etag@,
            None => d.base_etag,
        },
        ..d
    }
}

/// See [`rename_steps`].
fn requests(
    old_path: &str,
    name: &str,
    dst: &str,
    new_name: &str,
    same_dir: bool,
    replaces: bool,
) -> (r: Vec<RemoteStep>)
    ensures
        step_views(r@) == rename_steps(old_path@, name@, dst@, new_name@, same_dir, replaces),
{
    let mut steps: Vec<RemoteStep> = Vec::new();
    if replaces {
        steps.push(RemoteStep::Delete { uri: join_child(dst, new_name) });
    }
    if same_dir {
        steps.push(
            RemoteStep::Rename { uri: old_path.to_owned(), new_name: new_name.to_owned() },
        );
    } else {
        steps.push(RemoteStep::Move { uri: old_path.to_owned(), dst: dst.to_owned() });
        if !same(name, new_name) {
            steps.push(
                RemoteStep::Rename { uri: join_child(dst, name), new_name: new_name.to_owned() },
            );
        }
    }
    assert(step_views(steps@) =~= rename_steps(
        old_path@,
        name@,
        dst@,
        new_name@,
        same_dir,
        replaces,
    ));
    steps
}

/// Whether a removal of the entry `name` in `parent` answers `r` and leads from `v` to `w`.
pub open spec fn unlink_answers(
    v: VfsView,
    parent: u64,
    name: Seq<char>,
    r: Result<UnlinkPlan, VfsError>,
    w: VfsView,
) -> bool {
    match v.entry(parent, name) {
        None => r matches Err(e) && super::says(e, no_entry_message("unlink"@, name))
            && w == v,
        Some(p) => {
            let path = p.1.remote_path;
            if p.1.is_dir && occupied(v, p.0, path) {
                r matches Err(VfsError::DirNotEmpty(e)) && e.remote_path@ == path
                    && w == v
            } else if v.subtree_open(path) {
                r matches Err(VfsError::UnlinkBusy(e)) && e.remote_path@ == path
                    && w == v
            } else {
                &&& r matches Ok(plan)
                &&& plan.remote_path@ == path
                &&& plan.delete_remote == existed_remotely(v, path)
                &&& plan.draft_dir is Some == v.has_draft(path)
                &&& plan.draft_dir matches Some(d) ==> d@ == crate::text::child_path(
                    v.draft_root,
                    crate::drafts::path_hash(path),
                )
                &&& w == draft_dropped(v, path)
            }
        },
    }
}

/// Whether a rename of the entry `name` in `parent` to `new_name` in `new_parent` answers `r`.
pub open spec fn rename_answers(
    v: VfsView,
    parent: u64,
    name: Seq<char>,
    new_parent: u64,
    new_name: Seq<char>,
    r: Result<Option<RenamePlan>, VfsError>,
) -> bool {
    match v.entry(parent, name) {
        None => r matches Err(e) && super::says(e, no_entry_message("rename"@, name)),
        Some(p) => if !v.tree.attrs.contains_key(new_parent) {
            r matches Err(e) && super::says(
                e,
                "rename: unknown new_parent (readdir/lookup it first)"@,
            )
        } else {
            let old_path = p.1.remote_path;
            let dst = v.tree.attrs[new_parent].remote_path;
            let new_path = crate::text::child_path(dst, new_name);
            let there = told(v, new_parent, new_name);
            let remote = existed_remotely(v, old_path);
            if old_path == new_path {
                r matches Ok(None)
            } else if in_use(v, old_path) {
                r matches Err(VfsError::RenameBusy(e)) && e.remote_path@ == old_path
            } else if in_use(v, new_path) || v.has_draft(new_path) {
                r matches Err(VfsError::RenameBusy(e)) && e.remote_path@ == new_path
            } else if !remote && there is Some && there->0.is_dir {
                r matches Err(VfsError::RenameOntoDirectory(e)) && e.remote_path@
                    == new_path
            } else {
                &&& r matches Ok(Some(plan))
                &&& plan.old_path@ == old_path
                &&& plan.new_path@ == new_path
                &&& plan.existed_remotely == remote
                &&& step_views(plan.steps@) == if remote {
                    rename_steps(
                        old_path,
                        name,
                        dst,
                        new_name,
                        parent == new_parent,
                        !p.1.is_dir && there is Some && !there->0.is_dir,
                    )
                } else {
                    Seq::empty()
                }
                &&& crate::writeback::opt_text(plan.adopt) == if !remote && there is Some {
                    Some(there->0.etag)
                } else {
                    None
                }
            }
        },
    }
}

/// Whether the draft of a renamed entry, where it has one, goes along, as `r` tells, from `v` to `w`.
pub open spec fn draft_moves(
    v: VfsView,
    plan: RenamePlan,
    r: Option<DraftMove>,
    w: VfsView,
) -> bool {
    &&& r is Some == v.has_draft(plan.old_path@)
    &&& match r {
        Some(m) => {
            let d = moved(v.draft(plan.old_path@), plan);
            &&& m.from_hash@ == crate::drafts::path_hash(plan.old_path@)
            &&& m.to_hash@ == crate::drafts::path_hash(plan.new_path@)
            &&& crate::drafts::records(m.meta, d)
            &&& w == (VfsView {
                drafts: v.drafts.remove(
                    crate::drafts::path_hash(plan.old_path@),
                ).insert(crate::drafts::path_hash(plan.new_path@), d),
                ..v
            })
        },
        None => w == v,
    }
}

/// Whether the last step of a rename answers `r` and leads from `v` to `w`.
pub open spec fn rename_finished(
    v: VfsView,
    plan: RenamePlan,
    had_draft: bool,
    new_parent: u64,
    new_name: Seq<char>,
    r: Result<(), VfsError>,
    w: VfsView,
) -> bool {
    let t = crate::tree::forgotten(v.tree, plan.old_path@);
    let lost = !plan.existed_remotely && had_draft && !t.attrs.contains_key(
        new_parent,
    );
    &&& match r {
        Ok(_) => !lost,
        Err(e) => lost && super::says(e, "insert_local_entry: unknown parent"@),
    }
    &&& w == (VfsView {
        queue: if had_draft {
            crate::writeback::migrated(
                v.queue,
                plan.old_path@,
                plan.new_path@,
            )
        } else {
            v.queue
        },
        tree: if plan.existed_remotely {
            crate::tree::forgotten(t, plan.new_path@)
        } else if had_draft && !lost {
            crate::tree::local_inserted(t, new_parent, new_name)
        } else {
            t
        },
        ..v
    })
}

/// Whether the first step of creating the directory `name` in `parent` answers `r`.
pub open spec fn mkdir_answers(
    v: VfsView,
    parent: u64,
    name: Seq<char>,
    r: Result<String, VfsError>,
) -> bool {
    match r {
        Ok(uri) => {
            &&& v.tree.attrs.contains_key(parent)
            &&& v.tree.attrs[parent].is_dir
            &&& uri@ == crate::text::child_path(
                v.tree.attrs[parent].remote_path,
                name,
            )
        },
        Err(e) => if v.tree.attrs.contains_key(parent) {
            !v.tree.attrs[parent].is_dir && super::says(
                e,
                "mkdir: parent is not a directory"@,
            )
        } else {
            super::says(e, "mkdir: unknown parent (readdir/lookup it first)"@)
        },
    }
}

/// Whether the last step of creating the directory `name` in `parent` answers `r`.
pub open spec fn mkdir_finished(
    v: VfsView,
    parent: u64,
    name: Seq<char>,
    r: Result<NodeId, VfsError>,
) -> bool {
    match r {
        Ok(id) => crate::tree::first_named(
            crate::tree::listed_rows(v.tree, parent),
            name,
        ) matches Some(row) && row.0 == id.0,
        Err(e) => crate::tree::first_named(
            crate::tree::listed_rows(v.tree, parent),
            name,
        ) is None && super::says(
            e,
            "mkdir: created folder not found in the fresh listing"@,
        ),
    }
}

} // verus!
