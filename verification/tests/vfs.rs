use std::collections::{HashMap, VecDeque};

use cloudreve_vfs::blocks::{run_bytes, split_run, BlockRead};
use cloudreve_vfs::cache::{hash_key, BlockCache, FileKey, BLOCK_SIZE};
use cloudreve_vfs::drafts::{hash16, DraftMeta, DraftState, DraftStore, ScannedDraft};
use cloudreve_vfs::error::VfsError;
use cloudreve_vfs::frontend_util::{classify_error, FrontendErrno};
use cloudreve_vfs::tree::{NodeAttr, NodeId, RemoteFile};
use cloudreve_vfs::vfs::cycle::{Ended, Next, Trying};
use cloudreve_vfs::vfs::files::{Source, TruncatePlan, WritePlan};
use cloudreve_vfs::vfs::handles::ReadPlan;
use cloudreve_vfs::vfs::namespace::RemoteStep;
use cloudreve_vfs::vfs::upload::DraftFate;
use cloudreve_vfs::vfs::{FileHandle, Vfs};
use cloudreve_vfs::writeback::{UploadReply, VfsEvent, UPLOAD_RETRIES};

const BASE: &str = "cloudreve://my/sync";
const DATE: &str = "2024-05-06";

#[derive(Clone)]
struct Stored {
    bytes: Vec<u8>,
    etag: String,
    is_dir: bool,
}

/// A file system with a server and a disk, all in memory.
struct World {
    vfs: Vfs,
    server: HashMap<String, Stored>,
    next_etag: u32,
    blocks: HashMap<String, Vec<u8>>,
    drafts: HashMap<String, Vec<u8>>,
    metas: HashMap<String, DraftMeta>,
    now: u64,
    /// What is to be uploaded, and whether its timer fired.
    queue: VecDeque<(String, bool)>,
    events: Vec<VfsEvent>,
    /// Whether an upload changes what the server lists and serves.
    stores: bool,
    /// What was uploaded, by the path that it was uploaded to.
    uploaded: HashMap<String, Vec<u8>>,
    fail_uploads: u32,
    downloads: u32,
    listings: u32,
    urls: u32,
    deleted: Vec<String>,
    renamed: Vec<(String, String)>,
    moved: Vec<(String, String)>,
    uploads: u32,
}

/// An upload that has begun and not yet ended.
struct Upload {
    trying: Trying,
    bytes: Vec<u8>,
}

fn copy_meta(m: &DraftMeta) -> DraftMeta {
    DraftMeta {
        remote_path: m.remote_path.clone(),
        base_etag: m.base_etag.clone(),
        size: m.size,
        state: m.state,
        last_write_unix: m.last_write_unix,
    }
}

fn uri_of(path: &str) -> String {
    format!("{BASE}/{path}")
}

fn parent_of(path: &str) -> &str {
    path.rsplit_once('/').unwrap().0
}

fn name_of(path: &str) -> &str {
    path.rsplit_once('/').unwrap().1
}

impl World {
    fn new() -> World {
        World::with_drafts(HashMap::new(), HashMap::new(), HashMap::new())
    }

    fn with_drafts(
        server: HashMap<String, Stored>,
        drafts: HashMap<String, Vec<u8>>,
        metas: HashMap<String, DraftMeta>,
    ) -> World {
        let (cache, _) = BlockCache::open("/c/blocks", 100 * BLOCK_SIZE, &vec![]);
        let scanned = metas
            .iter()
            .map(|(hash, meta)| ScannedDraft { hash: hash.clone(), meta: Some(copy_meta(meta)) })
            .collect();
        let (store, _, _) = DraftStore::open("/c/drafts", &scanned);
        let (vfs, resume) = Vfs::new(BASE, cache, store);
        World {
            vfs,
            server,
            next_etag: 100,
            blocks: HashMap::new(),
            drafts,
            metas,
            now: 1_000_000,
            queue: resume.into_iter().map(|path| (path, false)).collect(),
            events: Vec::new(),
            stores: true,
            uploaded: HashMap::new(),
            fail_uploads: 0,
            downloads: 0,
            listings: 0,
            urls: 0,
            deleted: Vec::new(),
            renamed: Vec::new(),
            moved: Vec::new(),
            uploads: 0,
        }
    }

    /// A world whose server takes uploads and goes on listing and serving what it did.
    fn lagging() -> World {
        World { stores: false, ..World::new() }
    }

    fn restart(self) -> World {
        let after = World::with_drafts(self.server, self.drafts, self.metas);
        World { stores: self.stores, uploaded: self.uploaded, ..after }
    }

    fn put(&mut self, path: &str, bytes: &[u8], etag: &str) {
        let stored = Stored { bytes: bytes.to_vec(), etag: etag.into(), is_dir: false };
        self.server.insert(format!("{BASE}/{path}"), stored);
    }

    fn put_dir(&mut self, path: &str) {
        let stored = Stored { bytes: Vec::new(), etag: String::new(), is_dir: true };
        self.server.insert(format!("{BASE}/{path}"), stored);
    }

    fn set_etag(&mut self, path: &str, etag: &str) {
        self.server.get_mut(&uri_of(path)).unwrap().etag = etag.into();
    }

    fn uploaded(&self, path: &str) -> Option<Vec<u8>> {
        self.uploaded.get(&uri_of(path)).cloned()
    }

    /// Gives an entry of the server another path, with all that lies below it.
    fn relocate(&mut self, from: &str, to: &str) {
        let below = format!("{from}/");
        let paths: Vec<String> = self
            .server
            .keys()
            .filter(|p| *p == from || p.starts_with(&below))
            .cloned()
            .collect();
        for p in paths {
            let s = self.server.remove(&p).unwrap();
            self.server.insert(format!("{to}{}", &p[from.len()..]), s);
        }
    }

    fn root(&self) -> NodeId {
        self.vfs.tree().root()
    }

    fn list(&mut self, dir: NodeId) {
        if let Some(path) = self.vfs.plan_listing(dir, self.now).unwrap() {
            self.listings += 1;
            let mut files: Vec<RemoteFile> = Vec::new();
            for (p, s) in &self.server {
                if parent_of(p) == path {
                    files.push(RemoteFile {
                        name: name_of(p).to_string(),
                        path: p.clone(),
                        size: s.bytes.len() as i64,
                        updated_at: "2024-01-02T03:04:05Z".into(),
                        file_type: i32::from(s.is_dir),
                        primary_entity: if s.is_dir { None } else { Some(s.etag.clone()) },
                    });
                }
            }
            files.sort_by(|a, b| a.name.cmp(&b.name));
            self.vfs.apply_listing(dir, &files, self.now);
        }
    }

    fn lookup(&mut self, dir: NodeId, name: &str) -> Option<(NodeId, NodeAttr)> {
        self.list(dir);
        self.vfs.lookup(dir, name)
    }

    fn names(&mut self, dir: NodeId) -> Vec<String> {
        self.list(dir);
        self.vfs.readdir(dir).iter().map(|(_, a)| a.name.clone()).collect()
    }

    fn record(&mut self, meta: DraftMeta) {
        self.metas.insert(hash16(&meta.remote_path), meta);
    }

    fn open(&mut self, node: NodeId) -> Result<FileHandle, VfsError> {
        let plan = self.vfs.open(node)?;
        let url = if plan.needs_url {
            self.urls += 1;
            assert!(self.server.contains_key(&plan.key.remote_path), "no such file on the server");
            Some(plan.key.remote_path.clone())
        } else {
            None
        };
        if let Some(meta) = self.vfs.reopen_draft(&plan.key.remote_path) {
            self.record(meta);
        }
        Ok(self.vfs.register(plan.key, plan.size, url))
    }

    fn close(&mut self, h: FileHandle) {
        let closing = self.vfs.close(h).unwrap();
        if let Some(meta) = &closing.parked {
            self.metas.insert(hash16(&meta.remote_path), copy_meta(meta));
        }
        self.vfs.finish_close(&closing);
    }

    fn block(&mut self, key: &FileKey, b: u64) -> Option<Vec<u8>> {
        let hash = hash_key(&key.remote_path, &key.etag);
        let file = self.blocks.get(&hash).cloned().unwrap_or_default();
        let span = self.vfs.cache().read_block(key, b, file.len() as u64)?;
        self.vfs.finish_block_read(key, b, true, 0);
        Some(file[span.offset as usize..(span.offset + span.len) as usize].to_vec())
    }

    fn read_remote(&mut self, key: &FileKey, size: u64, url: &str, offset: u64, len: u32) -> Vec<u8> {
        let mut read = match BlockRead::new(size, offset, len) {
            Some(r) => r,
            None => return Vec::new(),
        };
        let (first, last) = read.range();
        for b in first..=last {
            let block = self.block(key, b);
            read.put(b, block);
        }
        for (run_first, run_last) in read.missing() {
            let (start, end) = run_bytes(run_first, run_last, size).unwrap();
            self.downloads += 1;
            let data = self.server[url].bytes[start as usize..=end as usize].to_vec();
            for (b, block) in split_run(&data, run_first, run_last) {
                let hash = hash_key(&key.remote_path, &key.etag);
                let file = self.blocks.entry(hash).or_default();
                let at = (b * BLOCK_SIZE) as usize;
                if file.len() < at + block.len() {
                    file.resize(at + block.len(), 0);
                }
                file[at..at + block.len()].copy_from_slice(&block);
                let file_len = file.len() as u64;
                self.vfs.block_written(key, b, file_len, 0);
                for gone in self.vfs.evict_if_over_budget() {
                    self.blocks.remove(&gone);
                }
            }
            for b in run_first..=run_last {
                let block = self.block(key, b);
                read.put(b, block);
            }
        }
        read.bytes()
    }

    fn read(&mut self, h: FileHandle, offset: u64, len: u32) -> Result<Vec<u8>, VfsError> {
        match self.vfs.read(h, offset, len)? {
            ReadPlan::Draft { data_path, span } => {
                let hash = data_path.split('/').nth(3).unwrap();
                let file = &self.drafts[hash];
                let end = (span.offset + span.len) as usize;
                if span.len == 0 {
                    return Ok(Vec::new());
                }
                Ok(file[span.offset as usize..end].to_vec())
            }
            ReadPlan::Remote { key, size, download_url } => {
                Ok(self.read_remote(&key, size, &download_url, offset, len))
            }
        }
    }

    fn materialize(&mut self, source: &Source) {
        let url = source.key.remote_path.clone();
        let bytes = self.read_remote(&source.key, source.size, &url, 0, source.size as u32);
        let meta = source.draft_meta(bytes.len() as u64, 500);
        self.drafts.insert(hash16(&source.key.remote_path), bytes);
        self.vfs.begin_draft(&meta);
        self.record(meta);
    }

    fn write(&mut self, h: FileHandle, offset: u64, bytes: &[u8]) -> Result<(), VfsError> {
        if let WritePlan::Materialize(source) = self.vfs.write(h)? {
            self.materialize(&source);
        }
        match self.vfs.write(h)? {
            WritePlan::Ready { remote_path, .. } => {
                let file = self.drafts.get_mut(&hash16(&remote_path)).unwrap();
                let at = offset as usize;
                if file.len() < at + bytes.len() {
                    file.resize(at + bytes.len(), 0);
                }
                file[at..at + bytes.len()].copy_from_slice(bytes);
                let meta =
                    self.vfs.finish_write(&remote_path, offset, bytes.len() as u64, 600).unwrap();
                self.record(meta);
            }
            WritePlan::Materialize(_) => unreachable!(),
        }
        Ok(())
    }

    fn truncate(&mut self, h: FileHandle, size: u64) {
        match self.vfs.truncate(h, size, 700).unwrap() {
            TruncatePlan::Empty(meta) => {
                self.drafts.insert(hash16(&meta.remote_path), Vec::new());
                self.vfs.begin_draft(&meta);
                self.record(meta);
                return;
            }
            TruncatePlan::Materialize(source) => self.materialize(&source),
            TruncatePlan::Ready { .. } => {}
        }
        if let TruncatePlan::Ready { remote_path, .. } = self.vfs.truncate(h, size, 700).unwrap() {
            self.drafts.get_mut(&hash16(&remote_path)).unwrap().resize(size as usize, 0);
            let meta = self.vfs.finish_truncate(&remote_path, size, 700).unwrap();
            self.record(meta);
        }
    }

    fn create(&mut self, parent: NodeId, name: &str) -> Result<(NodeId, FileHandle), VfsError> {
        self.list(parent);
        let c = self.vfs.create(parent, name, 400)?;
        self.drafts.insert(hash16(&c.meta.remote_path), Vec::new());
        let h = self.vfs.finish_create(&c.meta);
        self.record(c.meta);
        Ok((c.node, h))
    }

    fn mkdir(&mut self, parent: NodeId, name: &str) -> Result<NodeId, VfsError> {
        let uri = self.vfs.mkdir(parent, name)?;
        let stored = Stored { bytes: Vec::new(), etag: String::new(), is_dir: true };
        self.server.insert(uri.clone(), stored);
        self.vfs.invalidate_path(&uri);
        self.list(parent);
        self.vfs.finish_mkdir(parent, name)
    }

    fn unlink(&mut self, parent: NodeId, name: &str) -> Result<(), VfsError> {
        if let Some((id, attr)) = self.lookup(parent, name) {
            if attr.is_dir {
                self.list(id);
            }
        }
        let plan = self.vfs.unlink(parent, name)?;
        if plan.draft_dir.is_some() {
            self.drafts.remove(&hash16(&plan.remote_path));
            self.metas.remove(&hash16(&plan.remote_path));
        }
        if plan.delete_remote {
            self.deleted.push(plan.remote_path.clone());
            assert!(self.server.remove(&plan.remote_path).is_some());
        }
        self.vfs.finish_unlink(&plan);
        Ok(())
    }

    fn rename(
        &mut self,
        parent: NodeId,
        name: &str,
        new_parent: NodeId,
        new_name: &str,
    ) -> Result<(), VfsError> {
        self.list(parent);
        self.list(new_parent);
        let plan = match self.vfs.rename(parent, name, new_parent, new_name)? {
            Some(plan) => plan,
            None => return Ok(()),
        };
        for step in &plan.steps {
            match step {
                RemoteStep::Delete { uri } => {
                    self.deleted.push(uri.clone());
                    assert!(self.server.remove(uri).is_some());
                }
                RemoteStep::Rename { uri, new_name } => {
                    self.renamed.push((uri.clone(), new_name.clone()));
                    let to = format!("{}/{new_name}", parent_of(uri));
                    assert!(!self.server.contains_key(&to), "the server refuses a taken name");
                    self.relocate(uri, &to);
                }
                RemoteStep::Move { uri, dst } => {
                    self.moved.push((uri.clone(), dst.clone()));
                    self.relocate(uri, &format!("{dst}/{}", name_of(uri)));
                }
            }
        }
        let moved = self.vfs.move_draft(&plan);
        if let Some(m) = &moved {
            let bytes = self.drafts.remove(&m.from_hash).unwrap();
            self.drafts.insert(m.to_hash.clone(), bytes);
            self.metas.remove(&m.from_hash);
            self.metas.insert(m.to_hash.clone(), copy_meta(&m.meta));
        }
        self.vfs.finish_rename(&plan, moved.is_some(), new_parent, new_name)
    }

    /// Lets the timer of a path fire, if it is armed.
    fn fire(&mut self, path: &str) -> bool {
        if !self.vfs.queue().is_armed(path) {
            return false;
        }
        self.vfs.fire(path);
        self.queue.push_back((path.to_string(), true));
        true
    }

    fn current_etag(&mut self, path: &str) -> Option<String> {
        let dir = self.vfs.expire_listing_of(path)?;
        self.list(dir);
        self.vfs.listed_etag(dir, path)
    }

    fn start_upload(&mut self) -> Option<Upload> {
        let (path, timed) = self.queue.pop_front()?;
        assert!(self.vfs.queue().has_running());
        let mut next = self.vfs.begin_upload(&path, timed);
        if let Next::Check(c) = next {
            let current = self.current_etag(&c.path);
            next = self.vfs.checked_on(c, current, DATE);
        }
        match next {
            Next::Upload(trying, Some(meta)) => {
                self.record(meta);
                let bytes = self.drafts[&hash16(&path)].clone();
                Some(Upload { trying, bytes })
            }
            Next::Over(Ended::Gone) => None,
            other => panic!("{other:?}"),
        }
    }

    fn settle(&mut self, path: &str, fate: DraftFate) {
        match fate {
            DraftFate::Removed { dir } => {
                assert_eq!(dir, format!("/c/drafts/{}", hash16(path)));
                self.drafts.remove(&hash16(path));
                self.metas.remove(&hash16(path));
            }
            DraftFate::Kept { meta } => self.record(meta),
            DraftFate::Gone => {}
        }
    }

    fn end_upload(&mut self, up: Upload) {
        let path = up.trying.path.clone();
        let mut next = Next::Upload(up.trying, None);
        loop {
            next = match next {
                Next::Upload(t, _) | Next::Wait(t, _) => {
                    self.uploads += 1;
                    let reply = if self.fail_uploads > 0 {
                        self.fail_uploads -= 1;
                        UploadReply::Failed
                    } else if !t.target.overwrite
                        && (self.server.contains_key(&t.target.uri)
                            || self.uploaded.contains_key(&t.target.uri))
                    {
                        UploadReply::Collision
                    } else {
                        self.uploaded.insert(t.target.uri.clone(), up.bytes.clone());
                        if self.stores {
                            self.next_etag += 1;
                            let etag = format!("e{}", self.next_etag);
                            let bytes = up.bytes.clone();
                            self.server
                                .insert(t.target.uri.clone(), Stored { bytes, etag, is_dir: false });
                        }
                        UploadReply::Landed
                    };
                    self.vfs.replied_on(t, reply, "no luck", DATE)
                }
                Next::Learn(l) => {
                    let etag = self.current_etag(&l.path);
                    self.vfs.learned(l, etag)
                }
                Next::Over(Ended::Saved { fate }) => {
                    self.settle(&path, fate);
                    return;
                }
                Next::Over(Ended::Landed { fate, purged }) => {
                    for hash in purged {
                        self.blocks.remove(&hash);
                    }
                    self.settle(&path, fate);
                    return;
                }
                Next::Over(Ended::Failed { meta }) => {
                    if let Some(meta) = meta {
                        self.record(meta);
                    }
                    return;
                }
                other => panic!("{other:?}"),
            };
        }
    }

    /// Lets everything that is queued happen.
    fn drain(&mut self, paths: &[&str]) {
        loop {
            for p in paths {
                self.fire(&format!("{BASE}/{p}"));
            }
            if self.queue.is_empty() {
                return;
            }
            if let Some(up) = self.start_upload() {
                self.end_upload(up);
            }
        }
    }

    fn retry(&mut self) -> usize {
        let found = self.vfs.retry_candidates();
        let mut paths = found.ready;
        for (path, meta) in found.stranded {
            self.record(meta);
            paths.push(path);
        }
        let n = self.vfs.enqueue_immediate(&paths);
        self.queue.extend(paths.into_iter().map(|path| (path, false)));
        n
    }

    fn take_events(&mut self) -> Vec<VfsEvent> {
        self.events.extend(self.vfs.take_events());
        std::mem::take(&mut self.events)
    }

    fn on_server(&self, path: &str) -> Option<Vec<u8>> {
        self.server.get(&format!("{BASE}/{path}")).map(|s| s.bytes.clone())
    }
}

fn queued(path: &str) -> VfsEvent {
    VfsEvent::UploadQueued { remote_path: format!("{BASE}/{path}") }
}

fn cancelled(path: &str) -> VfsEvent {
    VfsEvent::UploadCancelled { remote_path: format!("{BASE}/{path}") }
}

fn succeeded(path: &str, etag: &str) -> VfsEvent {
    VfsEvent::UploadSucceeded { remote_path: format!("{BASE}/{path}"), new_etag: etag.into() }
}

// ---------------------------------------------------------------------------
// Reading and writing.
// ---------------------------------------------------------------------------

#[test]
fn a_file_is_read_from_the_server_once() {
    let mut w = World::new();
    w.put("a.txt", b"hello world", "e1");
    let root = w.root();
    let node = w.lookup(root, "a.txt").unwrap().0;
    let h = w.open(node).unwrap();
    assert_eq!(w.read(h, 6, 100).unwrap(), b"world");
    assert_eq!(w.read(h, 0, 5).unwrap(), b"hello");
    assert_eq!(w.read(h, 11, 5).unwrap(), b"");
    assert_eq!(w.downloads, 1);
    w.close(h);
}

#[test]
fn a_truncate_then_rewrite_downloads_nothing() {
    let mut w = World::new();
    w.put("doc.txt", &vec![7u8; 2 * 1024 * 1024], "e1");
    let root = w.root();
    let node = w.lookup(root, "doc.txt").unwrap().0;
    let h = w.open(node).unwrap();

    w.truncate(h, 0);
    let new_content = b"brand new content, much shorter than the original";
    w.write(h, 0, new_content).unwrap();

    assert_eq!(w.read(h, 0, new_content.len() as u32).unwrap(), new_content);
    assert_eq!(w.read(h, 0, 1000).unwrap(), new_content);
    assert_eq!(w.downloads, 0, "what is about to be overwritten must never be downloaded");
}

#[test]
fn a_partial_write_keeps_the_untouched_bytes() {
    let mut w = World::new();
    let original: Vec<u8> = (0..=255u8).cycle().take(3 * 1024 * 1024).collect();
    w.put("big.bin", &original, "e1");
    let root = w.root();
    let node = w.lookup(root, "big.bin").unwrap().0;
    let h = w.open(node).unwrap();

    let patch = b"NEWBYTES!!";
    let at = 1_500_000usize;
    w.write(h, at as u64, patch).unwrap();
    assert!(w.downloads > 0, "the bytes around the patch must come from the server");

    let whole = w.read(h, 0, original.len() as u32).unwrap();
    assert!(whole[..at] == original[..at], "what stands before the patch must survive");
    assert_eq!(&whole[at..at + patch.len()], patch);
    let end = at + patch.len();
    assert!(whole[end..] == original[end..], "what stands after the patch must survive");

    w.truncate(h, 4);
    assert_eq!(w.read(h, 0, 100).unwrap(), original[..4]);
}

#[test]
fn a_created_file_is_visible_before_any_upload() {
    let mut w = World::new();
    w.put("existing.txt", b"x", "e1");
    let root = w.root();
    let (node, h) = w.create(root, "new.txt").unwrap();
    assert_eq!(w.lookup(root, "new.txt").unwrap().1.size, 0);
    let content = b"freshly created, never uploaded";
    w.write(h, 0, content).unwrap();

    assert_eq!(w.names(root), vec!["existing.txt", "new.txt"]);
    let listed = w.vfs.readdir(root);
    let (_, attr) = listed.iter().find(|(id, _)| *id == node).unwrap();
    assert_eq!(attr.size, content.len() as u64);
    assert_eq!(w.vfs.getattr(node).unwrap().size, content.len() as u64);
    assert_eq!(w.listings, 1, "the server is not asked again on account of it");
    assert_eq!(w.uploads, 0);
}

#[test]
fn reads_of_a_drafted_file_see_the_draft_not_the_cache() {
    let mut w = World::new();
    let original = vec![1u8; 4096];
    w.put("warm.bin", &original, "e1");
    let root = w.root();
    let node = w.lookup(root, "warm.bin").unwrap().0;
    let h = w.open(node).unwrap();
    assert_eq!(w.read(h, 0, 4096).unwrap(), original);

    w.truncate(h, 0);
    let draft = vec![9u8; 100];
    w.write(h, 0, &draft).unwrap();
    assert_eq!(w.read(h, 0, 100).unwrap(), draft, "the draft, not what is still cached");
}

#[test]
fn creating_over_an_existing_file_is_refused() {
    let mut w = World::new();
    let original = b"do not touch me";
    w.put("keep.txt", original, "e1");
    let root = w.root();
    let e = w.create(root, "keep.txt").unwrap_err();
    assert_eq!(
        e.message(),
        "EEXIST: an entry named \"keep.txt\" already exists in this directory"
    );
    assert_eq!(classify_error(&e), FrontendErrno::Exist);

    let (node, attr) = w.lookup(root, "keep.txt").unwrap();
    assert_eq!(attr.size, original.len() as u64, "what is known of it must be untouched");
    assert!(w.vfs.drafts().state(&uri_of("keep.txt")).is_none());
    let h = w.open(node).unwrap();
    assert_eq!(w.read(h, 0, original.len() as u32).unwrap(), original);
}

#[test]
fn what_cannot_be_opened_is_told() {
    let mut w = World::new();
    w.put_dir("docs");
    let root = w.root();
    assert_eq!(
        w.open(NodeId(99)).unwrap_err().message(),
        "open: unknown node (readdir/lookup it first)"
    );
    let docs = w.lookup(root, "docs").unwrap().0;
    assert_eq!(w.open(docs).unwrap_err().message(), "cannot open a directory as a file");
    let none = FileHandle(7);
    assert_eq!(w.read(none, 0, 1).unwrap_err().message(), "read: file handle is not open");
    assert_eq!(w.vfs.close(none).unwrap_err().message(), "close: file handle is not open");
    assert!(w.vfs.write(none).is_err());
    assert!(w.vfs.truncate(none, 0, 0).is_err());
    assert!(w.vfs.open_file(none).is_none());
    assert_eq!(
        w.vfs.create(NodeId(99), "x", 0).unwrap_err().message(),
        "create: unknown parent (readdir/lookup it first)"
    );
}

#[test]
fn a_renewed_url_is_the_one_that_is_read_from() {
    let mut w = World::new();
    w.put("a.txt", b"abc", "e1");
    let root = w.root();
    let node = w.lookup(root, "a.txt").unwrap().0;
    let h = w.open(node).unwrap();
    w.vfs.renew_url(h, "https://new".to_string());
    match w.vfs.read(h, 0, 1).unwrap() {
        ReadPlan::Remote { download_url, .. } => assert_eq!(download_url, "https://new"),
        other => panic!("{other:?}"),
    }
    assert_eq!(w.vfs.open_file(h).unwrap().url_to_fetch().unwrap(), "https://new");
    let (_, c) = w.create(root, "b.txt").unwrap();
    assert!(w.vfs.open_file(c).unwrap().url_to_fetch().is_err());
}

#[test]
fn a_fetch_in_advance_runs_once_per_file() {
    let mut w = World::new();
    assert_eq!(w.vfs.plan_readahead("p", 10 * BLOCK_SIZE, 0), Some((1, 4)));
    assert_eq!(w.vfs.plan_readahead("p", 10 * BLOCK_SIZE, 1), None);
    assert_eq!(w.vfs.plan_readahead("q", 10 * BLOCK_SIZE, 9), None);
    w.vfs.end_readahead("p");
    assert_eq!(w.vfs.plan_readahead("p", 10 * BLOCK_SIZE, 1), Some((2, 5)));
}

#[test]
fn temporary_names_are_not_used_twice() {
    let mut w = World::new();
    assert_eq!(w.vfs.temp_name(), "materialize-1");
    assert_eq!(w.vfs.temp_name(), "materialize-2");
}

// ---------------------------------------------------------------------------
// Names.
// ---------------------------------------------------------------------------

#[test]
fn mkdir_lists_immediately() {
    let mut w = World::new();
    w.put("existing.txt", b"x", "e1");
    let root = w.root();
    w.list(root);
    let id = w.mkdir(root, "photos").unwrap();
    assert_eq!(w.names(root), vec!["existing.txt", "photos"]);
    let listed = w.vfs.readdir(root);
    let (_, attr) = listed.iter().find(|(n, _)| *n == id).unwrap();
    assert_eq!(attr.name, "photos");
    assert!(attr.is_dir);
    assert_eq!(
        w.vfs.finish_mkdir(root, "never").unwrap_err().message(),
        "mkdir: created folder not found in the fresh listing"
    );
    assert_eq!(
        w.vfs.mkdir(NodeId(99), "x").unwrap_err().message(),
        "mkdir: unknown parent (readdir/lookup it first)"
    );
    let f = w.lookup(root, "existing.txt").unwrap().0;
    assert_eq!(w.vfs.mkdir(f, "x").unwrap_err().message(), "mkdir: parent is not a directory");
}

#[test]
fn unlink_removes_the_entry_and_hits_the_delete_api() {
    let mut w = World::new();
    w.put("doomed.txt", b"delete me", "e1");
    let root = w.root();
    w.unlink(root, "doomed.txt").unwrap();
    assert_eq!(w.deleted, vec![uri_of("doomed.txt")]);
    assert!(w.lookup(root, "doomed.txt").is_none());
    assert_eq!(
        w.unlink(root, "doomed.txt").unwrap_err().message(),
        "unlink: no such entry \"doomed.txt\""
    );
}

#[test]
fn same_dir_rename_hits_the_api_and_updates_the_listing() {
    let mut w = World::new();
    w.put("before.txt", b"hello", "e1");
    let root = w.root();
    w.rename(root, "before.txt", root, "after.txt").unwrap();
    assert_eq!(w.renamed, vec![(uri_of("before.txt"), "after.txt".to_string())]);
    assert!(w.moved.is_empty());
    assert!(w.deleted.is_empty());
    assert!(w.lookup(root, "before.txt").is_none());
    assert_eq!(w.lookup(root, "after.txt").unwrap().1.name, "after.txt");
    w.rename(root, "after.txt", root, "after.txt").unwrap();
    assert_eq!(w.renamed.len(), 1, "renaming onto itself does nothing");
}

#[test]
fn cross_dir_rename_with_a_new_leaf_name_moves_then_renames() {
    let mut w = World::new();
    w.put("doc.txt", b"hello", "e1");
    w.put_dir("archive");
    let root = w.root();
    let archive = w.lookup(root, "archive").unwrap().0;
    w.rename(root, "doc.txt", archive, "renamed.txt").unwrap();
    assert_eq!(w.moved, vec![(uri_of("doc.txt"), uri_of("archive"))]);
    assert_eq!(w.renamed, vec![(uri_of("archive/doc.txt"), "renamed.txt".to_string())]);
    assert!(w.lookup(root, "doc.txt").is_none());
    assert_eq!(w.lookup(archive, "renamed.txt").unwrap().1.name, "renamed.txt");
    w.rename(archive, "renamed.txt", root, "renamed.txt").unwrap();
    assert_eq!((w.renamed.len(), w.moved.len()), (1, 2));
}

#[test]
fn renaming_a_drafted_new_file_uploads_to_the_new_name_with_no_rename_call() {
    let mut w = World::lagging();
    let root = w.root();
    let (_, h) = w.create(root, "draft.txt").unwrap();
    let content = b"never touched the server yet";
    w.write(h, 0, content).unwrap();
    w.close(h);
    w.rename(root, "draft.txt", root, "renamed-draft.txt").unwrap();
    assert!(w.renamed.is_empty());
    assert!(w.moved.is_empty());
    assert_eq!(w.names(root), vec!["renamed-draft.txt"]);
    w.drain(&["draft.txt", "renamed-draft.txt"]);
    assert_eq!(w.uploaded("renamed-draft.txt"), Some(content.to_vec()));
    assert_eq!(w.uploaded("draft.txt"), None);
}

#[test]
fn unlinking_a_drafted_new_file_makes_no_delete_call() {
    let mut w = World::new();
    let root = w.root();
    let (_, h) = w.create(root, "ephemeral.txt").unwrap();
    w.write(h, 0, b"short lived").unwrap();
    w.close(h);
    w.unlink(root, "ephemeral.txt").unwrap();
    assert!(w.deleted.is_empty());
    assert!(w.lookup(root, "ephemeral.txt").is_none());
    w.drain(&["ephemeral.txt"]);
    assert_eq!(w.uploads, 0);
}

#[test]
fn renaming_a_file_with_an_open_handle_is_refused() {
    let mut w = World::new();
    w.put("busy.txt", b"hello", "e1");
    let root = w.root();
    let node = w.lookup(root, "busy.txt").unwrap().0;
    let h = w.open(node).unwrap();
    let e = w.rename(root, "busy.txt", root, "renamed.txt").unwrap_err();
    assert!(matches!(e, VfsError::RenameBusy(_)));
    assert!(w.renamed.is_empty(), "a refused rename never reaches the server");
    assert!(w.lookup(root, "busy.txt").is_some());
    w.close(h);
    w.rename(root, "busy.txt", root, "renamed.txt").unwrap();
    assert!(w.lookup(root, "busy.txt").is_none());
    assert!(w.lookup(root, "renamed.txt").is_some());
}

#[test]
fn renaming_a_directory_with_an_open_child_handle_is_refused() {
    let mut w = World::new();
    w.put_dir("docs");
    w.put("docs/inside.txt", b"hello", "e1");
    let root = w.root();
    let docs = w.lookup(root, "docs").unwrap().0;
    let inside = w.lookup(docs, "inside.txt").unwrap().0;
    let h = w.open(inside).unwrap();
    let e = w.rename(root, "docs", root, "docs-renamed").unwrap_err();
    assert!(matches!(e, VfsError::RenameBusy(_)));
    assert!(w.renamed.is_empty(), "a refused rename never reaches the server");
    assert!(w.lookup(root, "docs").is_some());
    w.close(h);
    w.rename(root, "docs", root, "docs-renamed").unwrap();
    assert!(w.vfs.getattr(docs).is_none(), "nothing is known of the old node");
    assert!(w.lookup(root, "docs").is_none());
    let (renamed, attr) = w.lookup(root, "docs-renamed").unwrap();
    assert!(attr.is_dir);
    assert_eq!(w.lookup(renamed, "inside.txt").unwrap().1.name, "inside.txt");
}

#[test]
fn renaming_a_directory_with_a_pending_child_draft_is_refused() {
    let mut w = World::lagging();
    w.put_dir("docs");
    w.put("docs/inside.txt", b"hello", "e1");
    let root = w.root();
    let docs = w.lookup(root, "docs").unwrap().0;
    let inside = w.lookup(docs, "inside.txt").unwrap().0;
    let h = w.open(inside).unwrap();
    w.write(h, 0, b"edited").unwrap();
    w.close(h);
    let e = w.rename(root, "docs", root, "docs-renamed").unwrap_err();
    assert!(matches!(e, VfsError::RenameBusy(_)));
    assert!(w.renamed.is_empty(), "a refused rename never reaches the server");
    w.drain(&["docs/inside.txt"]);
    assert_eq!(w.uploaded("docs/inside.txt"), Some(b"edited".to_vec()));
    w.rename(root, "docs", root, "docs-renamed").unwrap();
    assert!(w.lookup(root, "docs").is_none());
    assert!(w.lookup(root, "docs-renamed").is_some());
}

#[test]
fn renaming_a_directory_ignores_an_open_handle_in_a_same_prefixed_sibling() {
    let mut w = World::new();
    w.put_dir("docs");
    w.put_dir("docs2");
    w.put("docs2/other.txt", b"hello", "e1");
    let root = w.root();
    let docs2 = w.lookup(root, "docs2").unwrap().0;
    let other = w.lookup(docs2, "other.txt").unwrap().0;
    w.open(other).unwrap();
    w.rename(root, "docs", root, "docs-renamed").unwrap();
    assert!(w.lookup(root, "docs-renamed").is_some());

    let mut w = World::new();
    w.put_dir("docs");
    w.put_dir("docs2");
    w.put("docs/file.txt", b"hello", "e1");
    let root = w.root();
    let docs = w.lookup(root, "docs").unwrap().0;
    let file = w.lookup(docs, "file.txt").unwrap().0;
    w.open(file).unwrap();
    w.rename(root, "docs2", root, "docs2-renamed").unwrap();
    assert!(w.lookup(root, "docs2-renamed").is_some());
}

#[test]
fn unlinking_a_file_with_an_open_handle_is_refused() {
    let mut w = World::new();
    w.put("busy-unlink.txt", b"hello", "e1");
    let root = w.root();
    let node = w.lookup(root, "busy-unlink.txt").unwrap().0;
    let h = w.open(node).unwrap();
    let e = w.unlink(root, "busy-unlink.txt").unwrap_err();
    assert!(matches!(e, VfsError::UnlinkBusy(_)));
    assert!(w.deleted.is_empty(), "a refused removal never reaches the server");
    assert!(w.lookup(root, "busy-unlink.txt").is_some());
    w.close(h);
    w.unlink(root, "busy-unlink.txt").unwrap();
    assert_eq!(w.deleted.len(), 1);
    assert!(w.lookup(root, "busy-unlink.txt").is_none());
}

#[test]
fn renaming_onto_an_open_destination_is_refused() {
    let mut w = World::new();
    w.put("source.txt", b"new content", "e1");
    w.put("target.txt", b"old content", "e2");
    let root = w.root();
    let target = w.lookup(root, "target.txt").unwrap().0;
    let h = w.open(target).unwrap();
    let e = w.rename(root, "source.txt", root, "target.txt").unwrap_err();
    assert!(matches!(e, VfsError::RenameBusy(_)));
    assert_eq!((w.renamed.len(), w.moved.len(), w.deleted.len()), (0, 0, 0));
    assert!(w.lookup(root, "source.txt").is_some());
    assert!(w.lookup(root, "target.txt").is_some());
    w.close(h);
    w.rename(root, "source.txt", root, "target.txt").unwrap();
    assert_eq!(w.deleted.len(), 1, "what is replaced is deleted first");
    assert!(w.lookup(root, "source.txt").is_none());
    assert_eq!(w.lookup(root, "target.txt").unwrap().1.size, "new content".len() as u64);
}

#[test]
fn renaming_a_drafted_tmp_file_onto_an_existing_closed_destination_lands_the_save() {
    let mut w = World::lagging();
    w.put("target.txt", b"old content", "e2");
    let root = w.root();
    let (_, h) = w.create(root, ".tmp-save").unwrap();
    w.write(h, 0, b"freshly saved content").unwrap();
    w.close(h);
    w.rename(root, ".tmp-save", root, "target.txt").unwrap();
    assert_eq!((w.deleted.len(), w.renamed.len()), (0, 0));
    w.drain(&["target.txt", ".tmp-save"]);
    assert_eq!(w.uploaded("target.txt"), Some(b"freshly saved content".to_vec()));
    assert_eq!(w.uploads, 1);
}

#[test]
fn renaming_a_drafted_new_file_onto_an_existing_directory_is_refused_loudly() {
    let mut w = World::lagging();
    w.put_dir("a-directory");
    let root = w.root();
    let (_, h) = w.create(root, "draft.txt").unwrap();
    w.write(h, 0, b"never touched the server yet").unwrap();
    w.close(h);
    let e = w.rename(root, "draft.txt", root, "a-directory").unwrap_err();
    assert!(matches!(e, VfsError::RenameOntoDirectory(_)));
    assert_eq!(classify_error(&e), FrontendErrno::IsDir);
    w.drain(&["draft.txt", "a-directory"]);
    assert_eq!(w.uploaded("a-directory"), None);
    assert_eq!(w.uploaded("draft.txt"), Some(b"never touched the server yet".to_vec()));
}

#[test]
fn renaming_what_is_not_there_is_told() {
    let mut w = World::new();
    w.put("a.txt", b"", "e");
    let root = w.root();
    assert_eq!(
        w.rename(root, "b.txt", root, "c.txt").unwrap_err().message(),
        "rename: no such entry \"b.txt\""
    );
    assert_eq!(
        w.vfs.rename(root, "a.txt", NodeId(99), "c.txt").unwrap_err().message(),
        "rename: unknown new_parent (readdir/lookup it first)"
    );
}

#[test]
fn rmdir_with_a_listed_child_is_refused_as_not_empty() {
    let mut w = World::new();
    w.put_dir("docs");
    w.put("docs/inside.txt", b"12345", "e1");
    let root = w.root();
    assert!(matches!(w.unlink(root, "docs"), Err(VfsError::DirNotEmpty(_))));
    assert!(w.deleted.is_empty(), "a refused removal never reaches the server");
    assert!(w.lookup(root, "docs").is_some());
}

#[test]
fn rmdir_with_only_a_drafted_child_is_refused_as_not_empty() {
    let mut w = World::new();
    w.put_dir("docs");
    let root = w.root();
    let docs = w.lookup(root, "docs").unwrap().0;
    let (_, h) = w.create(docs, "draft.txt").unwrap();
    w.write(h, 0, b"not uploaded yet").unwrap();
    w.close(h);
    assert!(matches!(w.unlink(root, "docs"), Err(VfsError::DirNotEmpty(_))));
    assert!(w.deleted.is_empty(), "a refused removal never reaches the server");
}

#[test]
fn rmdir_of_an_empty_directory_succeeds() {
    let mut w = World::new();
    w.put_dir("empty-dir");
    let root = w.root();
    let node = w.lookup(root, "empty-dir").unwrap().0;
    w.unlink(root, "empty-dir").unwrap();
    assert_eq!(w.deleted.len(), 1);
    assert!(w.vfs.getattr(node).is_none(), "nothing is known of the node, listed again or not");
    assert!(w.lookup(root, "empty-dir").is_none());
}

// ---------------------------------------------------------------------------
// Uploads.
// ---------------------------------------------------------------------------

#[test]
fn a_closed_draft_uploads_and_the_server_receives_the_exact_bytes() {
    let mut w = World::lagging();
    let original = b"original server content";
    w.put("doc.txt", original, "e1");
    let root = w.root();
    let node = w.lookup(root, "doc.txt").unwrap().0;
    let h = w.open(node).unwrap();
    w.truncate(h, 0);
    w.write(h, 0, b"freshly saved bytes").unwrap();
    w.close(h);
    w.drain(&["doc.txt"]);
    assert_eq!(w.uploaded("doc.txt"), Some(b"freshly saved bytes".to_vec()));
    assert_eq!(w.take_events(), vec![queued("doc.txt"), succeeded("doc.txt", "e1")]);
    assert!(w.vfs.queue().is_idle());
    assert!(w.drafts.is_empty());

    assert_eq!(w.downloads, 0, "nothing was downloaded so far");
    let h = w.open(node).unwrap();
    let back = w.read(h, 0, original.len() as u32).unwrap();
    assert_eq!(back, original, "the draft is gone: a new read comes from the server");
    assert!(w.downloads > 0);
}

#[test]
fn save_close_reopen_save_uploads_once() {
    let mut w = World::new();
    w.put("notes.txt", b"abcde", "e1");
    let root = w.root();
    let node = w.lookup(root, "notes.txt").unwrap().0;
    let h = w.open(node).unwrap();
    w.truncate(h, 0);
    w.write(h, 0, b"first save").unwrap();
    w.close(h);
    let h = w.open(node).unwrap();
    w.write(h, 0, b"second save, overwrites").unwrap();
    w.close(h);
    w.drain(&["notes.txt"]);
    assert_eq!(w.uploads, 1);
    assert_eq!(w.uploaded("notes.txt"), Some(b"second save, overwrites".to_vec()));
    assert_eq!(
        w.take_events(),
        vec![
            queued("notes.txt"),
            cancelled("notes.txt"),
            queued("notes.txt"),
            succeeded("notes.txt", "e101"),
        ]
    );
}

#[test]
fn a_remote_change_since_the_draft_began_becomes_a_conflict_copy() {
    let mut w = World::lagging();
    w.put("shared.txt", b"abcde", "e1");
    let root = w.root();
    let node = w.lookup(root, "shared.txt").unwrap().0;
    let h = w.open(node).unwrap();
    w.write(h, 0, b"local edit").unwrap();
    w.set_etag("shared.txt", "e2");
    w.close(h);
    w.drain(&["shared.txt"]);

    assert_eq!(w.uploads, 1, "one upload, that of the copy");
    assert_eq!(w.uploaded("shared.txt"), None, "what others changed is never overwritten");
    let copy = format!("shared (conflict {DATE}).txt");
    assert_eq!(w.uploaded(&copy), Some(b"local edit".to_vec()));
    assert_eq!(
        w.take_events(),
        vec![
            queued("shared.txt"),
            VfsEvent::ConflictSaved { original: uri_of("shared.txt"), conflict_copy: uri_of(&copy) },
        ]
    );
}

#[test]
fn two_conflicts_on_the_same_day_get_distinct_names() {
    let mut w = World::lagging();
    w.put("shared.txt", b"abcde", "e1");
    let root = w.root();
    let node = w.lookup(root, "shared.txt").unwrap().0;
    let h = w.open(node).unwrap();
    w.write(h, 0, b"first conflicting edit").unwrap();
    w.set_etag("shared.txt", "e2");
    w.close(h);
    w.drain(&["shared.txt"]);
    let first = format!("shared (conflict {DATE}).txt");
    assert_eq!(w.uploaded(&first), Some(b"first conflicting edit".to_vec()));

    let node = w.lookup(root, "shared.txt").unwrap().0;
    let h = w.open(node).unwrap();
    w.write(h, 0, b"second conflicting edit").unwrap();
    w.set_etag("shared.txt", "e3");
    w.close(h);
    w.drain(&["shared.txt"]);
    let second = format!("shared (conflict {DATE}) 2.txt");
    assert_eq!(w.uploaded(&second), Some(b"second conflicting edit".to_vec()));
    assert_eq!(w.uploaded(&first), Some(b"first conflicting edit".to_vec()), "the first stays");
}

#[test]
fn a_failed_upload_keeps_the_draft_and_retries_on_demand() {
    let mut w = World::lagging();
    w.put("flaky.txt", b"abcde", "e1");
    w.fail_uploads = UPLOAD_RETRIES;
    let root = w.root();
    let node = w.lookup(root, "flaky.txt").unwrap().0;
    let h = w.open(node).unwrap();
    let saved = b"new content";
    w.write(h, 0, saved).unwrap();
    w.close(h);
    w.drain(&["flaky.txt"]);

    let path = uri_of("flaky.txt");
    assert_eq!(
        w.take_events(),
        vec![
            queued("flaky.txt"),
            VfsEvent::UploadFailed {
                remote_path: path.clone(),
                error: "no luck".into(),
                will_retry: true,
            },
        ]
    );
    assert_eq!(w.uploads, UPLOAD_RETRIES);
    assert_eq!(w.uploaded("flaky.txt"), None);
    assert_eq!(w.vfs.drafts().state(&path), Some(DraftState::Pending));

    let h = w.open(node).unwrap();
    assert_eq!(w.read(h, 0, saved.len() as u32).unwrap(), saved, "the draft must survive");
    w.close(h);

    assert_eq!(w.retry(), 1);
    w.drain(&[]);
    assert_eq!(w.uploaded("flaky.txt"), Some(saved.to_vec()));
    assert_eq!(w.retry(), 0);
}

#[test]
fn nothing_is_uploaded_for_a_file_only_read() {
    let mut w = World::new();
    w.put("readonly.txt", b"abcde", "e1");
    let root = w.root();
    let node = w.lookup(root, "readonly.txt").unwrap().0;
    let h = w.open(node).unwrap();
    assert_eq!(w.read(h, 0, 5).unwrap(), b"abcde");
    w.close(h);
    assert!(w.vfs.queue().is_idle());
    w.drain(&["readonly.txt"]);
    assert_eq!(w.uploads, 0);
}

#[test]
fn pending_drafts_upload_after_a_restart() {
    let mut w = World::lagging();
    w.put("resume.txt", b"abcde", "e1");
    w.fail_uploads = UPLOAD_RETRIES;
    let root = w.root();
    let node = w.lookup(root, "resume.txt").unwrap().0;
    let h = w.open(node).unwrap();
    let saved = b"saved before quitting";
    w.write(h, 0, saved).unwrap();
    w.close(h);
    w.drain(&["resume.txt"]);
    assert_eq!(
        w.take_events().last(),
        Some(&VfsEvent::UploadFailed {
            remote_path: uri_of("resume.txt"),
            error: "no luck".into(),
            will_retry: true,
        })
    );
    assert_eq!(w.uploads, UPLOAD_RETRIES);
    assert_eq!(w.uploaded("resume.txt"), None);

    let mut w = w.restart();
    assert_eq!(w.queue.len(), 1);
    assert!(!w.vfs.queue().is_idle());
    let root = w.root();
    w.list(root);
    w.drain(&[]);
    assert_eq!(w.uploaded("resume.txt"), Some(saved.to_vec()));
    assert_eq!(w.take_events()[0], queued("resume.txt"));
}

#[test]
fn a_new_file_can_be_reopened_before_its_upload_lands() {
    let mut w = World::lagging();
    let root = w.root();
    let (node, h) = w.create(root, "brand-new.txt").unwrap();
    let first = b"first version";
    w.write(h, 0, first).unwrap();
    w.close(h);

    let (found, _) = w.lookup(root, "brand-new.txt").unwrap();
    assert_eq!(found, node);
    let h = w.open(found).unwrap();
    assert_eq!(w.urls, 0, "the server has never heard of the file");
    assert_eq!(w.read(h, 0, first.len() as u32).unwrap(), first);

    let second = b"second version, overwrites";
    w.truncate(h, 0);
    w.write(h, 0, second).unwrap();
    w.close(h);
    w.drain(&["brand-new.txt"]);
    assert_eq!(w.uploads, 1);
    assert_eq!(w.uploaded("brand-new.txt"), Some(second.to_vec()));
}

#[test]
fn a_stuck_uploading_draft_is_recovered_by_retry() {
    let mut w = World::lagging();
    w.put("stuck.txt", b"abcde", "e1");
    let root = w.root();
    let node = w.lookup(root, "stuck.txt").unwrap().0;
    let h = w.open(node).unwrap();
    w.write(h, 0, b"stuck upload bytes").unwrap();
    w.vfs.set_draft_state_for_tests(&uri_of("stuck.txt"), DraftState::Uploading).unwrap();
    assert_eq!(w.retry(), 1);
    w.drain(&[]);
    assert_eq!(w.uploaded("stuck.txt"), Some(b"stuck upload bytes".to_vec()));
}

#[test]
fn an_upload_under_way_is_not_tried_again() {
    let mut w = World::new();
    let root = w.root();
    let (_, h) = w.create(root, "a.txt").unwrap();
    w.close(h);
    w.fire(&uri_of("a.txt"));
    let up = w.start_upload().unwrap();
    assert_eq!(w.retry(), 0);
    w.end_upload(up);
    assert!(w.vfs.queue().is_idle());
}

#[test]
fn a_write_during_an_inflight_upload_is_never_lost() {
    let mut w = World::new();
    w.put("live.txt", b"abcde", "e1");
    let root = w.root();
    let node = w.lookup(root, "live.txt").unwrap().0;
    let h = w.open(node).unwrap();
    w.truncate(h, 0);
    w.write(h, 0, b"first version").unwrap();
    w.close(h);
    w.fire(&uri_of("live.txt"));
    let up = w.start_upload().unwrap();

    let h2 = w.open(node).unwrap();
    w.write(h2, 0, b"SECOND WRITE MUST WIN").unwrap();
    w.close(h2);

    w.end_upload(up);
    assert_eq!(w.on_server("live.txt"), Some(b"first version".to_vec()));
    w.drain(&["live.txt"]);
    assert_eq!(w.on_server("live.txt"), Some(b"SECOND WRITE MUST WIN".to_vec()));
    assert_eq!(w.uploads, 2);
    assert_eq!(w.retry(), 0);
    assert_eq!(
        w.take_events(),
        vec![
            queued("live.txt"),
            succeeded("live.txt", "e101"),
            queued("live.txt"),
            succeeded("live.txt", "e102"),
        ]
    );
}

#[test]
fn a_handle_kept_open_across_its_upload_fails_loudly() {
    let mut w = World::lagging();
    let original: Vec<u8> = (0..=255u8).cycle().take(4096).collect();
    w.put("held.bin", &original, "e1");
    let root = w.root();
    let node = w.lookup(root, "held.bin").unwrap().0;
    let h1 = w.open(node).unwrap();
    w.write(h1, 100, b"PATCHED!!!").unwrap();

    let h2 = w.open(node).unwrap();
    assert_eq!(w.read(h2, 100, 10).unwrap(), b"PATCHED!!!", "it reads the draft");

    w.close(h1);
    w.drain(&["held.bin"]);
    let e = w.read(h2, 100, 10).unwrap_err();
    assert!(matches!(e, VfsError::StaleHandle(_)));
    w.close(h2);
}

#[test]
fn a_fresh_open_after_upload_serves_the_uploaded_content_not_stale_blocks() {
    let mut w = World::lagging();
    let original: Vec<u8> = (0..=255u8).cycle().take(4096).collect();
    w.put("refetch.bin", &original, "e1");
    let root = w.root();
    let node = w.lookup(root, "refetch.bin").unwrap().0;
    let h1 = w.open(node).unwrap();
    assert_eq!(w.read(h1, 0, original.len() as u32).unwrap(), original);
    w.write(h1, 100, b"PATCHED!!!").unwrap();
    w.close(h1);
    w.drain(&["refetch.bin"]);

    let mut edited = original.clone();
    edited[100..110].copy_from_slice(b"PATCHED!!!");
    assert_eq!(w.uploaded("refetch.bin"), Some(edited.clone()));
    assert!(w.blocks.is_empty());
    // The server has the new content, and still lists the old version.
    w.put("refetch.bin", &edited, "e1");

    let h2 = w.open(node).unwrap();
    assert_eq!(w.read(h2, 0, edited.len() as u32).unwrap(), edited);
}

#[test]
fn reopening_before_the_debounce_fires_emits_cancelled_then_a_new_cycle() {
    let mut w = World::new();
    w.put("cancel-me.txt", b"abcde", "e1");
    let root = w.root();
    let node = w.lookup(root, "cancel-me.txt").unwrap().0;
    let h = w.open(node).unwrap();
    w.truncate(h, 0);
    w.write(h, 0, b"first save").unwrap();
    w.close(h);

    let h = w.open(node).unwrap();
    assert!(w.vfs.queue().is_idle());
    w.write(h, 0, b"second save").unwrap();
    w.close(h);
    w.drain(&["cancel-me.txt"]);
    assert_eq!(
        w.take_events(),
        vec![
            queued("cancel-me.txt"),
            cancelled("cancel-me.txt"),
            queued("cancel-me.txt"),
            succeeded("cancel-me.txt", "e101"),
        ]
    );
    assert_eq!(w.uploads, 1);
    assert_eq!(w.uploaded("cancel-me.txt"), Some(b"second save".to_vec()));
}

#[test]
fn unlinking_a_queued_draft_before_upload_emits_cancelled_and_uploads_nothing() {
    let mut w = World::new();
    w.put("doomed.txt", b"abcde", "e1");
    let root = w.root();
    let node = w.lookup(root, "doomed.txt").unwrap().0;
    let h = w.open(node).unwrap();
    w.write(h, 0, b"about to be deleted").unwrap();
    w.close(h);
    w.unlink(root, "doomed.txt").unwrap();
    assert_eq!(w.take_events(), vec![queued("doomed.txt"), cancelled("doomed.txt")]);
    w.drain(&["doomed.txt"]);
    assert_eq!(w.uploads, 0);
}

#[test]
fn renaming_a_queued_draft_before_upload_emits_renamed_and_uploads_under_the_new_path() {
    let mut w = World::new();
    w.put("old-name.txt", b"abcde", "e1");
    let root = w.root();
    let node = w.lookup(root, "old-name.txt").unwrap().0;
    let h = w.open(node).unwrap();
    w.write(h, 0, b"renamed before upload").unwrap();
    w.close(h);
    w.rename(root, "old-name.txt", root, "new-name.txt").unwrap();
    assert_eq!(
        w.take_events(),
        vec![
            queued("old-name.txt"),
            VfsEvent::UploadRenamed { from: uri_of("old-name.txt"), to: uri_of("new-name.txt") },
            queued("new-name.txt"),
        ]
    );
    w.drain(&["old-name.txt", "new-name.txt"]);
    assert_eq!(w.take_events(), vec![succeeded("new-name.txt", "e101")]);
    assert_eq!(w.uploaded("new-name.txt"), Some(b"renamed before upload".to_vec()));
    assert_eq!(w.uploaded("old-name.txt"), None);
}

#[test]
fn a_draft_removed_after_its_timer_fired_is_reported_as_cancelled() {
    let mut w = World::new();
    let root = w.root();
    let (_, h) = w.create(root, "a.txt").unwrap();
    w.close(h);
    w.fire(&uri_of("a.txt"));
    w.unlink(root, "a.txt").unwrap();
    assert_eq!(w.take_events(), vec![queued("a.txt")]);
    assert!(w.start_upload().is_none());
    assert!(w.vfs.queue().is_idle());
    assert_eq!(w.take_events(), vec![cancelled("a.txt")]);
    assert_eq!(w.uploads, 0);
}

#[test]
fn a_draft_removed_while_its_version_is_asked_for_is_reported_as_cancelled() {
    let mut w = World::new();
    w.put("a.txt", b"abcde", "e1");
    let root = w.root();
    let node = w.lookup(root, "a.txt").unwrap().0;
    let h = w.open(node).unwrap();
    w.write(h, 0, b"edited").unwrap();
    w.close(h);
    w.fire(&uri_of("a.txt"));
    let (path, timed) = w.queue.pop_front().unwrap();
    let check = match w.vfs.begin_upload(&path, timed) {
        Next::Check(c) => c,
        other => panic!("{other:?}"),
    };
    w.unlink(root, "a.txt").unwrap();
    assert!(matches!(w.vfs.checked_on(check, None, DATE), Next::Over(Ended::Gone)));
    assert!(w.vfs.queue().is_idle());
    assert_eq!(w.take_events(), vec![queued("a.txt"), cancelled("a.txt")]);
}

#[test]
fn a_cycle_without_a_timer_whose_draft_is_gone_ends_without_a_report() {
    let mut w = World::new();
    w.fail_uploads = UPLOAD_RETRIES;
    let root = w.root();
    let (_, h) = w.create(root, "a.txt").unwrap();
    w.close(h);
    w.drain(&["a.txt"]);
    w.take_events();
    assert_eq!(w.retry(), 1);
    w.unlink(root, "a.txt").unwrap();
    assert!(w.start_upload().is_none());
    assert!(w.vfs.queue().is_idle());
    assert_eq!(w.take_events(), vec![queued("a.txt")]);
}

#[test]
fn the_uploader_is_told_of_the_draft() {
    let mut w = World::new();
    let root = w.root();
    let (_, h) = w.create(root, "a.txt").unwrap();
    w.write(h, 0, b"abcd").unwrap();
    w.close(h);
    let path = uri_of("a.txt");
    w.fire(&path);
    let up = w.start_upload().unwrap();
    assert_eq!(up.trying.params.file_size, 4);
    assert_eq!(up.trying.params.last_modified, 600_000);
    assert_eq!(up.trying.params.task_id, format!("vfs-writeback-{path}"));
    assert_eq!(up.trying.params.local_path, format!("/c/drafts/{}/data", hash16(&path)));
    assert_eq!(up.trying.target.uri, path);
    assert!(!up.trying.target.overwrite);
    w.end_upload(up);
}

#[test]
fn failed_tries_are_waited_for() {
    let mut w = World::new();
    let root = w.root();
    let (_, h) = w.create(root, "a.txt").unwrap();
    w.close(h);
    w.fire(&uri_of("a.txt"));
    let up = w.start_upload().unwrap();
    let t = match w.vfs.replied(up.trying, UploadReply::Failed, "x") {
        Next::Wait(t, millis) => {
            assert_eq!(millis, 1_000);
            t
        }
        other => panic!("{other:?}"),
    };
    match w.vfs.replied(t, UploadReply::Failed, "x") {
        Next::Wait(_, millis) => assert_eq!(millis, 5_000),
        other => panic!("{other:?}"),
    }
    assert!(w.vfs.has_room());
}

#[test]
fn waits_can_be_set() {
    let mut w = World::new();
    assert_eq!(w.vfs.queue().debounce_millis(), 2_000);
    assert_eq!(w.vfs.queue().retry_backoff_millis(), (1_000, 5_000));
    w.vfs.set_debounce_for_tests(30);
    w.vfs.set_retry_backoff_for_tests(1, 2);
    assert_eq!(w.vfs.queue().debounce_millis(), 30);
    assert_eq!(w.vfs.queue().retry_backoff_millis(), (1, 2));
}

#[test]
fn errors_say_what_they_are() {
    let mut w = World::new();
    w.put("a.txt", b"x", "e1");
    let root = w.root();
    let node = w.lookup(root, "a.txt").unwrap().0;
    w.open(node).unwrap();
    let e = w.rename(root, "a.txt", root, "b.txt").unwrap_err();
    assert_eq!(
        e.message(),
        "cannot rename cloudreve://my/sync/a.txt: a handle is still open on it — close it first"
    );
}

#[test]
fn a_successful_save_emits_queued_then_succeeded_in_order() {
    let mut w = World::new();
    w.put("ordered.txt", b"abcde", "e1");
    let root = w.root();
    let node = w.lookup(root, "ordered.txt").unwrap().0;
    let h = w.open(node).unwrap();
    w.truncate(h, 0);
    w.write(h, 0, b"ordered save").unwrap();
    w.close(h);
    w.drain(&["ordered.txt"]);
    assert_eq!(w.take_events(), vec![queued("ordered.txt"), succeeded("ordered.txt", "e101")]);
}

#[test]
fn a_reopen_of_a_pending_draft_never_strands_it_even_if_offline() {
    let mut w = World::new();
    w.put("offline.txt", b"abcde", "e1");
    let root = w.root();
    let node = w.lookup(root, "offline.txt").unwrap().0;
    let h = w.open(node).unwrap();
    w.write(h, 0, b"saved offline").unwrap();
    w.close(h);

    let again = w.open(node).unwrap();
    assert_eq!(w.urls, 1, "reopening a drafted file must never need the network at all");
    assert_eq!(w.vfs.drafts().state(&uri_of("offline.txt")), Some(DraftState::Editing));
    w.close(again);
    w.drain(&["offline.txt"]);
    assert_eq!(w.uploaded("offline.txt"), Some(b"saved offline".to_vec()));
}

#[test]
fn a_reopen_cancel_still_emits_cancelled_even_if_persisting_editing_fails() {
    let mut w = World::new();
    w.put("flaky-persist.txt", b"abcde", "e1");
    let root = w.root();
    let node = w.lookup(root, "flaky-persist.txt").unwrap().0;
    let h = w.open(node).unwrap();
    w.write(h, 0, b"queued").unwrap();
    w.close(h);
    w.take_events();

    // The report is there before anything is recorded, so that a failure to record takes nothing away.
    let plan = w.vfs.open(node).unwrap();
    let unrecorded = w.vfs.reopen_draft(&plan.key.remote_path);
    assert!(unrecorded.is_some());
    assert_eq!(w.take_events(), vec![cancelled("flaky-persist.txt")]);
}

#[test]
fn getattr_on_a_drafted_file_reports_the_draft_size() {
    let mut w = World::new();
    let root = w.root();
    let (node, h) = w.create(root, "draft.txt").unwrap();
    w.write(h, 0, b"twelve bytes").unwrap();
    assert_eq!(w.vfs.getattr(node).unwrap().size, "twelve bytes".len() as u64);
}

#[test]
fn of_two_creations_of_one_name_the_second_is_refused() {
    let mut w = World::new();
    let root = w.root();
    w.list(root);
    let first = w.vfs.create(root, "race.txt", 400).unwrap();
    let e = w.vfs.create(root, "race.txt", 401).unwrap_err();
    assert_eq!(classify_error(&e), FrontendErrno::Exist, "the first has only begun");
    w.drafts.insert(hash16(&first.meta.remote_path), Vec::new());
    let h = w.vfs.finish_create(&first.meta);
    let e = w.vfs.create(root, "race.txt", 402).unwrap_err();
    assert_eq!(classify_error(&e), FrontendErrno::Exist, "the first is finished");
    assert_eq!(w.lookup(root, "race.txt").unwrap().0, first.node);
    w.write(h, 0, b"kept").unwrap();
    assert_eq!(w.read(h, 0, 10).unwrap(), b"kept");
}
