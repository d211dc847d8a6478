use std::collections::HashMap;

use cloudreve_vfs::drafts::{
    fresh_meta, hash16, initial_size, DraftInit, DraftMeta, DraftState, DraftStore, ScannedDraft,
};
use cloudreve_vfs::error::VfsError;

/// A draft store with its data files and records held in memory.
struct Disk {
    store: DraftStore,
    data: HashMap<String, Vec<u8>>,
    metas: HashMap<String, DraftMeta>,
}

fn copy_meta(m: &DraftMeta) -> DraftMeta {
    DraftMeta {
        remote_path: m.remote_path.clone(),
        base_etag: m.base_etag.clone(),
        size: m.size,
        state: m.state,
        last_write_unix: m.last_write_unix,
    }
}

impl Disk {
    fn new() -> Disk {
        let (store, orphans, demoted) = DraftStore::open("/cache/drafts", &vec![]);
        assert!(orphans.is_empty() && demoted.is_empty());
        Disk { store, data: HashMap::new(), metas: HashMap::new() }
    }

    fn reopen(self) -> Disk {
        let mut scanned = Vec::new();
        for (hash, meta) in &self.metas {
            scanned.push(ScannedDraft { hash: hash.clone(), meta: Some(copy_meta(meta)) });
        }
        let (store, orphans, demoted) = DraftStore::open("/cache/drafts", &scanned);
        assert!(orphans.is_empty());
        let mut disk = Disk { store, data: self.data, metas: self.metas };
        for hash in demoted {
            let meta = disk.store.meta_of_dir(&hash).unwrap();
            disk.metas.insert(hash, meta);
        }
        disk
    }

    fn begin(&mut self, path: &str, etag: &str) {
        let meta = fresh_meta(path, etag, initial_size(&DraftInit::Empty, 0), 100);
        self.data.insert(hash16(path), Vec::new());
        self.metas.insert(hash16(path), copy_meta(&meta));
        self.store.begin(&meta);
    }

    fn write(&mut self, path: &str, offset: u64, bytes: &[u8]) {
        let file = self.data.get_mut(&hash16(path)).unwrap();
        let at = offset as usize;
        if file.len() < at + bytes.len() {
            file.resize(at + bytes.len(), 0);
        }
        file[at..at + bytes.len()].copy_from_slice(bytes);
        let meta = self.store.write(path, offset, bytes.len() as u64, 200).unwrap();
        self.metas.insert(hash16(path), meta);
    }

    fn truncate(&mut self, path: &str, size: u64) {
        self.data.get_mut(&hash16(path)).unwrap().resize(size as usize, 0);
        let meta = self.store.truncate(path, size, 300).unwrap();
        self.metas.insert(hash16(path), meta);
    }

    fn read(&self, path: &str, offset: u64, len: u32) -> Vec<u8> {
        let span = self.store.read(path, offset, len).unwrap();
        let file = &self.data[&hash16(path)];
        if span.len == 0 {
            return Vec::new();
        }
        file[span.offset as usize..(span.offset + span.len) as usize].to_vec()
    }

    fn set_state(&mut self, path: &str, state: DraftState) {
        let meta = self.store.set_state(path, state).unwrap();
        self.metas.insert(hash16(path), meta);
    }
}

#[test]
fn a_write_reads_back_identically_at_its_offset() {
    let mut s = Disk::new();
    s.begin("docs/report.txt", "etag-1");

    let payload = b"hello draft world";
    s.write("docs/report.txt", 100, payload);

    assert_eq!(s.store.size("docs/report.txt"), Some(100 + payload.len() as u64));
    assert_eq!(s.read("docs/report.txt", 100, payload.len() as u32), payload);

    // The gap before the write must read back as zeros, not garbage.
    assert_eq!(s.read("docs/report.txt", 0, 100), vec![0u8; 100]);

    // A read reaching past the end is truncated to what's actually there.
    let tail = s.read("docs/report.txt", 100 + payload.len() as u64 - 3, 50);
    assert_eq!(tail, &payload[payload.len() - 3..]);
}

#[test]
fn truncate_extends_with_zeros_and_shrinks() {
    let mut s = Disk::new();
    s.begin("notes.md", "etag-1");
    s.write("notes.md", 0, b"abcdef");
    assert_eq!(s.store.size("notes.md"), Some(6));

    s.truncate("notes.md", 20);
    assert_eq!(s.store.size("notes.md"), Some(20));
    assert_eq!(s.read("notes.md", 6, 14), vec![0u8; 14], "extension must be zero-filled");
    assert_eq!(s.read("notes.md", 0, 6), b"abcdef", "original bytes must survive the extension");

    s.truncate("notes.md", 3);
    assert_eq!(s.store.size("notes.md"), Some(3));
    assert_eq!(s.read("notes.md", 0, 100), b"abc", "shrink must discard the tail, keep the head");
}

#[test]
fn reopening_restores_sizes_and_states() {
    let mut s = Disk::new();
    s.begin("a.txt", "etag-a");
    s.write("a.txt", 0, b"twelve bytes");

    s.begin("b.txt", "etag-b");
    s.write("b.txt", 0, b"seven!!");
    s.set_state("b.txt", DraftState::Pending);

    let s = s.reopen();
    assert_eq!(s.store.size("a.txt"), Some(12));
    assert_eq!(s.store.state("a.txt"), Some(DraftState::Editing));
    assert_eq!(s.store.base_etag("a.txt"), Some("etag-a".to_string()));

    assert_eq!(s.store.size("b.txt"), Some(7));
    assert_eq!(s.store.state("b.txt"), Some(DraftState::Pending));
}

#[test]
fn remove_deletes_the_draft_directory() {
    let mut s = Disk::new();
    s.begin("gone.bin", "etag-1");
    let data_path = s.store.data_path("gone.bin").unwrap();
    assert_eq!(data_path, format!("/cache/drafts/{}/data", hash16("gone.bin")));

    let dir = s.store.remove("gone.bin");

    assert_eq!(format!("{dir}/data"), data_path, "the whole draft directory must be deleted");
    assert_eq!(s.store.size("gone.bin"), None);
    assert_eq!(s.store.state("gone.bin"), None);
    assert_eq!(s.store.data_path("gone.bin"), None);
    assert_eq!(s.store.remove("gone.bin"), dir, "removing it again is no error");
}

#[test]
fn rename_moves_data_and_meta_to_the_new_shard_dir() {
    let mut s = Disk::new();
    s.begin("old/report.txt", "etag-1");
    s.write("old/report.txt", 0, b"payload bytes");

    let m = s.store.rename("old/report.txt", "new/renamed.txt").unwrap();
    assert_eq!(m.from_hash, hash16("old/report.txt"));
    assert_eq!(m.to_hash, hash16("new/renamed.txt"));
    assert_ne!(m.from_hash, m.to_hash, "another path must land in another directory");
    let bytes = s.data.remove(&m.from_hash).unwrap();
    s.data.insert(m.to_hash, bytes);

    assert_eq!(s.store.state("old/report.txt"), None, "the old path must no longer resolve");
    assert_eq!(s.store.size("new/renamed.txt"), Some(b"payload bytes".len() as u64));
    assert_eq!(s.store.base_etag("new/renamed.txt"), Some("etag-1".to_string()));
    assert_eq!(s.read("new/renamed.txt", 0, 100), b"payload bytes");
    assert_eq!(m.meta.remote_path, "new/renamed.txt", "what is recorded must carry the new path");
}

#[test]
fn an_uploading_draft_found_on_open_is_demoted_to_pending() {
    let mut s = Disk::new();
    s.begin("crash-me.txt", "etag-1");
    s.write("crash-me.txt", 0, b"in flight");
    s.set_state("crash-me.txt", DraftState::Uploading);

    let s = s.reopen();
    assert_eq!(
        s.store.state("crash-me.txt"),
        Some(DraftState::Pending),
        "a draft found Uploading after a restart must be demoted, never left/lost"
    );
    assert_eq!(s.store.pending(), vec!["crash-me.txt".to_string()]);
    assert_eq!(s.metas[&hash16("crash-me.txt")].state, DraftState::Pending);
}

#[test]
fn a_path_without_a_draft_is_told_so() {
    let mut s = Disk::new();
    match s.store.write("x", 0, 1, 0) {
        Err(VfsError::Other(m)) => assert_eq!(m, "no draft open for x"),
        other => panic!("{other:?}"),
    }
    assert!(s.store.truncate("x", 0, 0).is_err());
    assert!(s.store.read("x", 0, 1).is_err());
    assert!(s.store.set_state("x", DraftState::Pending).is_err());
    assert!(s.store.rename("x", "y").is_err());
    assert!(s.store.rebase("x", "e").is_err());
}

#[test]
fn renaming_there_and_back_restores_the_draft() {
    let mut s = Disk::new();
    s.begin("a", "e1");
    s.write("a", 0, b"abc");
    s.store.rename("a", "b").unwrap();
    s.store.rename("b", "a").unwrap();
    assert_eq!(s.store.size("a"), Some(3));
    assert_eq!(s.store.base_etag("a"), Some("e1".to_string()));
    assert_eq!(s.store.state("b"), None);
}

#[test]
fn every_change_gets_a_stamp_of_its_own() {
    let mut s = Disk::new();
    s.begin("a", "e1");
    let first = s.store.stamp("a").unwrap();
    s.write("a", 0, b"abc");
    let second = s.store.stamp("a").unwrap();
    assert!(second > first);
    s.set_state("a", DraftState::Pending);
    assert_eq!(s.store.stamp("a"), Some(second), "a change of state is no change of content");
    assert_eq!(s.store.mtime_unix("a"), Some(200));
}

#[test]
fn drafts_below_a_directory_are_found() {
    let mut s = Disk::new();
    s.begin("/docs2/a.txt", "");
    assert!(!s.store.has_draft_strictly_under("/docs"));
    s.begin("/docs/a.txt", "");
    assert!(s.store.has_draft_strictly_under("/docs"));
    assert!(!s.store.has_draft_strictly_under("/docs/a.txt"));
}

#[test]
fn a_directory_without_a_record_is_deleted_on_open() {
    let scanned = vec![ScannedDraft { hash: "deadbeef".into(), meta: None }];
    let (store, orphans, demoted) = DraftStore::open("/d", &scanned);
    assert_eq!(orphans, vec!["deadbeef".to_string()]);
    assert!(demoted.is_empty());
    assert!(store.pending().is_empty());
}

#[test]
fn a_copy_gives_a_draft_its_size() {
    assert_eq!(initial_size(&DraftInit::Materialized("/tmp/x".into()), 42), 42);
    assert_eq!(initial_size(&DraftInit::Empty, 42), 0);
}
