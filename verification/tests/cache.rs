use std::collections::HashMap;

use cloudreve_vfs::cache::{
    hash_key, BlockCache, FileKey, MetaFile, ScannedEntry, BLOCK_SIZE,
};

/// A cache with its data files held in memory.
struct Disk {
    cache: BlockCache,
    data: HashMap<String, Vec<u8>>,
    metas: HashMap<String, MetaFile>,
    clock: i64,
}

fn key(path: &str, etag: &str) -> FileKey {
    FileKey { remote_path: path.into(), etag: etag.into() }
}

fn copy_meta(m: &MetaFile) -> MetaFile {
    MetaFile {
        remote_path: m.remote_path.clone(),
        etag: m.etag.clone(),
        blocks: m.blocks.clone(),
        last_used_unix: m.last_used_unix,
    }
}

impl Disk {
    fn new(max_bytes: u64) -> Disk {
        let (cache, orphans) = BlockCache::open("/cache/blocks", max_bytes, &vec![]);
        assert!(orphans.is_empty());
        Disk { cache, data: HashMap::new(), metas: HashMap::new(), clock: 1_000 }
    }

    fn reopen(self, max_bytes: u64) -> Disk {
        let mut scanned = Vec::new();
        for (hash, bytes) in &self.data {
            scanned.push(ScannedEntry {
                hash: hash.clone(),
                meta: self.metas.get(hash).map(copy_meta),
                data_len: bytes.len() as u64,
            });
        }
        let (cache, orphans) = BlockCache::open("/cache/blocks", max_bytes, &scanned);
        let mut disk = Disk { cache, data: self.data, metas: self.metas, clock: self.clock };
        for hash in orphans {
            disk.data.remove(&hash);
            disk.metas.remove(&hash);
        }
        disk
    }

    fn write_block(&mut self, k: &FileKey, idx: u64, bytes: &[u8]) {
        let hash = hash_key(&k.remote_path, &k.etag);
        let file = self.data.entry(hash.clone()).or_default();
        let at = (idx * BLOCK_SIZE) as usize;
        if file.len() < at + bytes.len() {
            file.resize(at + bytes.len(), 0);
        }
        file[at..at + bytes.len()].copy_from_slice(bytes);
        let file_len = file.len() as u64;
        self.clock += 1;
        let meta = self.cache.write_block(k, idx, file_len, self.clock);
        self.metas.insert(hash, meta);
        self.measure();
        for gone in self.cache.evict_if_over_budget() {
            self.data.remove(&gone);
            self.metas.remove(&gone);
        }
    }

    /// Tells the cache how long every data file is.
    fn measure(&mut self) {
        for name in self.cache.entry_names() {
            let len = self.data.get(&name).map_or(0, |f| f.len() as u64);
            self.cache.note_data_len(&name, len);
        }
    }

    fn used_bytes(&mut self) -> u64 {
        self.measure();
        self.cache.used_bytes()
    }

    fn read_block(&mut self, k: &FileKey, idx: u64) -> Option<Vec<u8>> {
        let hash = hash_key(&k.remote_path, &k.etag);
        let file_len = self.data.get(&hash).map_or(0, |f| f.len() as u64);
        let span = self.cache.read_block(k, idx, file_len)?;
        let file = &self.data[&hash];
        let complete = span.offset + span.len <= file.len() as u64;
        self.clock += 1;
        if let Some(meta) = self.cache.finish_read(k, idx, complete, self.clock) {
            self.cache.note_data_len(&hash, file_len);
            self.metas.insert(hash.clone(), meta);
        }
        if !complete {
            return None;
        }
        let file = &self.data[&hash];
        Some(file[span.offset as usize..(span.offset + span.len) as usize].to_vec())
    }

    fn purge(&mut self, path: &str) {
        for gone in self.cache.purge(path) {
            self.data.remove(&gone);
            self.metas.remove(&gone);
        }
    }
}

#[test]
fn a_written_block_reads_back_identically() {
    let mut c = Disk::new(100 * BLOCK_SIZE);
    let payload = vec![7u8; BLOCK_SIZE as usize];
    c.write_block(&key("a", "e1"), 3, &payload);
    assert_eq!(c.read_block(&key("a", "e1"), 3).unwrap(), payload);
    assert!(c.read_block(&key("a", "e1"), 2).is_none(), "unwritten block");
}

#[test]
fn a_new_etag_invalidates_every_cached_block_of_the_file() {
    let mut c = Disk::new(100 * BLOCK_SIZE);
    c.write_block(&key("a", "e1"), 0, &[1u8; 1024]);
    assert!(
        c.read_block(&key("a", "e2"), 0).is_none(),
        "the server rewrote the file: old bytes must not be served"
    );
}

#[test]
fn cache_state_survives_reopening() {
    let mut c = Disk::new(100 * BLOCK_SIZE);
    c.write_block(&key("a", "e1"), 0, &[9u8; 512]);
    let mut c = c.reopen(100 * BLOCK_SIZE);
    assert_eq!(c.read_block(&key("a", "e1"), 0).unwrap(), vec![9u8; 512]);
}

#[test]
fn a_block_truncated_by_a_crash_is_a_miss_not_an_error() {
    let mut c = Disk::new(100 * BLOCK_SIZE);
    let full_block = vec![5u8; BLOCK_SIZE as usize];
    c.write_block(&key("a", "e1"), 0, &full_block);
    c.write_block(&key("a", "e1"), 1, &full_block);

    let hash = hash_key("a", "e1");
    c.data.get_mut(&hash).unwrap().truncate(BLOCK_SIZE as usize / 2);
    assert!(
        c.read_block(&key("a", "e1"), 0).is_none(),
        "truncated block must be treated as a cache miss"
    );
    assert!(
        !c.metas[&hash].blocks.contains(&0),
        "stale block index must be dropped from what is recorded"
    );

    let fresh = vec![6u8; BLOCK_SIZE as usize];
    c.write_block(&key("a", "e1"), 0, &fresh);
    assert_eq!(c.read_block(&key("a", "e1"), 0).unwrap(), fresh);
}

#[test]
fn an_entry_with_a_torn_meta_is_deleted_on_open_not_leaked() {
    let mut c = Disk::new(100 * BLOCK_SIZE);
    c.write_block(&key("a", "e1"), 0, &[1u8; 1024]);
    let hash = hash_key("a", "e1");
    c.metas.remove(&hash);
    let mut c = c.reopen(100 * BLOCK_SIZE);
    assert!(c.read_block(&key("a", "e1"), 0).is_none());
    assert!(!c.data.contains_key(&hash), "an entry that cannot be read must be deleted on open");
    assert_eq!(c.used_bytes(), 0);
}

#[test]
fn an_open_files_first_write_never_evicts_itself() {
    let mut c = Disk::new(BLOCK_SIZE / 2);
    c.cache.retain(&key("open-file", "e1"));
    c.write_block(&key("open-file", "e1"), 0, &[1u8; BLOCK_SIZE as usize]);
    c.write_block(&key("open-file", "e1"), 1, &[2u8; BLOCK_SIZE as usize]);
    assert!(
        c.read_block(&key("open-file", "e1"), 0).is_some(),
        "the file's own first write self-evicted its entry"
    );
    assert!(
        c.read_block(&key("open-file", "e1"), 1).is_some(),
        "the file's own second write self-evicted its entry"
    );
}

#[test]
fn two_handles_on_the_same_file_survive_the_first_close() {
    let mut c = Disk::new(BLOCK_SIZE);
    let k = key("shared", "e");
    c.cache.retain(&k);
    c.cache.retain(&k);
    c.write_block(&k, 0, &vec![5u8; BLOCK_SIZE as usize]);
    c.cache.release(&k);
    c.write_block(&key("other", "e"), 0, &vec![6u8; BLOCK_SIZE as usize]);
    assert!(c.read_block(&k, 0).is_some(), "evicted while a handle was still open");
    c.cache.release(&k);
    c.write_block(&key("third", "e"), 0, &vec![7u8; BLOCK_SIZE as usize]);
    assert!(c.read_block(&k, 0).is_none(), "still unevictable after the last close");
}

#[test]
fn a_write_landing_after_the_last_release_is_evictable() {
    let mut c = Disk::new(BLOCK_SIZE);
    let k = key("closed", "e");
    c.cache.retain(&k);
    c.cache.release(&k);
    c.write_block(&k, 0, &vec![8u8; BLOCK_SIZE as usize]);
    c.write_block(&key("next", "e"), 0, &vec![9u8; BLOCK_SIZE as usize]);
    assert!(c.read_block(&k, 0).is_none(), "late readahead write re-pinned a closed file");
}

#[test]
fn purge_drops_every_block_of_a_path_even_while_retained() {
    let mut c = Disk::new(100 * BLOCK_SIZE);
    c.write_block(&key("edited", "e1"), 0, &[1u8; 1024]);
    c.write_block(&key("edited", "e1"), 1, &[2u8; 1024]);
    c.write_block(&key("other", "e1"), 0, &[3u8; 1024]);
    c.cache.retain(&key("edited", "e1"));

    c.purge("edited");

    assert!(
        c.read_block(&key("edited", "e1"), 0).is_none(),
        "purged blocks must be gone even under the exact etag they were stored with"
    );
    assert!(c.read_block(&key("edited", "e1"), 1).is_none());
    assert!(
        !c.data.contains_key(&hash_key("edited", "e1")),
        "the entry directory itself must be deleted, not just forgotten in memory"
    );
    assert!(
        c.read_block(&key("other", "e1"), 0).is_some(),
        "purging one path must not touch another path's blocks"
    );
    c.purge("never-cached");
}

#[test]
fn eviction_drops_the_least_recently_used_unpinned_file_first() {
    let mut c = Disk::new(3 * BLOCK_SIZE);
    let one_block = vec![1u8; BLOCK_SIZE as usize];
    c.write_block(&key("old", "e"), 0, &one_block);
    c.write_block(&key("pinned", "e"), 0, &one_block);
    c.cache.retain(&key("pinned", "e"));
    c.write_block(&key("recent", "e"), 0, &one_block);
    c.read_block(&key("old", "e"), 0);
    c.write_block(&key("new", "e"), 0, &one_block);
    assert!(c.read_block(&key("old", "e"), 0).is_some(), "recently used, kept");
    assert!(c.read_block(&key("pinned", "e"), 0).is_some(), "pinned, kept");
    assert!(c.read_block(&key("recent", "e"), 0).is_none(), "LRU victim");
}

#[test]
fn cached_reads_record_nothing() {
    let mut c = Disk::new(10 * BLOCK_SIZE);
    let k = key("hot", "e");
    c.write_block(&k, 0, &[1u8; 1024]);
    let hash = hash_key("hot", "e");
    let before = c.metas[&hash].last_used_unix;
    for _ in 0..50 {
        assert!(c.read_block(&k, 0).is_some());
    }
    assert_eq!(c.metas[&hash].last_used_unix, before);
}

#[test]
fn a_short_block_counts_with_its_own_length() {
    let mut c = Disk::new(100 * BLOCK_SIZE);
    c.write_block(&key("a", "e"), 0, &vec![1u8; BLOCK_SIZE as usize]);
    c.write_block(&key("a", "e"), 1, &[2u8; 10]);
    assert_eq!(c.used_bytes(), BLOCK_SIZE + 10);
    assert_eq!(c.read_block(&key("a", "e"), 1).unwrap(), vec![2u8; 10]);
}

#[test]
fn reopening_keeps_the_order_of_use() {
    let mut c = Disk::new(2 * BLOCK_SIZE);
    let one_block = vec![1u8; BLOCK_SIZE as usize];
    c.write_block(&key("first", "e"), 0, &one_block);
    c.write_block(&key("second", "e"), 0, &one_block);
    let mut c = c.reopen(2 * BLOCK_SIZE);
    c.write_block(&key("third", "e"), 0, &one_block);
    assert!(c.read_block(&key("first", "e"), 0).is_none());
    assert!(c.read_block(&key("second", "e"), 0).is_some());
}

#[test]
fn handles_are_counted_per_version() {
    let mut c = Disk::new(BLOCK_SIZE);
    c.cache.retain(&key("a", "e1"));
    c.cache.retain(&key("a", "e1"));
    assert_eq!(c.cache.handles_on(&key("a", "e1")), 2);
    assert_eq!(c.cache.handles_on(&key("a", "e2")), 0);
    c.cache.release(&key("a", "e1"));
    assert_eq!(c.cache.handles_on(&key("a", "e1")), 1);
}

#[test]
fn a_directory_name_is_part_of_a_digest() {
    let a = hash_key("a", "e1");
    assert_eq!(a.len(), 16);
    assert!(a.chars().all(|c| c.is_ascii_hexdigit()));
    assert_ne!(a, hash_key("a", "e2"));
    assert_eq!(a, hash_key("a", "e1"));
}

#[test]
fn paths_of_an_entry_lie_under_the_root() {
    let c = Disk::new(BLOCK_SIZE);
    assert_eq!(c.cache.entry_dir("abc"), "/cache/blocks/abc");
    assert_eq!(c.cache.data_path("abc"), "/cache/blocks/abc/data");
    assert_eq!(c.cache.meta_path("abc"), "/cache/blocks/abc/meta.json");
}

#[test]
fn a_purged_path_is_a_miss_under_every_etag() {
    let mut c = Disk::new(100 * BLOCK_SIZE);
    for etag in ["e1", "e2", ""] {
        c.write_block(&key("a", etag), 0, &[1u8; 16]);
        c.write_block(&key("b", etag), 0, &[2u8; 16]);
    }
    c.purge("a");
    for etag in ["e1", "e2", "", "e3"] {
        assert!(c.read_block(&key("a", etag), 0).is_none());
    }
    for etag in ["e1", "e2", ""] {
        assert_eq!(c.read_block(&key("b", etag), 0).unwrap(), vec![2u8; 16]);
    }
}

#[test]
fn written_blocks_read_back_through_the_eviction_of_others() {
    let full = |n: u8| vec![n; BLOCK_SIZE as usize];
    let mut c = Disk::new(3 * BLOCK_SIZE);
    c.write_block(&key("old", "e1"), 0, &full(9));
    c.cache.retain(&key("a", "e1"));
    c.write_block(&key("a", "e1"), 0, &full(1));
    c.write_block(&key("a", "e1"), 2, &full(3));
    c.write_block(&key("a", "e1"), 4, &[5u8; 100]);
    assert!(c.read_block(&key("old", "e1"), 0).is_none(), "it was used least recently");
    assert_eq!(c.read_block(&key("a", "e1"), 0).unwrap(), full(1));
    assert!(c.read_block(&key("a", "e1"), 1).is_none(), "never written");
    assert_eq!(c.read_block(&key("a", "e1"), 2).unwrap(), full(3));
    assert_eq!(c.read_block(&key("a", "e1"), 4).unwrap(), vec![5u8; 100]);
    c.write_block(&key("a", "e1"), 2, &full(7));
    assert_eq!(c.read_block(&key("a", "e1"), 2).unwrap(), full(7));
    assert_eq!(c.read_block(&key("a", "e1"), 4).unwrap(), vec![5u8; 100]);
}

#[test]
fn blocks_stay_from_the_first_handle_to_the_last() {
    let full = vec![1u8; BLOCK_SIZE as usize];
    let k = key("a", "e1");
    let mut c = Disk::new(BLOCK_SIZE);
    c.cache.retain(&k);
    c.cache.retain(&k);
    c.write_block(&k, 0, &full);
    c.cache.release(&k);
    c.write_block(&k, 1, &full);
    c.write_block(&key("b", "e1"), 0, &full);
    assert!(c.read_block(&k, 0).is_some() && c.read_block(&k, 1).is_some());
    assert!(c.used_bytes() > BLOCK_SIZE);
    c.cache.release(&k);
    c.cache.release(&k);
    c.write_block(&key("c", "e1"), 0, &full);
    assert!(c.read_block(&k, 0).is_none(), "no handle keeps it");
    assert_eq!(c.used_bytes(), BLOCK_SIZE);
}

#[test]
fn a_data_file_that_was_cut_counts_with_what_is_left_of_it() {
    let full = vec![1u8; BLOCK_SIZE as usize];
    let k = key("a", "e1");
    let mut c = Disk::new(100 * BLOCK_SIZE);
    c.write_block(&k, 0, &full);
    c.write_block(&k, 1, &full);
    assert_eq!(c.used_bytes(), 2 * BLOCK_SIZE);
    c.data.get_mut(&hash_key("a", "e1")).unwrap().truncate((BLOCK_SIZE / 2) as usize);
    assert!(c.read_block(&k, 0).is_none(), "it met the end of the file early");
    assert_eq!(c.cache.used_bytes(), 0, "block 1 lies past the end");
    assert_eq!(c.used_bytes(), 0);
}

#[test]
fn eviction_goes_by_the_lengths_on_disk() {
    let full = vec![1u8; BLOCK_SIZE as usize];
    let mut c = Disk::new(2 * BLOCK_SIZE);
    c.write_block(&key("a", "e1"), 0, &full);
    c.write_block(&key("b", "e1"), 0, &full);
    c.data.get_mut(&hash_key("a", "e1")).unwrap().clear();
    c.write_block(&key("c", "e1"), 0, &full);
    assert!(c.read_block(&key("b", "e1"), 0).is_some(), "there is room for two");
    assert!(c.read_block(&key("c", "e1"), 0).is_some());
    assert_eq!(c.cache.entry_names().len(), 3);
    c.cache.note_data_len("no-such-directory", 7);
    assert_eq!(c.used_bytes(), 2 * BLOCK_SIZE);
}
