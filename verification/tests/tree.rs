use std::collections::HashMap;

use cloudreve_vfs::tree::{
    or_zero, parse_rfc3339, NodeAttr, NodeId, RemoteFile, VfsTree, LISTING_TTL_MILLIS,
};

const BASE: &str = "cloudreve://my/sync";

fn file(dir: &str, name: &str, size: i64, etag: &str) -> RemoteFile {
    RemoteFile {
        name: name.into(),
        path: format!("{dir}/{name}"),
        size,
        updated_at: "2024-01-02T03:04:05Z".into(),
        file_type: 0,
        primary_entity: Some(etag.into()),
    }
}

fn folder(dir: &str, name: &str) -> RemoteFile {
    RemoteFile {
        name: name.into(),
        path: format!("{dir}/{name}"),
        size: 0,
        updated_at: "2024-01-02T03:04:05Z".into(),
        file_type: 1,
        primary_entity: None,
    }
}

fn uri_of(name: &str) -> String {
    format!("{BASE}/{name}")
}

/// A tree with a server that counts how often it is asked.
struct Env {
    tree: VfsTree,
    server: HashMap<String, Vec<RemoteFile>>,
    listings: usize,
    now: u64,
}

impl Env {
    fn new() -> Env {
        Env { tree: VfsTree::new(BASE), server: HashMap::new(), listings: 0, now: 1_000_000 }
    }

    fn set_files(&mut self, files: Vec<RemoteFile>) {
        self.server.insert(BASE.into(), files);
    }

    fn set_files_at(&mut self, dir: &str, files: Vec<RemoteFile>) {
        self.server.insert(uri_of(dir), files);
    }

    fn ensure_listed(&mut self, dir: NodeId) {
        if let Some(path) = self.tree.plan_listing(dir, self.now).unwrap() {
            self.listings += 1;
            let empty = Vec::new();
            let files = self.server.get(&path).unwrap_or(&empty);
            self.tree.apply_listing(dir, files, self.now);
        }
    }

    fn readdir(&mut self, dir: NodeId) -> Vec<(NodeId, NodeAttr)> {
        self.ensure_listed(dir);
        self.tree.readdir(dir)
    }

    fn lookup(&mut self, dir: NodeId, name: &str) -> Option<(NodeId, NodeAttr)> {
        self.ensure_listed(dir);
        self.tree.lookup(dir, name)
    }
}

fn names(list: &[(NodeId, NodeAttr)]) -> Vec<String> {
    list.iter().map(|(_, a)| a.name.clone()).collect()
}

#[test]
fn subdirectories_are_listed_only_when_first_read() {
    let mut env = Env::new();
    env.set_files(vec![folder(BASE, "photos"), file(BASE, "readme.txt", 12, "e1")]);
    let root = env.tree.root();
    let top = env.readdir(root);
    assert_eq!(names(&top), vec!["photos", "readme.txt"]);
    assert_eq!(env.listings, 1, "only the root may have been listed");

    let (photos, attr) = env.lookup(root, "photos").unwrap();
    assert!(attr.is_dir);
    env.set_files_at("photos", vec![file(&uri_of("photos"), "cat.jpg", 4096, "e2")]);
    let listing = env.readdir(photos);
    assert_eq!(listing[0].1.name, "cat.jpg");
    assert_eq!(listing[0].1.size, 4096);
    assert_eq!(env.listings, 2);
}

#[test]
fn node_ids_are_stable_across_lookups() {
    let mut env = Env::new();
    env.set_files(vec![file(BASE, "a.txt", 1, "e1")]);
    let root = env.tree.root();
    env.readdir(root);
    let first = env.lookup(root, "a.txt").unwrap().0;
    let second = env.lookup(root, "a.txt").unwrap().0;
    assert_eq!(first, second);
    env.tree.invalidate_path(&uri_of("a.txt"));
    assert_eq!(env.lookup(root, "a.txt").unwrap().0, first, "a new listing keeps the node");
}

#[test]
fn a_fresh_listing_is_not_refetched() {
    let mut env = Env::new();
    env.set_files(vec![file(BASE, "a.txt", 1, "e1")]);
    let root = env.tree.root();
    env.readdir(root);
    env.readdir(root);
    env.now += LISTING_TTL_MILLIS - 1;
    env.readdir(root);
    assert_eq!(env.listings, 1, "a fresh listing must be served from memory");
    env.now += 1;
    env.readdir(root);
    assert_eq!(env.listings, 2);
}

#[test]
fn invalidating_a_path_forces_a_refetch() {
    let mut env = Env::new();
    env.set_files(vec![file(BASE, "a.txt", 1, "e1")]);
    let root = env.tree.root();
    env.readdir(root);

    env.set_files(vec![file(BASE, "a.txt", 99, "e2")]);
    env.tree.invalidate_path(&uri_of("a.txt"));

    let listing = env.readdir(root);
    assert_eq!(listing[0].1.size, 99, "stale attributes served after invalidation");
    assert_eq!(env.listings, 2);
}

#[test]
fn a_file_deleted_remotely_disappears_after_invalidation() {
    let mut env = Env::new();
    env.set_files(vec![file(BASE, "keep.txt", 1, "e1"), file(BASE, "gone.txt", 1, "e2")]);
    let root = env.tree.root();
    let gone = env.lookup(root, "gone.txt").unwrap().0;

    env.set_files(vec![file(BASE, "keep.txt", 1, "e1")]);
    // Not the path of the file that went: only the new listing tells of that.
    env.tree.invalidate_path(&uri_of("unrelated.txt"));

    assert!(env.lookup(root, "gone.txt").is_none());
    assert!(env.tree.getattr(gone).is_none(), "what is known of it outlived the new listing");
}

#[test]
fn a_deleted_directory_takes_its_whole_subtree_with_it() {
    let mut env = Env::new();
    env.set_files(vec![folder(BASE, "photos"), file(BASE, "keep.txt", 1, "e1")]);
    let root = env.tree.root();
    let photos = env.lookup(root, "photos").unwrap().0;

    env.set_files_at("photos", vec![file(&uri_of("photos"), "cat.jpg", 4096, "e2")]);
    let cat = env.readdir(photos)[0].0;

    env.set_files(vec![file(BASE, "keep.txt", 1, "e1")]);
    env.tree.invalidate_path(&uri_of("unrelated.txt"));
    env.readdir(root);

    assert!(env.tree.getattr(photos).is_none(), "what is known of the directory survived");
    assert!(env.tree.getattr(cat).is_none(), "what is known of its file survived");
    env.set_files(vec![folder(BASE, "photos")]);
    env.now += LISTING_TTL_MILLIS;
    assert_ne!(env.lookup(root, "photos").unwrap().0, photos, "a number is never used again");
}

#[test]
fn a_deleted_directory_takes_what_lies_two_levels_below_with_it() {
    let mut env = Env::new();
    let docs = uri_of("docs");
    let deep = uri_of("docs/deep");
    env.set_files(vec![folder(BASE, "docs")]);
    env.set_files_at("docs", vec![folder(&docs, "deep")]);
    env.set_files_at("docs/deep", vec![file(&deep, "x.txt", 1, "e")]);
    let root = env.tree.root();
    let d = env.lookup(root, "docs").unwrap().0;
    let e = env.lookup(d, "deep").unwrap().0;
    let x = env.lookup(e, "x.txt").unwrap().0;
    env.set_files(vec![]);
    env.now += LISTING_TTL_MILLIS;
    assert!(env.readdir(root).is_empty());
    for id in [d, e, x] {
        assert!(env.tree.getattr(id).is_none());
    }
}

#[test]
fn invalidating_a_directory_path_clears_its_own_cached_listing() {
    let mut env = Env::new();
    env.set_files(vec![folder(BASE, "photos")]);
    let root = env.tree.root();
    let photos = env.lookup(root, "photos").unwrap().0;
    let at = uri_of("photos");

    env.set_files_at("photos", vec![file(&at, "cat.jpg", 4096, "e1")]);
    assert_eq!(env.readdir(photos).len(), 1, "one child listed initially");

    env.set_files_at(
        "photos",
        vec![file(&at, "cat.jpg", 4096, "e1"), file(&at, "dog.jpg", 2048, "e2")],
    );
    assert_eq!(env.readdir(photos).len(), 1, "a fresh listing must not be asked for again");

    env.tree.invalidate_path(&uri_of("photos"));
    assert_eq!(env.readdir(photos).len(), 2, "its own listing must be asked for again");
    assert!(env.tree.getattr(photos).is_some(), "what is known of a directory stays");
}

#[test]
fn invalidating_the_root_path_clears_its_own_cached_listing() {
    let mut env = Env::new();
    env.set_files(vec![file(BASE, "a.txt", 1, "e1")]);
    let root = env.tree.root();
    env.readdir(root);

    env.set_files(vec![file(BASE, "a.txt", 1, "e1"), file(BASE, "b.txt", 2, "e2")]);
    assert_eq!(env.readdir(root).len(), 1, "a fresh listing must not be asked for again");

    env.tree.invalidate_path(BASE);
    assert_eq!(env.readdir(root).len(), 2, "the root's listing must be asked for again");
}

#[test]
fn invalidating_a_deleted_files_own_path_removes_it() {
    let mut env = Env::new();
    env.set_files(vec![file(BASE, "keep.txt", 1, "e1"), file(BASE, "gone.txt", 1, "e2")]);
    let root = env.tree.root();
    let gone = env.lookup(root, "gone.txt").unwrap().0;

    env.set_files(vec![file(BASE, "keep.txt", 1, "e1")]);
    env.tree.invalidate_path(&uri_of("gone.txt"));

    assert!(env.tree.getattr(gone).is_none(), "what is known of it must go at once");
    assert!(env.lookup(root, "gone.txt").is_none());
}

#[test]
fn forgetting_a_path_takes_what_is_known_of_a_directory_too() {
    let mut env = Env::new();
    env.set_files(vec![folder(BASE, "photos"), file(BASE, "keep.txt", 1, "e1")]);
    let root = env.tree.root();
    let photos = env.lookup(root, "photos").unwrap().0;
    let keep = env.lookup(root, "keep.txt").unwrap().0;
    env.tree.forget_path(&uri_of("photos"));
    assert!(env.tree.getattr(photos).is_none());
    assert!(env.tree.getattr(keep).is_some());
    env.tree.forget_path(BASE);
    assert!(env.tree.getattr(root).is_some(), "the root is never forgotten");
}

#[test]
fn what_the_server_says_becomes_what_is_known() {
    let mut env = Env::new();
    let mut odd = file(BASE, "odd", -3, "e1");
    odd.updated_at = "yesterday".into();
    odd.primary_entity = None;
    env.server.insert(BASE.into(), vec![file(BASE, "a.txt", 5, "e1"), odd, folder(BASE, "d")]);
    let root = env.tree.root();
    let a = env.lookup(root, "a.txt").unwrap().1;
    assert_eq!((a.size, a.mtime_secs, a.is_dir), (5, 1_704_164_645, false));
    assert_eq!((a.etag.as_str(), a.remote_path.as_str()), ("e1", "cloudreve://my/sync/a.txt"));
    let o = env.lookup(root, "odd").unwrap().1;
    assert_eq!((o.size, o.mtime_secs, o.etag.as_str()), (0, 0, ""));
    assert!(env.lookup(root, "d").unwrap().1.is_dir);
}

#[test]
fn times_are_read_from_their_text() {
    assert_eq!(parse_rfc3339("2024-01-02T03:04:05Z"), 1_704_164_645);
    assert_eq!(parse_rfc3339("2024-01-02T04:04:05+01:00"), 1_704_164_645);
    assert_eq!(parse_rfc3339("no time"), 0);
    assert_eq!(or_zero(Some(7)), 7);
    assert_eq!(or_zero(None), 0);
}

#[test]
fn an_unknown_node_cannot_be_listed() {
    let env = Env::new();
    let e = env.tree.plan_listing(NodeId(99), 0).unwrap_err();
    assert_eq!(e.message(), "readdir/lookup on an unknown node");
}

#[test]
fn an_entry_that_exists_only_here_survives_a_listing() {
    let mut env = Env::new();
    env.server.insert(BASE.into(), vec![]);
    let root = env.tree.root();
    env.readdir(root);
    let id = env.tree.insert_local_entry(root, "new.txt").unwrap();
    env.now += LISTING_TTL_MILLIS;
    assert!(env.readdir(root).is_empty());
    assert_eq!(env.tree.known_child(root, "new.txt").unwrap().0, id);
    env.server.insert(BASE.into(), vec![file(BASE, "new.txt", 9, "e1")]);
    env.now += LISTING_TTL_MILLIS;
    assert_eq!(env.lookup(root, "new.txt").unwrap().0, id, "it keeps its node");
    assert!(env.tree.insert_local_entry(NodeId(77), "x").is_err());
}

#[test]
fn the_current_version_is_learned_from_a_new_listing() {
    let mut env = Env::new();
    env.server.insert(BASE.into(), vec![file(BASE, "a.txt", 5, "e1")]);
    let root = env.tree.root();
    env.readdir(root);
    env.server.insert(BASE.into(), vec![file(BASE, "a.txt", 5, "e2")]);
    let dir = env.tree.expire_listing_of("cloudreve://my/sync/a.txt").unwrap();
    assert_eq!(dir, root);
    env.ensure_listed(dir);
    assert_eq!(env.tree.listed_etag(dir, "cloudreve://my/sync/a.txt"), Some("e2".to_string()));
    assert_eq!(env.tree.listed_etag(dir, "cloudreve://my/sync/other"), None);
    assert!(env.tree.expire_listing_of("cloudreve://elsewhere/a.txt").is_none());
}
