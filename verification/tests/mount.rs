use cloudreve_vfs::mount::{
    fuse_mounted_at, fuse_unmount_rungs, is_stale, marker_pid, marker_port, mount_marker_path,
    nfs_mount_command, nfs_mount_options, nfs_mounted_at, nfs_unmount_rungs,
    resolve_mountpoint_for_comparison, unmount_failure, Rung,
};

fn words(r: &Rung) -> String {
    let mut s = r.program.clone();
    for a in &r.args {
        s.push(' ');
        s.push_str(a);
    }
    s
}

#[test]
fn is_stale_is_false_with_no_mount_table_match() {
    assert!(!is_stale(false, None));
    assert!(!is_stale(false, Some(true)));
    assert!(!is_stale(false, Some(false)));
}

#[test]
fn is_stale_is_false_with_a_match_but_no_recorded_marker() {
    assert!(!is_stale(true, None));
}

#[test]
fn is_stale_is_false_when_the_recorded_owner_is_still_alive() {
    assert!(
        !is_stale(true, Some(true)),
        "a live sibling's own mount must never be treated as stale"
    );
}

#[test]
fn is_stale_is_true_when_the_recorded_owner_is_dead() {
    assert!(is_stale(true, Some(false)));
}

#[test]
fn a_path_with_no_parent_falls_back_to_the_raw_path() {
    assert_eq!(resolve_mountpoint_for_comparison("/", None, None), "/");
}

#[test]
fn a_resolved_directory_keeps_the_name() {
    assert_eq!(
        resolve_mountpoint_for_comparison("/tmp/drive", Some("/private/tmp"), Some("drive")),
        "/private/tmp/drive"
    );
    assert_eq!(resolve_mountpoint_for_comparison("/drive", Some("/"), Some("drive")), "/drive");
    assert_eq!(resolve_mountpoint_for_comparison("/gone/drive", None, Some("drive")), "/gone/drive");
}

#[test]
fn markers_name_ports_and_processes() {
    assert_eq!(mount_marker_path("/c"), "/c/mount.port");
    assert_eq!(marker_port(" 2049\n"), Some(2049));
    assert_eq!(marker_port("+7"), Some(7));
    assert_eq!(marker_port("65536"), None);
    assert_eq!(marker_port("-1"), None);
    assert_eq!(marker_port(""), None);
    assert_eq!(marker_port("12a"), None);
    assert_eq!(marker_pid("4242\n"), Some(4242));
    assert_eq!(marker_pid("-2147483648"), Some(i32::MIN));
    assert_eq!(marker_pid("2147483648"), None);
    assert_eq!(marker_pid("-"), None);
    assert_eq!(marker_pid("\u{a0}7\u{3000}"), Some(7));
}

#[test]
fn the_mount_table_is_searched_for_our_nfs_mount() {
    let table = "/dev/disk1 on / (apfs, local)\r\n127.0.0.1:/ on /private/tmp/d (nfs, nodev)\n";
    assert!(nfs_mounted_at(table, "/private/tmp/d"));
    assert!(!nfs_mounted_at(table, "/private/tmp"));
    assert!(!nfs_mounted_at("10.0.0.1:/ on /d (nfs)", "/d"));
    assert!(!nfs_mounted_at("127.0.0.1:/ on /d (smbfs)", "/d"));
    assert!(nfs_mounted_at("127.0.0.1:/ on /a (b) (nfs)", "/a (b)"));
    assert!(!nfs_mounted_at("nonsense", "/d"));
    assert!(!nfs_mounted_at("", "/d"));
}

#[test]
fn the_mount_table_is_searched_for_our_fuse_mount() {
    let table = "proc /proc proc rw 0 0\ncloud /mnt/d fuse.cloudreve rw 0 0\n";
    assert!(fuse_mounted_at(table, "/mnt/d"));
    assert!(!fuse_mounted_at(table, "/proc"));
    assert!(!fuse_mounted_at(table, "/mnt"));
    assert!(!fuse_mounted_at("cloud /mnt/d", "/mnt/d"));
    assert!(fuse_mounted_at("  cloud \t /mnt/d  fuse", "/mnt/d"));
}

#[test]
fn unmounting_gets_harder_step_by_step() {
    let all: Vec<String> = nfs_unmount_rungs("/d", false).iter().map(words).collect();
    assert_eq!(
        all,
        vec!["/sbin/umount /d", "/sbin/umount -f /d", "/usr/sbin/diskutil unmount force /d"]
    );
    let dead: Vec<String> = nfs_unmount_rungs("/d", true).iter().map(words).collect();
    assert_eq!(dead, all[1..].to_vec());
    let fuse: Vec<String> = fuse_unmount_rungs("/d").iter().map(words).collect();
    assert_eq!(
        fuse,
        vec!["fusermount3 -u /d", "fusermount -u /d", "umount -f /d", "umount -l /d"]
    );
    assert_eq!(
        unmount_failure("/d"),
        "failed to unmount /d after exhausting the escalation chain"
    );
}

#[test]
fn the_mount_command_names_the_port_twice() {
    assert_eq!(
        nfs_mount_options(50123),
        "nolocks,vers=3,tcp,soft,timeo=30,retrans=2,port=50123,mountport=50123"
    );
    assert_eq!(
        words(&nfs_mount_command("/d", 7)),
        "/sbin/mount_nfs -o nolocks,vers=3,tcp,soft,timeo=30,retrans=2,port=7,mountport=7 127.0.0.1:/ /d"
    );
}
