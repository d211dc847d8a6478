use cloudreve_vfs::writeback::{
    aim_upload, conflict_copy_path, conflict_copy_path_on, conflicts, copy_target, millis_of,
    UploadAttempts, UploadReply, UploadStep, VfsEvent, WriteBackQueue, UPLOAD_RETRIES,
};

#[test]
fn a_copy_is_named_after_the_file_and_the_day() {
    assert_eq!(
        conflict_copy_path_on("/docs/report.txt", "2024-05-06", 1),
        "/docs/report (conflict 2024-05-06).txt"
    );
    assert_eq!(
        conflict_copy_path_on("/docs/report.txt", "2024-05-06", 3),
        "/docs/report (conflict 2024-05-06) 3.txt"
    );
    assert_eq!(conflict_copy_path_on("/docs/.bashrc", "d", 1), "/docs/.bashrc (conflict d)");
    assert_eq!(conflict_copy_path_on("/a.b/noext", "d", 1), "/a.b/noext (conflict d)");
    assert_eq!(conflict_copy_path_on("plain.tar.gz", "d", 1), "plain.tar (conflict d).gz");
}

#[test]
fn a_copy_bears_the_date_of_today() {
    let path = conflict_copy_path("/d/a.txt", 1);
    let today = chrono::Utc::now().format("%Y-%m-%d").to_string();
    let yesterday =
        (chrono::Utc::now() - chrono::Duration::seconds(60)).format("%Y-%m-%d").to_string();
    assert!(
        path == format!("/d/a (conflict {today}).txt")
            || path == format!("/d/a (conflict {yesterday}).txt")
    );
}

#[test]
fn only_a_changed_file_conflicts() {
    assert!(conflicts("e1", &Some("e2".to_string())));
    assert!(!conflicts("e1", &Some("e1".to_string())));
    assert!(!conflicts("e1", &None));
    assert!(!conflicts("", &Some("e2".to_string())));
}

#[test]
fn an_upload_is_aimed_in_place_or_beside() {
    let t = aim_upload("/d/a.txt", "e1", &Some("e1".to_string()), "d");
    assert_eq!((t.uri.as_str(), t.overwrite, t.previous_version.as_str()), ("/d/a.txt", true, "e1"));
    let t = aim_upload("/d/a.txt", "", &None, "d");
    assert_eq!((t.overwrite, t.previous_version.as_str(), t.conflict_no), (false, "", 0));
    let t = aim_upload("/d/a.txt", "e1", &Some("e2".to_string()), "d");
    assert_eq!((t.uri.as_str(), t.overwrite), ("/d/a (conflict d).txt", false));
    assert_eq!(copy_target("/d/a.txt", "d", 2).uri, "/d/a (conflict d) 2.txt");
}

#[test]
fn an_upload_is_given_up_after_its_tries() {
    let mut a = UploadAttempts::new(0);
    assert_eq!(a.next(UploadReply::Failed, (1, 5)), UploadStep::RetryAfter(1));
    assert_eq!(a.next(UploadReply::Collision, (1, 5)), UploadStep::RetryAfter(5));
    assert_eq!(a.next(UploadReply::Failed, (1, 5)), UploadStep::GiveUp);
    assert_eq!(UPLOAD_RETRIES, 3);
}

#[test]
fn a_taken_name_uses_up_no_try() {
    let mut a = UploadAttempts::new(1);
    assert_eq!(a.next(UploadReply::Collision, (1, 5)), UploadStep::Retarget(2));
    assert_eq!(a.next(UploadReply::Collision, (1, 5)), UploadStep::Retarget(3));
    assert_eq!(a.next(UploadReply::Failed, (1, 5)), UploadStep::RetryAfter(1));
    assert_eq!(a.next(UploadReply::Landed, (1, 5)), UploadStep::Succeeded);
}

#[test]
fn seconds_become_milliseconds() {
    assert_eq!(millis_of(5), 5_000);
    assert_eq!(millis_of(-5), -5_000);
    assert_eq!(millis_of(i64::MAX), i64::MAX);
    assert_eq!(millis_of(i64::MIN), i64::MIN);
}

#[test]
fn every_cycle_is_reported_opened_and_closed() {
    let mut q = WriteBackQueue::new();
    q.arm("a");
    q.arm("b");
    assert!(q.is_armed("a") && q.busy() == 2);
    q.migrate_armed_timer("a", "c");
    assert!(!q.cancel_cycle("a"));
    assert!(q.cancel_cycle("c"));
    q.fire("b");
    assert!(!q.cancel("b"), "a timer that fired cannot be stopped");
    q.start("b");
    assert!(q.is_in_flight("b"));
    q.end("b", Some(VfsEvent::UploadSucceeded { remote_path: "b".into(), new_etag: "e".into() }));
    assert!(q.is_idle());
    assert_eq!(q.enqueue_immediate(&vec!["x".to_string(), "y".to_string()]), 2);
    assert_eq!(q.busy(), 2);
    let events = q.take_events();
    let opened = events.iter().filter(|e| matches!(e, VfsEvent::UploadQueued { .. })).count();
    assert_eq!(opened, 5);
    assert_eq!(events.len() - opened, 3);
    assert!(q.take_events().is_empty());
}
