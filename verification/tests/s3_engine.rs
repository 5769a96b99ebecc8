use syncora::pathmap::PathMap;
use syncora::s3sync::algorithm::{compute_sync_actions, entries_equal};
use syncora::s3sync::engine::{
    after_io, build_new_state, first_io, io_kind, plan_sync_actions, remote_key, ActionOutcome,
    ActionStep, Io, IoKind, IoResult, ListingSide, SyncRun,
};
use syncora::s3sync::localfs::{delete_file, read_file, relative_key, walk_local_dir, write_file};
use syncora::s3sync::types::{FileEntry, SyncAction};
use syncora::error::AppError;

fn entry(size: u64, etag: Option<&str>) -> FileEntry {
    FileEntry { path: String::new(), size, etag: etag.map(|e| e.to_string()), mtime: None }
}

fn map(items: &[(&str, FileEntry)]) -> PathMap<FileEntry> {
    let mut m = PathMap::new();
    for (k, v) in items {
        m.insert(k.to_string(), v.clone());
    }
    m
}

fn action(actions: &PathMap<SyncAction>, p: &str) -> SyncAction {
    *actions.get(&p.to_string()).expect("path has an action")
}

#[test]
fn entries_compare_by_etag_else_size() {
    assert!(entries_equal(&entry(1, Some("a")), &entry(2, Some("a"))));
    assert!(!entries_equal(&entry(1, Some("a")), &entry(1, Some("b"))));
    assert!(entries_equal(&entry(5, None), &entry(5, Some("b"))));
    assert!(!entries_equal(&entry(5, None), &entry(6, None)));
    let at = |t: i64| FileEntry { path: "x".to_string(), size: 10, etag: None, mtime: Some(t) };
    assert!(!entries_equal(&at(100), &at(200)));
    assert!(entries_equal(&at(100), &at(100)));
    let mut tagged = at(200);
    tagged.etag = Some("e".to_string());
    assert!(!entries_equal(&at(100), &tagged));
    let mut other = at(300);
    other.etag = Some("e".to_string());
    assert!(entries_equal(&tagged, &other));
}

#[test]
fn three_way_comparison_covers_every_case() {
    let local = map(&[
        ("new_local", entry(1, None)),
        ("both_new_same", entry(3, None)),
        ("both_new_diff", entry(3, None)),
        ("unchanged", entry(4, None)),
        ("local_changed", entry(9, None)),
        ("remote_changed", entry(4, None)),
        ("both_changed", entry(9, None)),
        ("deleted_remote_clean", entry(4, None)),
        ("deleted_remote_dirty", entry(9, None)),
    ]);
    let remote = map(&[
        ("new_remote", entry(2, Some("r"))),
        ("both_new_same", entry(3, Some("x"))),
        ("both_new_diff", entry(4, Some("x"))),
        ("unchanged", entry(4, Some("s"))),
        ("local_changed", entry(4, Some("s"))),
        ("remote_changed", entry(8, Some("t"))),
        ("both_changed", entry(8, Some("t"))),
        ("deleted_local_clean", entry(4, Some("s"))),
        ("deleted_local_dirty", entry(8, Some("t"))),
    ]);
    let state = map(&[
        ("unchanged", entry(4, Some("s"))),
        ("local_changed", entry(4, Some("s"))),
        ("remote_changed", entry(4, Some("s"))),
        ("both_changed", entry(4, Some("s"))),
        ("deleted_remote_clean", entry(4, Some("s"))),
        ("deleted_remote_dirty", entry(4, Some("s"))),
        ("deleted_local_clean", entry(4, Some("s"))),
        ("deleted_local_dirty", entry(4, Some("s"))),
        ("deleted_both", entry(4, Some("s"))),
    ]);
    let a = compute_sync_actions(&local, &remote, &state);
    assert_eq!(a.len(), 13);
    assert_eq!(action(&a, "new_local"), SyncAction::UploadLocal);
    assert_eq!(action(&a, "new_remote"), SyncAction::DownloadRemote);
    assert_eq!(action(&a, "both_new_same"), SyncAction::Skip);
    assert_eq!(action(&a, "both_new_diff"), SyncAction::Conflict);
    assert_eq!(action(&a, "unchanged"), SyncAction::Skip);
    assert_eq!(action(&a, "local_changed"), SyncAction::UploadLocal);
    assert_eq!(action(&a, "remote_changed"), SyncAction::DownloadRemote);
    assert_eq!(action(&a, "both_changed"), SyncAction::Conflict);
    assert_eq!(action(&a, "deleted_remote_clean"), SyncAction::DeleteLocal);
    assert_eq!(action(&a, "deleted_remote_dirty"), SyncAction::Conflict);
    assert_eq!(action(&a, "deleted_local_clean"), SyncAction::DeleteRemote);
    assert_eq!(action(&a, "deleted_local_dirty"), SyncAction::Conflict);
    assert_eq!(action(&a, "deleted_both"), SyncAction::Skip);
}

#[test]
fn applying_the_actions_brings_both_sides_together() {
    // A local file with no etag, remote and state with consistent etags.
    let local = map(&[("a", entry(7, None)), ("b", entry(2, None))]);
    let remote = map(&[("a", entry(5, Some("e1"))), ("c", entry(3, Some("e3")))]);
    let state = map(&[("a", entry(5, Some("e1")))]);
    let a = compute_sync_actions(&local, &remote, &state);
    assert_eq!(action(&a, "a"), SyncAction::UploadLocal);
    assert_eq!(action(&a, "b"), SyncAction::UploadLocal);
    assert_eq!(action(&a, "c"), SyncAction::DownloadRemote);
}

#[test]
fn resync_takes_the_local_side() {
    let local = map(&[("a", entry(1, None)), ("b", entry(2, None))]);
    let remote = map(&[("b", entry(9, Some("x"))), ("c", entry(3, Some("y")))]);
    let empty: PathMap<FileEntry> = PathMap::new();
    let a = plan_sync_actions(&local, &remote, &empty, false);
    assert_eq!(a.len(), 3);
    assert_eq!(action(&a, "a"), SyncAction::UploadLocal);
    assert_eq!(action(&a, "b"), SyncAction::UploadLocal);
    assert_eq!(action(&a, "c"), SyncAction::DeleteRemote);
    let state = map(&[("b", entry(9, Some("x")))]);
    let a = plan_sync_actions(&local, &remote, &state, true);
    assert_eq!(action(&a, "c"), SyncAction::DeleteRemote);
    let a = plan_sync_actions(&local, &remote, &state, false);
    assert_eq!(action(&a, "b"), SyncAction::UploadLocal);
    assert_eq!(action(&a, "c"), SyncAction::DownloadRemote);
}

#[test]
fn object_keys_join_prefix_and_path() {
    assert_eq!(remote_key("user/folder/", "a/b.txt"), "user/folder/a/b.txt");
    assert_eq!(remote_key("user/folder//", "x"), "user/folder/x");
    assert_eq!(remote_key("p", "x"), "p/x");
    assert_eq!(remote_key("", "x"), "/x");
}

#[test]
fn a_run_counts_and_reports() {
    let mut run = SyncRun::new();
    run.record("a.txt", ActionOutcome::Uploaded);
    run.record("dir/b.txt", ActionOutcome::Downloaded);
    run.record("c.txt", ActionOutcome::RemoteDeleted);
    run.record("d.txt", ActionOutcome::LocalDeleted);
    run.record("e.txt", ActionOutcome::ReadFailed("denied".to_string()));
    run.record("f.txt", ActionOutcome::UploadFailed("500".to_string()));
    run.record("g.txt", ActionOutcome::DownloadFailed("404".to_string()));
    run.record("h.txt", ActionOutcome::WriteFailed("full".to_string()));
    run.record("i.txt", ActionOutcome::RemoteDeleteFailed("403".to_string()));
    run.record("j.txt", ActionOutcome::LocalDeleteFailed("busy".to_string()));
    let l = entry(12, None);
    run.record_conflict("k.txt", Some(&l), None);
    run.record_cancel();
    let r = run.finish(321);
    assert!(!r.success);
    assert_eq!(r.files_transferred, 2);
    assert_eq!(r.files_deleted, 2);
    assert_eq!(r.transferred_paths, vec!["a.txt".to_string(), "dir/b.txt".to_string()]);
    assert_eq!(r.files_transferred as usize, r.transferred_paths.len());
    assert_eq!(
        r.errors,
        vec![
            "Failed to read e.txt: denied",
            "Failed to upload f.txt: 500",
            "Failed to download g.txt: 404",
            "Failed to write h.txt: full",
            "Failed to delete remote i.txt: 403",
            "Failed to delete local j.txt: busy",
            "Sync cancelled by user",
        ]
    );
    assert_eq!(r.conflicts.len(), 1);
    assert_eq!(r.conflicts[0].file_path, "k.txt");
    assert_eq!(r.conflicts[0].local_version, Some("12 bytes".to_string()));
    assert_eq!(r.conflicts[0].remote_version, None);
    assert_eq!(r.duration_ms, 321);
}

#[test]
fn a_clean_run_succeeds() {
    let mut run = SyncRun::new();
    run.record("a", ActionOutcome::Uploaded);
    let r = run.finish(1);
    assert!(r.success);
}

#[test]
fn listing_failures_name_the_side() {
    let mut run = SyncRun::new();
    run.record_listing_failure(ListingSide::Local, "no such dir");
    run.record_listing_failure(ListingSide::Remote, "403");
    run.record_error("other");
    let r = run.finish(0);
    assert_eq!(
        r.errors,
        vec![
            "Failed to read local directory: no such dir",
            "Failed to list remote objects: 403",
            "other",
        ]
    );
}

#[test]
fn new_state_skips_paths_named_by_errors() {
    let mut local = map(&[("a.txt", entry(1, None)), ("b.txt", entry(2, None))]);
    local.insert("shared".to_string(), entry(10, None));
    let remote = map(&[("shared", entry(11, Some("r"))), ("c.txt", entry(3, Some("c")))]);
    let errors = vec!["Failed to upload b.txt: 500".to_string()];
    let s = build_new_state(&local, &remote, &errors);
    assert_eq!(s.len(), 3);
    assert!(s.contains_key(&"a.txt".to_string()));
    assert!(!s.contains_key(&"b.txt".to_string()));
    assert!(s.contains_key(&"c.txt".to_string()));
    assert_eq!(s.get(&"shared".to_string()).unwrap().size, 10);
}

#[test]
fn local_keys_use_forward_slashes() {
    assert_eq!(relative_key("a\\b\\c.txt"), "a/b/c.txt");
    assert_eq!(relative_key("plain/x"), "plain/x");
}

#[test]
fn storage_framework_access_is_not_available() {
    match read_file("/x") {
        Err(AppError::S3(m)) => assert_eq!(m, "SAF file read not yet implemented for Android"),
        _ => panic!("expected an S3 error"),
    }
    match write_file("/x", b"data") {
        Err(AppError::S3(m)) => assert_eq!(m, "SAF file write not yet implemented for Android"),
        _ => panic!("expected an S3 error"),
    }
    match delete_file("/x") {
        Err(AppError::S3(m)) => assert_eq!(m, "SAF file delete not yet implemented for Android"),
        _ => panic!("expected an S3 error"),
    }
    match walk_local_dir("/x") {
        Err(AppError::S3(m)) => assert_eq!(m, "SAF directory walk not yet implemented for Android"),
        _ => panic!("expected an S3 error"),
    }
}

#[test]
fn later_listing_pages_win() {
    let mut a = map(&[("x", entry(1, None)), ("y", entry(2, None))]);
    let b = map(&[("y", entry(20, None)), ("z", entry(30, None))]);
    a.extend(b);
    assert_eq!(a.len(), 3);
    assert_eq!(a.get(&"x".to_string()).unwrap().size, 1);
    assert_eq!(a.get(&"y".to_string()).unwrap().size, 20);
    assert_eq!(a.get(&"z".to_string()).unwrap().size, 30);
    let mut keys = a.keys();
    keys.sort();
    assert_eq!(keys, vec!["x".to_string(), "y".to_string(), "z".to_string()]);
}

#[test]
fn swapping_the_sides_swaps_the_actions() {
    let one = map(&[("up", entry(1, None)), ("both", entry(2, Some("x"))), ("gone", entry(4, Some("s")))]);
    let two = map(&[("down", entry(3, Some("r"))), ("both", entry(2, Some("x")))]);
    let state = map(&[("gone", entry(4, Some("s")))]);
    let a = compute_sync_actions(&one, &two, &state);
    let b = compute_sync_actions(&two, &one, &state);
    assert_eq!(action(&a, "up"), SyncAction::UploadLocal);
    assert_eq!(action(&b, "up"), SyncAction::DownloadRemote);
    assert_eq!(action(&a, "down"), SyncAction::DownloadRemote);
    assert_eq!(action(&b, "down"), SyncAction::UploadLocal);
    assert_eq!(action(&a, "gone"), SyncAction::DeleteLocal);
    assert_eq!(action(&b, "gone"), SyncAction::DeleteRemote);
    assert_eq!(action(&a, "both"), SyncAction::Skip);
    assert_eq!(action(&b, "both"), SyncAction::Skip);
}

#[test]
fn steps_of_each_action() {
    assert!(matches!(first_io(SyncAction::UploadLocal), Some(Io::ReadLocal)));
    assert!(matches!(first_io(SyncAction::DownloadRemote), Some(Io::Download)));
    assert!(matches!(first_io(SyncAction::DeleteRemote), Some(Io::DeleteRemote)));
    assert!(matches!(first_io(SyncAction::DeleteLocal), Some(Io::DeleteLocal)));
    assert!(first_io(SyncAction::Conflict).is_none());
    assert!(first_io(SyncAction::Skip).is_none());
    match after_io(IoKind::ReadLocal, IoResult::Bytes(b"abc".to_vec())) {
        ActionStep::Perform(Io::Upload(d)) => assert_eq!(d, b"abc".to_vec()),
        _ => panic!("expected the upload"),
    }
    match after_io(IoKind::Download, IoResult::Bytes(b"xy".to_vec())) {
        ActionStep::Perform(io) => {
            assert_eq!(io_kind(&io), IoKind::WriteLocal);
            match io {
                Io::WriteLocal(d) => assert_eq!(d, b"xy".to_vec()),
                _ => panic!("expected the write"),
            }
        }
        _ => panic!("expected the write"),
    }
    assert!(matches!(after_io(IoKind::Upload, IoResult::Done), ActionStep::Finished(ActionOutcome::Uploaded)));
    assert!(matches!(after_io(IoKind::WriteLocal, IoResult::Done), ActionStep::Finished(ActionOutcome::Downloaded)));
    assert!(matches!(after_io(IoKind::DeleteRemote, IoResult::Done), ActionStep::Finished(ActionOutcome::RemoteDeleted)));
    assert!(matches!(after_io(IoKind::DeleteLocal, IoResult::Done), ActionStep::Finished(ActionOutcome::LocalDeleted)));
    match after_io(IoKind::Upload, IoResult::Failed("503".to_string())) {
        ActionStep::Finished(ActionOutcome::UploadFailed(m)) => assert_eq!(m, "503"),
        _ => panic!("expected the failure"),
    }
    match after_io(IoKind::ReadLocal, IoResult::Failed("denied".to_string())) {
        ActionStep::Finished(ActionOutcome::ReadFailed(m)) => assert_eq!(m, "denied"),
        _ => panic!("expected the failure"),
    }
    match after_io(IoKind::WriteLocal, IoResult::Failed("full".to_string())) {
        ActionStep::Finished(ActionOutcome::WriteFailed(m)) => assert_eq!(m, "full"),
        _ => panic!("expected the failure"),
    }
}
