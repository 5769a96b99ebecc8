use syncora::rclone::bisync::{
    bisync_args, bisync_cache_dir, bisync_state_file_names, bisync_step, cancelled_result,
    connection_report, connection_test_args, encode_bisync_pair, encode_path_component,
    extract_file_path, extract_percent, is_missing_state_files_error, must_resync, progress_event,
    remote_spec, run_outcome, should_retry_with_resync, BisyncCommand, BisyncEvent, BisyncState,
    Platform, ProgressEvent,
};
use syncora::rclone::types::SyncResult;

fn result(success: bool, errors: &[&str]) -> SyncResult {
    SyncResult {
        success,
        files_transferred: 0,
        files_deleted: 0,
        transferred_paths: Vec::new(),
        errors: errors.iter().map(|e| e.to_string()).collect(),
        conflicts: Vec::new(),
        duration_ms: 40,
    }
}

const LOST: &str = "ERROR : Bisync critical error: cannot find prior Path1 or Path2 listings, likely due to critical error on prior run";

#[test]
fn percent_is_first_standalone_number_up_to_100() {
    assert_eq!(extract_percent("1.200 MiB / 5.300 MiB, 22%, 300.000 KiB/s, ETA 14s"), Some(22));
    assert_eq!(extract_percent("0%"), Some(0));
    assert_eq!(extract_percent("100%"), Some(100));
    assert_eq!(extract_percent("101%, 5%"), Some(5));
    assert_eq!(extract_percent("no numbers"), None);
    assert_eq!(extract_percent("abc%"), None);
}

#[test]
fn progress_lines_become_events() {
    match progress_event("Transferred:            1.200 MiB / 5.300 MiB, 22%, 300.000 KiB/s, ETA 14s") {
        Some(ProgressEvent::Percent { percent, raw }) => {
            assert_eq!(percent, 22);
            assert_eq!(raw, "1.200 MiB / 5.300 MiB, 22%, 300.000 KiB/s, ETA 14s");
        }
        _ => panic!("expected a percentage"),
    }
    match progress_event("2026/06/14 22:08:28 INFO  : path/to/file: Copied (new)") {
        Some(ProgressEvent::File { file_path }) => assert_eq!(file_path, "path/to/file"),
        _ => panic!("expected a file"),
    }
    assert!(progress_event("Transferred: 3 / 3").is_none());
    assert!(progress_event("hello").is_none());
    match progress_event("INFO  : a.txt: Updated (replaced)") {
        Some(ProgressEvent::File { file_path }) => assert_eq!(file_path, "a.txt"),
        _ => panic!("expected a file"),
    }
    assert!(progress_event("a.txt: Copied (new)").is_none());
}

#[test]
fn progress_file_path_up_to_the_last_colon() {
    assert_eq!(
        extract_file_path("2026/06/14 22:08:28 INFO  : path/to/file: Copied (new)"),
        Some("path/to/file".to_string())
    );
    assert_eq!(
        extract_file_path("2026/06/14 22:08:28 INFO  : path/to/file : Deleted"),
        Some("path/to/file".to_string())
    );
    assert_eq!(extract_file_path("INFO  : a:b.txt: Deleted"), Some("a:b.txt".to_string()));
    assert_eq!(extract_file_path("INFO  : : Deleted"), None);
    assert_eq!(extract_file_path("INFO  : no colon"), None);
    assert_eq!(extract_file_path("plain"), None);
}

#[test]
fn command_line_of_a_bisync() {
    let args = bisync_args("/home/u/docs", "bkt", "pre", "/tmp/r.conf", false);
    assert_eq!(
        args,
        vec![
            "bisync", "/home/u/docs", "r2:bkt/pre", "--config", "/tmp/r.conf", "--checksum",
            "--create-empty-src-dirs", "--verbose", "--resilient",
        ]
    );
    let args = bisync_args("/d", "b", "p", "/c", true);
    assert_eq!(args.last().unwrap(), "--resync");
    assert_eq!(remote_spec("bkt", "a/b"), "r2:bkt/a/b");
}

#[test]
fn state_file_names_follow_rclone() {
    assert_eq!(encode_path_component("/home/u/docs"), "home_u_docs");
    assert_eq!(encode_path_component("r2:bkt/pre"), "r2_bkt_pre");
    assert_eq!(encode_path_component("::/x"), "x");
    assert_eq!(encode_bisync_pair("/home/u/docs", "bkt", "pre"), "home_u_docs..r2_bkt_pre");
    let (one, two) = bisync_state_file_names("/home/u/docs", "bkt", "pre");
    assert_eq!(one, "home_u_docs..r2_bkt_pre.path1.lst");
    assert_eq!(two, "home_u_docs..r2_bkt_pre.path2.lst");
}

#[test]
fn resync_decisions() {
    assert!(!must_resync(false, true));
    assert!(must_resync(false, false));
    assert!(must_resync(true, true));
    assert!(is_missing_state_files_error(&result(false, &["x", LOST])));
    assert!(!is_missing_state_files_error(&result(false, &["x"])));
    assert!(should_retry_with_resync(&result(false, &[LOST]), false));
    assert!(!should_retry_with_resync(&result(false, &[LOST]), true));
    assert!(!should_retry_with_resync(&result(true, &[LOST]), false));
}

#[test]
fn cancelled_result_reports_the_cancel() {
    let r = cancelled_result(99);
    assert!(!r.success);
    assert_eq!(r.errors, vec!["Sync cancelled by user".to_string()]);
    assert_eq!(r.duration_ms, 99);
    assert_eq!(r.files_transferred, 0);
}

#[test]
fn bisync_retries_once_as_resync_after_lost_listings() {
    let (s, c) = bisync_step(
        BisyncState::Idle { needs_resync: false, state_files_exist: true },
        BisyncEvent::Begin { cancel_requested: false },
    );
    assert!(matches!(s, BisyncState::FirstRun { resync: false }));
    assert!(matches!(c, BisyncCommand::Run { resync: false }));
    let (s, c) = bisync_step(s, BisyncEvent::Finished { result: result(false, &[LOST]), cancel_requested: false });
    assert!(matches!(s, BisyncState::Retry));
    assert!(matches!(c, BisyncCommand::Run { resync: true }));
    let (s, c) = bisync_step(s, BisyncEvent::Finished { result: result(true, &[]), cancel_requested: false });
    assert!(matches!(s, BisyncState::Done));
    match c {
        BisyncCommand::Return { result } => assert!(result.success),
        _ => panic!("expected the result"),
    }
}

#[test]
fn bisync_without_listings_starts_with_resync() {
    let (s, c) = bisync_step(
        BisyncState::Idle { needs_resync: false, state_files_exist: false },
        BisyncEvent::Begin { cancel_requested: false },
    );
    assert!(matches!(s, BisyncState::FirstRun { resync: true }));
    assert!(matches!(c, BisyncCommand::Run { resync: true }));
    let (s, c) = bisync_step(s, BisyncEvent::Finished { result: result(false, &[LOST]), cancel_requested: false });
    assert!(matches!(s, BisyncState::Done));
    match c {
        BisyncCommand::Return { result } => assert!(!result.success),
        _ => panic!("expected the result"),
    }
}

#[test]
fn bisync_cancel_ends_it() {
    let (s, c) = bisync_step(
        BisyncState::Idle { needs_resync: true, state_files_exist: true },
        BisyncEvent::Begin { cancel_requested: true },
    );
    assert!(matches!(s, BisyncState::Done));
    match c {
        BisyncCommand::Return { result } => {
            assert_eq!(result.errors, vec!["Sync cancelled by user".to_string()]);
            assert_eq!(result.duration_ms, 0);
        }
        _ => panic!("expected the result"),
    }
    let (_, c) = bisync_step(
        BisyncState::FirstRun { resync: false },
        BisyncEvent::Finished { result: result(false, &[LOST]), cancel_requested: true },
    );
    match c {
        BisyncCommand::Return { result } => {
            assert_eq!(result.errors, vec!["Sync cancelled by user".to_string()]);
            assert_eq!(result.duration_ms, 40);
        }
        _ => panic!("expected the result"),
    }
}

#[test]
fn outcome_of_a_process() {
    let r = run_outcome(None, true, "INFO  : a: Copied (new)\n", "", 10).unwrap();
    assert_eq!(r.errors, vec!["Sync cancelled by user".to_string()]);
    let r = run_outcome(Some(Some(0)), false, "INFO  : a: Copied (new)\n", "", 10).unwrap();
    assert!(r.success);
    assert_eq!(r.files_transferred, 1);
    let r = run_outcome(Some(None), false, "", "", 10).unwrap();
    assert!(!r.success);
    let r = run_outcome(None, false, "", "", 10).unwrap();
    assert!(!r.success);
}

#[test]
fn outcome_counts_at_the_limit() {
    let out = "Transferred:   4294967295 / 4294967295, 100%\nINFO  : a: Copied (new)\n";
    assert_eq!(run_outcome(Some(Some(0)), false, out, "", 10).unwrap().files_transferred, 1);
    let out = "INFO  : a: Copied (new)\nTransferred:   4294967295 / 4294967295, 100%\n";
    assert_eq!(run_outcome(Some(Some(0)), false, out, "", 10).unwrap().files_transferred, 1);
    let out = "Transferred:   4294967295 / 4294967295, 100%\n";
    assert_eq!(run_outcome(Some(Some(0)), false, out, "", 10).unwrap().files_transferred, u32::MAX);
}

#[test]
fn connection_test() {
    assert_eq!(
        connection_test_args("bkt", "/c/rclone.conf"),
        vec!["lsd", "r2:bkt", "--config", "/c/rclone.conf", "--max-depth", "1"]
    );
    assert_eq!(connection_report(true, "ignored"), (true, "Connection successful".to_string()));
    assert_eq!(
        connection_report(false, "boom\r\nmore"),
        (false, "Connection failed: boom".to_string())
    );
    assert_eq!(connection_report(false, ""), (false, "Connection failed: Unknown error".to_string()));
}

#[test]
fn cache_dir_of_each_platform() {
    let s = |x: &str| Some(x.to_string());
    assert_eq!(
        bisync_cache_dir(Platform::Unix, s("/rc"), s("/home/u"), None, None),
        Some(("/rc".to_string(), "bisync".to_string()))
    );
    assert_eq!(
        bisync_cache_dir(Platform::Unix, None, s("/home/u"), None, None),
        Some(("/home/u".to_string(), ".cache/rclone/bisync".to_string()))
    );
    assert_eq!(
        bisync_cache_dir(Platform::Unix, None, s("/home/u"), s("/xdg"), None),
        Some(("/xdg".to_string(), "rclone/bisync".to_string()))
    );
    assert_eq!(
        bisync_cache_dir(Platform::MacOs, None, s("/Users/u"), s("/xdg"), None),
        Some(("/Users/u".to_string(), "Library/Caches/rclone/bisync".to_string()))
    );
    assert_eq!(bisync_cache_dir(Platform::Windows, None, s("/home/u"), None, None), None);
    assert_eq!(
        bisync_cache_dir(Platform::Windows, None, None, None, s("C:\\Local")),
        Some(("C:\\Local".to_string(), "rclone/bisync".to_string()))
    );
    assert_eq!(bisync_cache_dir(Platform::MacOs, None, None, None, None), None);
}
