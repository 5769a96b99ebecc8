use syncora::rclone::parser::{
    extract_conflict_path, extract_file_path, parse_bisync_output, parse_transferred_count,
};
use syncora::rclone::config::{config_file_name, generate_config};

#[test]
fn transfer_line_path_is_between_separator_and_action() {
    assert_eq!(
        extract_file_path("2026/06/14 12:30:00 INFO  : relative/path/file.txt: Copied (new)"),
        Some("relative/path/file.txt".to_string())
    );
    assert_eq!(extract_file_path("INFO  : a.txt: Deleted"), Some("a.txt".to_string()));
    assert_eq!(extract_file_path("no separator here"), None);
    assert_eq!(extract_file_path("INFO  : : Copied"), None);
}

#[test]
fn transferred_count_reads_first_number() {
    assert_eq!(parse_transferred_count("Transferred:   3 / 3, 100%"), Some(3));
    assert_eq!(parse_transferred_count("Transferred: 0 / 0, -"), Some(0));
    assert_eq!(parse_transferred_count("Transferred: many"), None);
    assert_eq!(parse_transferred_count("no colon"), None);
}

#[test]
fn conflict_path_follows_last_dash() {
    assert_eq!(
        extract_conflict_path("NOTICE: - WARNING  New or changed in both paths        - filename.txt"),
        Some("filename.txt".to_string())
    );
    assert_eq!(extract_conflict_path("nothing to see"), None);
    assert_eq!(extract_conflict_path("ends with - "), None);
}

#[test]
fn output_counts_transfers_and_deletions() {
    let stdout = "2026/06/14 12:30:00 INFO  : a/b.txt: Copied (new)\n\
                  2026/06/14 12:30:01 INFO  : c.txt: Updated\n\
                  2026/06/14 12:30:02 INFO  : old/d.txt: Deleted\n";
    let r = parse_bisync_output(stdout, "", 0, 1234);
    assert!(r.success);
    assert_eq!(r.files_transferred, 2);
    assert_eq!(r.files_deleted, 1);
    assert_eq!(
        r.transferred_paths,
        vec!["a/b.txt".to_string(), "c.txt".to_string(), "(deleted) old/d.txt".to_string()]
    );
    assert!(r.errors.is_empty());
    assert!(r.conflicts.is_empty());
    assert_eq!(r.duration_ms, 1234);
}

#[test]
fn output_summary_count_used_only_without_file_lines() {
    let r = parse_bisync_output("Transferred:   3 / 3, 100%\n", "", 0, 0);
    assert_eq!(r.files_transferred, 3);
    let r = parse_bisync_output(
        "INFO  : x.txt: Copied (new)\nTransferred:   3 / 3, 100%\n",
        "",
        0,
        0,
    );
    assert_eq!(r.files_transferred, 1);
    let r = parse_bisync_output("Transferred:   1.2 MiB / 1.2 MiB, 100%, Bytes\n", "", 0, 0);
    assert_eq!(r.files_transferred, 0);
    let r = parse_bisync_output(
        "Transferred:   5 / 5, 100%\nINFO  : x.txt: Copied (new)\nINFO  : y.txt: Updated\n",
        "",
        0,
        0,
    );
    assert_eq!(r.files_transferred, 2);
    let r = parse_bisync_output("Transferred:   0 / 0, -\nTransferred:   4 / 4, 100%\n", "", 0, 0);
    assert_eq!(r.files_transferred, 4);
    let r = parse_bisync_output("Transferred:   4 / 4, 100%\nTransferred:   7 / 7, 100%\n", "", 0, 0);
    assert_eq!(r.files_transferred, 4);
}

#[test]
fn output_errors_fail_the_run() {
    let r = parse_bisync_output("", "2026/06/14 ERROR : something broke  \n", 0, 7);
    assert!(!r.success);
    assert_eq!(r.errors, vec!["2026/06/14 ERROR : something broke".to_string()]);
    let r = parse_bisync_output("", "NOTICE: Failed to do a thing\n", 0, 7);
    assert!(r.success);
    assert!(r.errors.is_empty());
}

#[test]
fn output_conflicts_keep_the_exit_status() {
    let stderr = "NOTICE: - WARNING  New or changed in both paths        - docs/x.txt\n\
                  ERROR : Bisync aborted\n";
    let r = parse_bisync_output("", stderr, 0, 0);
    assert!(r.success);
    assert_eq!(r.conflicts.len(), 1);
    assert_eq!(r.conflicts[0].file_path, "docs/x.txt");
    assert_eq!(r.conflicts[0].local_version, None);
    assert_eq!(r.errors, vec!["ERROR : Bisync aborted".to_string()]);
}

#[test]
fn output_success_marker_overrides_exit_code() {
    let r = parse_bisync_output("Bisync successful\n", "", 2, 0);
    assert!(r.success);
    let r = parse_bisync_output("", "", 2, 0);
    assert!(!r.success);
}

#[test]
fn config_names_the_r2_remote() {
    assert_eq!(
        generate_config("https://acc.r2.cloudflarestorage.com", "AKID", "SECRET"),
        "[r2]\ntype = s3\nprovider = Cloudflare\naccess_key_id = AKID\nsecret_access_key = SECRET\n\
         endpoint = https://acc.r2.cloudflarestorage.com\nacl = private\nno_check_bucket = true\n"
    );
    assert_eq!(config_file_name(), "rclone.conf");
}
