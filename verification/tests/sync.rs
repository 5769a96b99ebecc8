use syncora::auth::client::UpdatedFolder;
use syncora::auth::token_store::AuthTokens;
use syncora::db::folders::Folder;
use syncora::error::AppError;
use syncora::foreground_service::{start_foreground, stop_foreground};
use syncora::rclone::types::{ConflictInfo, SyncResult};
use syncora::sync::release::{check_releasable, check_synced, release_log_entry, release_report};
use syncora::sync::scheduler::{
    folders_to_sync, notification_name, remote_folders_to_sync, should_sync, trigger_targets,
    triggered_folders, watched_folder, SyncTrigger,
};
use syncora::sync::{
    check_syncable, rclone_binary_names, require_session, sync_log_entry, sync_log_message,
    sync_report, sync_summary, SyncKind,
};

fn strings(v: &[&str]) -> Vec<String> {
    v.iter().map(|s| s.to_string()).collect()
}

fn result(success: bool, t: u32, d: u32, paths: &[&str], errors: &[&str]) -> SyncResult {
    SyncResult {
        success,
        files_transferred: t,
        files_deleted: d,
        transferred_paths: strings(paths),
        errors: strings(errors),
        conflicts: vec![ConflictInfo {
            file_path: "c.txt".to_string(),
            local_version: Some("1 bytes".to_string()),
            remote_version: None,
        }],
        duration_ms: 250,
    }
}

fn folder(id: &str, enabled: bool, mode: &str) -> Folder {
    Folder {
        id: id.to_string(),
        local_path: format!("/data/{}", id),
        remote_prefix: id.to_string(),
        mode: mode.to_string(),
        last_sync_at: None,
        status: "idle".to_string(),
        is_enabled: enabled,
        needs_resync: false,
        created_at: String::new(),
    }
}

#[test]
fn summaries_of_a_sync() {
    assert_eq!(sync_summary(0, 0, &Vec::new()), "No changes");
    assert_eq!(sync_summary(2, 0, &Vec::new()), "2 synced");
    assert_eq!(sync_summary(0, 1, &Vec::new()), "1 deleted");
    assert_eq!(sync_summary(2, 1, &strings(&["a/b/x.txt", "y.txt"])), "2 synced, 1 deleted: x.txt, y.txt");
    assert_eq!(
        sync_summary(5, 0, &strings(&["p/1", "p/2", "p/3", "p/4", "p/5"])),
        "5 synced: 1, 2, 3 and 2 more"
    );
    assert_eq!(sync_summary(0, 1, &strings(&["(deleted) old/z.txt"])), "1 deleted: z.txt");
    assert_eq!(sync_summary(1, 0, &strings(&["dir/"])), "1 synced: ");
}

#[test]
fn report_and_history_of_a_sync() {
    let r = result(true, 2, 1, &["a/x.txt", "y.txt"], &[]);
    let rep = sync_report("f1", &r);
    assert_eq!(rep.folder_id, "f1");
    assert!(rep.success);
    assert_eq!(rep.files_transferred, 2);
    assert_eq!(rep.files_deleted, 1);
    assert_eq!(rep.duration_ms, 250);
    assert_eq!(rep.conflicts.len(), 1);
    assert_eq!(rep.conflicts[0].file_path, "c.txt");
    assert_eq!(rep.conflicts[0].local_version, Some("1 bytes".to_string()));
    let e = sync_log_entry(SyncKind::Bisync, &r);
    assert_eq!(e.action, "bisync");
    assert_eq!(e.status, "success");
    assert_eq!(e.message, Some("2 synced, 1 deleted: x.txt, y.txt".to_string()));
    assert_eq!(e.duration_ms, Some(250));
    let bad = result(false, 0, 0, &[], &["first", "second"]);
    let e = sync_log_entry(SyncKind::S3, &bad);
    assert_eq!(e.action, "s3_sync");
    assert_eq!(e.status, "error");
    assert_eq!(e.message, Some("first".to_string()));
    assert_eq!(sync_log_message(&result(false, 0, 0, &[], &[])), "Unknown error");
    assert_eq!(sync_report("f1", &bad).errors, strings(&["first", "second"]));
}

#[test]
fn checks_before_a_sync() {
    assert!(check_syncable("sync").is_ok());
    match check_syncable("cloud_only") {
        Err(AppError::General(m)) => assert_eq!(m, "Folder is in cloud-only mode"),
        _ => panic!("expected a refusal"),
    }
    let t = AuthTokens {
        access_token: "a".to_string(),
        refresh_token: "r".to_string(),
        user_id: "u".to_string(),
        email: "e".to_string(),
        display_name: None,
    };
    assert_eq!(require_session(Some(t)).unwrap().access_token, "a");
    match require_session(None) {
        Err(AppError::Auth(m)) => assert_eq!(m, "Not logged in. Please sign in again."),
        _ => panic!("expected to be asked to sign in"),
    }
}

#[test]
fn release_steps() {
    assert!(check_releasable("sync").is_ok());
    match check_releasable("cloud_only") {
        Err(AppError::General(m)) => assert_eq!(m, "Folder is already in cloud-only mode"),
        _ => panic!("expected a refusal"),
    }
    match check_synced(&result(false, 0, 0, &[], &["x"])) {
        Err(AppError::Rclone(m)) => assert_eq!(m, "Sync failed before release. Aborting."),
        _ => panic!("expected a refusal"),
    }
    let r = result(true, 3, 4, &[], &[]);
    assert!(check_synced(&r).is_ok());
    let rep = release_report("f1", &r);
    assert!(rep.success);
    assert_eq!(rep.files_transferred, 3);
    assert_eq!(rep.files_deleted, 4);
    assert!(rep.errors.is_empty());
    assert!(rep.conflicts.is_empty());
    let e = release_log_entry(&r);
    assert_eq!(e.action, "release");
    assert_eq!(e.status, "success");
    assert_eq!(e.message, Some("Folder released to cloud-only mode".to_string()));
    assert_eq!(e.duration_ms, Some(250));
}

#[test]
fn scheduled_folders() {
    let fs = vec![folder("a", true, "sync"), folder("b", false, "sync"), folder("c", true, "cloud_only"), folder("d", true, "normal")];
    assert!(should_sync(&fs[0]));
    assert!(!should_sync(&fs[1]));
    assert!(!should_sync(&fs[2]));
    assert_eq!(folders_to_sync(&fs), strings(&["a", "d"]));
    assert_eq!(trigger_targets(SyncTrigger::All, &fs), strings(&["a", "d"]));
    assert_eq!(trigger_targets(SyncTrigger::Folders(strings(&["c", "b"])), &fs), strings(&["c", "b"]));
}

#[test]
fn local_changes_trigger_each_folder_once() {
    assert_eq!(triggered_folders(&strings(&["b", "a", "b", "b", "c", "a"])), strings(&["b", "a", "c"]));
    assert_eq!(triggered_folders(&Vec::new()), Vec::<String>::new());
}

#[test]
fn remote_updates_of_registered_folders() {
    let updated = vec![
        UpdatedFolder { id: "x".to_string(), updated_at: "t1".to_string() },
        UpdatedFolder { id: "a".to_string(), updated_at: "t2".to_string() },
        UpdatedFolder { id: "b".to_string(), updated_at: "t3".to_string() },
    ];
    assert_eq!(remote_folders_to_sync(&updated, &strings(&["a", "b", "c"])), strings(&["a", "b"]));
    assert_eq!(remote_folders_to_sync(&updated, &Vec::new()), Vec::<String>::new());
}

#[test]
fn names_while_syncing() {
    assert_eq!(notification_name(Some("/data/a".to_string()), "a"), "/data/a");
    assert_eq!(notification_name(None, "a"), "a");
    start_foreground("/data/a");
    stop_foreground();
}

#[test]
fn bundled_rclone_names() {
    assert_eq!(
        rclone_binary_names("aarch64", "macos"),
        ("rclone-aarch64-apple-darwin".to_string(), "rclone".to_string())
    );
    assert_eq!(
        rclone_binary_names("x86_64", "windows"),
        ("rclone-x86_64-pc-windows-msvc.exe".to_string(), "rclone.exe".to_string())
    );
    assert_eq!(
        rclone_binary_names("x86_64", "linux"),
        ("rclone-x86_64-unknown-linux-gnu".to_string(), "rclone".to_string())
    );
    assert_eq!(rclone_binary_names("riscv64", "linux"), ("rclone-".to_string(), "rclone".to_string()));
}

#[test]
fn changed_paths_find_their_folder() {
    let watched = vec![
        ("/home/u/docs".to_string(), "f1".to_string()),
        ("/home/u/photos/".to_string(), "f2".to_string()),
        ("/home/u".to_string(), "f3".to_string()),
    ];
    assert_eq!(watched_folder("/home/u/docs/a.txt", &watched), Some("f1".to_string()));
    assert_eq!(watched_folder("/home/u/docs", &watched), Some("f1".to_string()));
    assert_eq!(watched_folder("/home/u/photos/x/y.png", &watched), Some("f2".to_string()));
    assert_eq!(watched_folder("/home/u/docsx/a.txt", &watched), Some("f3".to_string()));
    assert_eq!(watched_folder("/home/u/./docs//b", &watched), Some("f1".to_string()));
    assert_eq!(watched_folder("/home/other/a", &watched), None);
    assert_eq!(watched_folder("home/u/docs/a", &watched), None);
}
