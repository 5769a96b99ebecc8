use syncora::db::folders::{find_by_local_path, folder_not_found, Folder};
use syncora::db::settings::{settings_from_rows, settings_rows, Settings};
use syncora::db::sync_state::{state_from_rows, state_rows, StateRow};
use syncora::error::AppError;
use syncora::pathmap::PathMap;
use syncora::s3sync::types::FileEntry;

fn rows(items: &[(&str, &str)]) -> Vec<(String, String)> {
    items.iter().map(|(k, v)| (k.to_string(), v.to_string())).collect()
}

fn folder(id: &str, path: &str) -> Folder {
    Folder {
        id: id.to_string(),
        local_path: path.to_string(),
        remote_prefix: "docs".to_string(),
        mode: "sync".to_string(),
        last_sync_at: None,
        status: "idle".to_string(),
        is_enabled: true,
        needs_resync: true,
        created_at: "2024-01-01 00:00:00".to_string(),
    }
}

#[test]
fn default_settings() {
    let s = Settings::default();
    assert_eq!(s.api_base_url, "https://api.synchora.cc");
    assert_eq!(s.sync_interval_minutes, 5);
    assert!(!s.auto_start);
}

#[test]
fn settings_rows_and_back() {
    let s = Settings { api_base_url: "http://localhost:8787".to_string(), sync_interval_minutes: -15, auto_start: true };
    let r = settings_rows(&s);
    assert_eq!(
        r,
        rows(&[("api_base_url", "http://localhost:8787"), ("sync_interval_minutes", "-15"), ("auto_start", "true")])
    );
    let back = settings_from_rows(&r);
    assert_eq!(back.api_base_url, "http://localhost:8787");
    assert_eq!(back.sync_interval_minutes, -15);
    assert!(back.auto_start);
}

#[test]
fn saved_settings_replace_earlier_rows() {
    let mut r = rows(&[("api_base_url", "old"), ("sync_interval_minutes", "30"), ("auto_start", "true"), ("theme", "dark")]);
    let s = Settings { api_base_url: "new".to_string(), sync_interval_minutes: i64::MIN, auto_start: false };
    r.extend(settings_rows(&s));
    let back = settings_from_rows(&r);
    assert_eq!(back.api_base_url, "new");
    assert_eq!(back.sync_interval_minutes, i64::MIN);
    assert!(!back.auto_start);
}

#[test]
fn unreadable_settings_fall_back() {
    let s = settings_from_rows(&rows(&[("sync_interval_minutes", "ten"), ("auto_start", "yes")]));
    assert_eq!(s.api_base_url, "https://api.synchora.cc");
    assert_eq!(s.sync_interval_minutes, 5);
    assert!(!s.auto_start);
    assert_eq!(settings_from_rows(&rows(&[("sync_interval_minutes", "+7")])).sync_interval_minutes, 7);
    assert_eq!(settings_from_rows(&rows(&[("sync_interval_minutes", "-")])).sync_interval_minutes, 5);
    assert_eq!(
        settings_from_rows(&rows(&[("sync_interval_minutes", "9223372036854775808")])).sync_interval_minutes,
        5
    );
    assert_eq!(
        settings_from_rows(&rows(&[("sync_interval_minutes", "-9223372036854775808")])).sync_interval_minutes,
        i64::MIN
    );
    assert_eq!(settings_from_rows(&rows(&[("sync_interval_minutes", " 3")])).sync_interval_minutes, 5);
}

#[test]
fn sync_state_rows_and_back() {
    let mut m: PathMap<FileEntry> = PathMap::new();
    m.insert(
        "a.txt".to_string(),
        FileEntry { path: "/abs/a.txt".to_string(), size: u64::MAX, etag: Some("e".to_string()), mtime: Some(1_700_000_000) },
    );
    m.insert("b/c.txt".to_string(), FileEntry { path: String::new(), size: 3, etag: None, mtime: None });
    let r = state_rows(&m);
    assert_eq!(r.len(), 2);
    let a = r.iter().find(|x| x.file_path == "a.txt").unwrap();
    assert_eq!(a.size, -1);
    assert_eq!(a.etag, Some("e".to_string()));
    assert_eq!(a.local_mtime, Some(1_700_000_000));
    let back = state_from_rows(&r);
    assert_eq!(back.len(), 2);
    let a = back.get(&"a.txt".to_string()).unwrap();
    assert_eq!(a.size, u64::MAX);
    assert_eq!(a.path, "");
    assert_eq!(a.etag, Some("e".to_string()));
    assert_eq!(a.mtime, Some(1_700_000_000));
    let c = back.get(&"b/c.txt".to_string()).unwrap();
    assert_eq!(c.size, 3);
    assert_eq!(c.mtime, None);
}

#[test]
fn stored_times_chrono_cannot_hold_are_dropped() {
    let r = vec![
        StateRow { file_path: "x".to_string(), etag: None, size: 1, local_mtime: Some(i64::MAX) },
        StateRow { file_path: "x".to_string(), etag: None, size: 2, local_mtime: Some(0) },
        StateRow { file_path: "y".to_string(), etag: None, size: 1, local_mtime: Some(i64::MAX) },
    ];
    let m = state_from_rows(&r);
    assert_eq!(m.len(), 2);
    assert_eq!(m.get(&"x".to_string()).unwrap().size, 2);
    assert_eq!(m.get(&"x".to_string()).unwrap().mtime, Some(0));
    assert_eq!(m.get(&"y".to_string()).unwrap().mtime, None);
}

#[test]
fn stored_times_at_the_edges_of_chrono() {
    let row = |p: &str, t: i64| StateRow { file_path: p.to_string(), etag: None, size: 1, local_mtime: Some(t) };
    let r = vec![
        row("min", -8_334_601_228_800),
        row("below", -8_334_601_228_801),
        row("max", 8_210_266_876_799),
        row("above", 8_210_266_876_800),
    ];
    let m = state_from_rows(&r);
    assert_eq!(m.get(&"min".to_string()).unwrap().mtime, Some(-8_334_601_228_800));
    assert_eq!(m.get(&"below".to_string()).unwrap().mtime, None);
    assert_eq!(m.get(&"max".to_string()).unwrap().mtime, Some(8_210_266_876_799));
    assert_eq!(m.get(&"above".to_string()).unwrap().mtime, None);
}

#[test]
fn folder_lookup_by_path() {
    let fs = vec![folder("1", "/a"), folder("2", "/b"), folder("3", "/b")];
    assert_eq!(find_by_local_path(&fs, "/b"), Some(1));
    assert_eq!(find_by_local_path(&fs, "/c"), None);
    match folder_not_found("f9") {
        AppError::NotFound(m) => assert_eq!(m, "Folder not found: f9"),
        _ => panic!("expected not found"),
    }
}

#[test]
fn release_transitions_of_a_folder() {
    let f = folder("1", "/a").with_status("syncing");
    assert_eq!(f.status, "syncing");
    let f = f.with_mode("cloud_only");
    assert_eq!(f.mode, "cloud_only");
    assert_eq!(f.status, "released");
    let f = f.synced_at("2024-01-02 03:04:05");
    assert_eq!(f.status, "synced");
    assert!(!f.needs_resync);
    let f = f.with_status("released");
    assert_eq!(f.mode, "cloud_only");
    assert_eq!(f.status, "released");
    assert_eq!(f.last_sync_at, Some("2024-01-02 03:04:05".to_string()));
    let f = f.with_mode("normal").with_status("synced");
    assert_eq!(f.mode, "normal");
    assert_eq!(f.status, "synced");
}
