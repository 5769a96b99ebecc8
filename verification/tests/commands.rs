use syncora::auth::client::{AuthResponse, FolderMode, UserProfile};
use syncora::auth::token_store::AuthTokens;
use syncora::commands::auth::{auth_status, session_from_response, user_info};
use syncora::commands::folders::{
    basename_or_default, check_new_folder, create_folder_error, folder_mode, path_basename,
    replaces_local_record, sanitize_remote_prefix,
};
use syncora::commands::sync_cmd::{check_not_syncing, no_active_sync};
use syncora::error::AppError;

fn tokens(access: &str) -> AuthTokens {
    AuthTokens {
        access_token: access.to_string(),
        refresh_token: "ref".to_string(),
        user_id: "u1".to_string(),
        email: "a@b.c".to_string(),
        display_name: None,
    }
}

#[test]
fn prefixes_of_folder_names() {
    assert_eq!(sanitize_remote_prefix("My Photos"), "my-photos");
    assert_eq!(sanitize_remote_prefix("--Docs_2024.v1--"), "docs_2024.v1");
    assert_eq!(sanitize_remote_prefix("***"), "sync");
    assert_eq!(sanitize_remote_prefix(""), "sync");
    assert_eq!(sanitize_remote_prefix(".hidden"), "sync-.hidden");
    assert_eq!(sanitize_remote_prefix("_x"), "sync-_x");
    assert_eq!(sanitize_remote_prefix("Ünïcode"), "Ünïcode");
    assert_eq!(sanitize_remote_prefix("a/b\\c"), "a-b-c");
}

#[test]
fn prefixes_are_cut_to_128_bytes() {
    let long = "A".repeat(200);
    assert_eq!(sanitize_remote_prefix(&long), "a".repeat(128));
    // 127 ASCII bytes then a two-byte letter: the letter does not fit.
    let split = format!("{}é", "b".repeat(127));
    assert_eq!(sanitize_remote_prefix(&split), "b".repeat(127));
    // 126 bytes then the two-byte letter end exactly at 128.
    let fits = format!("{}éz", "b".repeat(126));
    assert_eq!(sanitize_remote_prefix(&fits), format!("{}é", "b".repeat(126)));
    assert_eq!(sanitize_remote_prefix("Shared Docs"), "shared-docs");
}

#[test]
fn basenames_of_paths() {
    assert_eq!(basename_or_default(Some("docs".to_string())), "docs");
    assert_eq!(basename_or_default(None), "sync");
    assert_eq!(path_basename("/home/u/My Docs"), "My Docs");
    assert_eq!(path_basename("/home/u/docs/"), "docs");
    assert_eq!(path_basename("/"), "sync");
    assert_eq!(path_basename("/home/.."), "sync");
    assert_eq!(path_basename("a/b/."), "b");
    assert_eq!(path_basename("a/../bc//"), "bc");
    assert_eq!(path_basename("./"), "sync");
    assert_eq!(path_basename(".."), "sync");
    assert_eq!(path_basename(""), "sync");
    assert_eq!(path_basename(".hidden"), ".hidden");
}

#[test]
fn modes_of_a_new_folder() {
    assert_eq!(folder_mode(Some("connect".to_string())), FolderMode::Connect);
    assert_eq!(folder_mode(Some("replace".to_string())), FolderMode::Replace);
    assert_eq!(folder_mode(Some("create".to_string())), FolderMode::Create);
    assert_eq!(folder_mode(Some("Connect".to_string())), FolderMode::Create);
    assert_eq!(folder_mode(None), FolderMode::Create);
    assert!(replaces_local_record(FolderMode::Connect));
    assert!(replaces_local_record(FolderMode::Replace));
    assert!(!replaces_local_record(FolderMode::Create));
}

#[test]
fn duplicate_folders_are_refused_only_when_creating() {
    match check_new_folder(FolderMode::Create, true) {
        Err(AppError::General(m)) => assert_eq!(m, "This folder is already being synced"),
        _ => panic!("expected a refusal"),
    }
    assert!(check_new_folder(FolderMode::Create, false).is_ok());
    assert!(check_new_folder(FolderMode::Replace, true).is_ok());
    assert!(check_new_folder(FolderMode::Connect, true).is_ok());
}

#[test]
fn existing_remote_folder_is_told_plainly() {
    match create_folder_error(AppError::Api("Failed to create folder: prefix already exists".to_string())) {
        AppError::General(m) => assert_eq!(m, "A folder with this name is already synced on the server."),
        _ => panic!("expected the plain message"),
    }
    match create_folder_error(AppError::Api("Failed to create folder: boom".to_string())) {
        AppError::Api(m) => assert_eq!(m, "Failed to create folder: boom"),
        _ => panic!("expected the error unchanged"),
    }
}

#[test]
fn sign_in_stores_the_session() {
    let resp = AuthResponse {
        user: UserProfile {
            id: "u7".to_string(),
            email: "x@y.z".to_string(),
            display_name: Some("X".to_string()),
            created_at: None,
        },
        access_token: "a".to_string(),
        refresh_token: "r".to_string(),
    };
    let (t, u) = session_from_response(resp);
    assert_eq!(t.access_token, "a");
    assert_eq!(t.refresh_token, "r");
    assert_eq!(t.user_id, "u7");
    assert_eq!(u.id, "u7");
    assert_eq!(u.email, "x@y.z");
    assert_eq!(u.display_name, Some("X".to_string()));
    let u = user_info(tokens("z"));
    assert_eq!(u.email, "a@b.c");
}

#[test]
fn signed_in_state() {
    let (s, clear) = auth_status(None, Ok(Some(tokens("x"))));
    assert!(!s.logged_in && s.user.is_none() && !clear);
    let (s, clear) = auth_status(Some(tokens("old")), Ok(Some(tokens("new"))));
    assert!(s.logged_in && !clear);
    assert_eq!(s.user.unwrap().id, "u1");
    let (s, clear) = auth_status(Some(tokens("old")), Ok(None));
    assert!(!s.logged_in && !clear);
    let (s, clear) = auth_status(Some(tokens("old")), Err(AppError::Auth("expired".to_string())));
    assert!(!s.logged_in && s.user.is_none() && clear);
    let (s, clear) = auth_status(Some(tokens("old")), Err(AppError::Api("offline".to_string())));
    assert!(s.logged_in && !clear);
    assert_eq!(s.user.unwrap().email, "a@b.c");
}

#[test]
fn one_sync_per_folder() {
    assert!(check_not_syncing(false, "f1").is_ok());
    match check_not_syncing(true, "f1") {
        Err(AppError::SyncInProgress(id)) => assert_eq!(id, "f1"),
        _ => panic!("expected a refusal"),
    }
    match no_active_sync("f2") {
        AppError::General(m) => assert_eq!(m, "No active sync for folder f2"),
        _ => panic!("expected a general error"),
    }
}

#[test]
fn prefixes_are_never_empty_nor_start_with_a_dash() {
    let long = "x-".repeat(100);
    for name in ["", "-", "---a", "***", "..", "Ünïcode ✓", long.as_str(), "日本語のフォルダ"] {
        let p = sanitize_remote_prefix(name);
        assert!(!p.is_empty());
        assert!(!p.starts_with('-'));
        assert!(p.len() <= 128);
        let first = p.chars().next().unwrap();
        assert!(first.is_alphanumeric());
        assert!(p.chars().all(|c| c.is_alphanumeric() || c == '.' || c == '-' || c == '_'));
        assert!(!p.chars().any(|c| c.is_ascii_uppercase()));
    }
}
