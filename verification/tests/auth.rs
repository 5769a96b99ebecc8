use syncora::auth::client::{
    auth_header, check_remote_updates, create_folder_body, create_folder_remote,
    delete_folder_remote, flag_from_value, get_me, get_sync_credentials, login, logout,
    refresh_outcome, refresh_token, register, report_sync, resolve_conflict_remote, status_error,
    freshness_plan, ApiMethod, Endpoint, FlagValue, FolderMode, FreshnessPlan, TokenPair,
};
use syncora::auth::jwt::{
    base64_decode_url, expired_at, is_jwt_expired, jwt_payload, standard_base64, B64Reader,
};
use syncora::auth::token_store::{
    access_token_row, token_pair_rows, token_rows, tokens_from_rows, AuthTokens,
};
use syncora::error::AppError;

fn tokens() -> AuthTokens {
    AuthTokens {
        access_token: "acc".to_string(),
        refresh_token: "ref".to_string(),
        user_id: "u1".to_string(),
        email: "a@b.c".to_string(),
        display_name: Some("Ann".to_string()),
    }
}

fn rows(items: &[(&str, &str)]) -> Vec<(String, String)> {
    items.iter().map(|(k, v)| (k.to_string(), v.to_string())).collect()
}

#[test]
fn jwt_payload_is_the_middle_part() {
    assert_eq!(jwt_payload("aaa.bbb.ccc"), Some("bbb".to_string()));
    assert_eq!(jwt_payload("a..c"), Some(String::new()));
    assert_eq!(jwt_payload("aaa.bbb"), None);
    assert_eq!(jwt_payload("a.b.c.d"), None);
}

#[test]
fn url_safe_base64_made_standard() {
    assert_eq!(standard_base64("eyJzdWIiOiLDqT8-In0"), b"eyJzdWIiOiLDqT8+In0=".to_vec());
    assert_eq!(standard_base64("ab_c"), b"ab/c".to_vec());
    assert_eq!(standard_base64("ab"), b"ab==".to_vec());
}

#[test]
fn base64_reader_decodes_within_one_call() {
    let mut r = B64Reader::new(b"eyJleHAiOjIwMDAwMDAwMDB9".to_vec());
    assert_eq!(r.read_chunk(64), b"{\"exp\":2000000000}".to_vec());
    assert_eq!(r.read_chunk(64), Vec::<u8>::new());
    let mut r = B64Reader::new(b"eyJzdWIiOiLDqT8+In0=".to_vec());
    assert_eq!(r.read_chunk(64), b"{\"sub\":\"\xc3\xa9?>\"}".to_vec());
    assert_eq!(r.read_chunk(64), Vec::<u8>::new());
}

#[test]
fn base64_reader_keeps_bits_between_reads() {
    let mut r = B64Reader::new(b"QUJD".to_vec());
    assert_eq!(r.read_chunk(2), b"AB".to_vec());
    assert_eq!(r.read_chunk(2), b"C".to_vec());
    assert_eq!(r.read_chunk(2), Vec::<u8>::new());
    let mut r = B64Reader::new(b"QUJD".to_vec());
    assert_eq!(r.read_chunk(1), b"A".to_vec());
    assert_eq!(r.read_chunk(1), b"B".to_vec());
    assert_eq!(r.read_chunk(1), b"C".to_vec());
    assert_eq!(r.read_chunk(1), Vec::<u8>::new());
    let mut r = B64Reader::new(b"QQ==QUJD".to_vec());
    assert_eq!(r.read_chunk(8), b"A".to_vec());
    assert_eq!(r.read_chunk(8), Vec::<u8>::new());
    assert_eq!(r.read_chunk(0), Vec::<u8>::new());
}

#[test]
fn url_safe_base64_decoded_whole() {
    assert_eq!(base64_decode_url("QUJD"), Some(b"ABC".to_vec()));
    assert_eq!(base64_decode_url("QUI"), Some(b"AB".to_vec()));
    assert_eq!(base64_decode_url("QQ"), Some(b"A".to_vec()));
    assert_eq!(base64_decode_url(""), Some(Vec::new()));
    assert_eq!(base64_decode_url("w6k_Pg"), Some(b"\xc3\xa9?>".to_vec()));
    let long = b"{\"sub\":\"user-0001\",\"name\":\"AAAAAAAAAAAAAAAAAAAAAAAAAAAAAAAAAAAAAAAAAAAAAAAAAAAAAAAAAAAAAAAAAAAAAAAAAAAAAAAAAAAAAAAAAAAAAAAAAAAA\",\"exp\":2000000000}".to_vec();
    assert_eq!(base64_decode_url("eyJzdWIiOiJ1c2VyLTAwMDEiLCJuYW1lIjoiQUFBQUFBQUFBQUFBQUFBQUFBQUFBQUFBQUFBQUFBQUFBQUFBQUFBQUFBQUFBQUFBQUFBQUFBQUFBQUFBQUFBQUFBQUFBQUFBQUFBQUFBQUFBQUFBQUFBQUFBQUFBQUFBQUFBQSIsImV4cCI6MjAwMDAwMDAwMH0"), Some(long));
}

#[test]
fn expiry_has_a_minute_of_margin() {
    assert!(is_jwt_expired("h.eyJleHAiOiJzb29uIn0.s", 0));
    assert!(is_jwt_expired("h.bm90IGpzb24.s", 0));
    assert!(!is_jwt_expired("h.eyJleHAiOjYxfQ.s", 0));
    assert!(is_jwt_expired("h.eyJleHAiOjYwfQ.s", 0));
    assert!(!expired_at(Some(1000), 939));
    assert!(expired_at(Some(1000), 940));
    assert!(expired_at(None, 0));
    assert!(!is_jwt_expired("h.eyJleHAiOjIwMDAwMDAwMDB9.s", 1_700_000_000));
    assert!(is_jwt_expired("h.eyJleHAiOjF9.s", 1_700_000_000));
    assert!(is_jwt_expired("eyJleHAiOjIwMDAwMDAwMDB9", 0));
    assert!(is_jwt_expired("a.eyJleHAiOjIwMDAwMDAwMDB9.b.c", 0));
}

#[test]
fn long_unexpired_token_is_fresh() {
    let token = format!("h.{}.s", "eyJzdWIiOiJ1c2VyLTAwMDEiLCJuYW1lIjoiQUFBQUFBQUFBQUFBQUFBQUFBQUFBQUFBQUFBQUFBQUFBQUFBQUFBQUFBQUFBQUFBQUFBQUFBQUFBQUFBQUFBQUFBQUFBQUFBQUFBQUFBQUFBQUFBQUFBQUFBQUFBQUFBQUFBQSIsImV4cCI6MjAwMDAwMDAwMH0");
    assert!(!is_jwt_expired(&token, 1_700_000_000));
    assert!(is_jwt_expired(&token, 1_999_999_940));
}

#[test]
fn session_rows_round_trip() {
    let r = token_rows(&tokens());
    assert_eq!(
        r,
        rows(&[
            ("access_token", "acc"),
            ("refresh_token", "ref"),
            ("user_id", "u1"),
            ("email", "a@b.c"),
            ("display_name", "Ann"),
        ])
    );
    let t = tokens_from_rows(&r).unwrap();
    assert_eq!(t.access_token, "acc");
    assert_eq!(t.refresh_token, "ref");
    assert_eq!(t.user_id, "u1");
    assert_eq!(t.email, "a@b.c");
    assert_eq!(t.display_name, Some("Ann".to_string()));
    let mut old = rows(&[("access_token", "old"), ("display_name", "Bob"), ("user_id", "u0")]);
    let mut blank = tokens();
    blank.display_name = Some(String::new());
    old.extend(token_rows(&blank));
    let t = tokens_from_rows(&old).unwrap();
    assert_eq!(t.access_token, "acc");
    assert_eq!(t.user_id, "u1");
    assert_eq!(t.display_name, None);
}

#[test]
fn session_needs_both_tokens() {
    assert!(tokens_from_rows(&rows(&[("access_token", "a")])).is_none());
    assert!(tokens_from_rows(&rows(&[("access_token", ""), ("refresh_token", "r")])).is_none());
    let t = tokens_from_rows(&rows(&[("access_token", "a"), ("refresh_token", "r"), ("display_name", "")])).unwrap();
    assert_eq!(t.user_id, "");
    assert_eq!(t.display_name, None);
}

#[test]
fn token_updates_are_read_back() {
    let mut r = token_rows(&tokens());
    r.extend(token_pair_rows("acc2", "ref2"));
    let t = tokens_from_rows(&r).unwrap();
    assert_eq!(t.access_token, "acc2");
    assert_eq!(t.refresh_token, "ref2");
    assert_eq!(t.email, "a@b.c");
    let mut r = token_rows(&tokens());
    r.push(access_token_row("acc3"));
    assert_eq!(tokens_from_rows(&r).unwrap().access_token, "acc3");
}

#[test]
fn requests_of_the_backend() {
    assert_eq!(auth_header("tok"), "Bearer tok");
    let r = register("https://api.x");
    assert_eq!(r.method, ApiMethod::Post);
    assert_eq!(r.url, "https://api.x/api/v1/auth/register");
    assert!(r.authorization.is_none());
    assert_eq!(login("https://api.x").url, "https://api.x/api/v1/auth/login");
    assert_eq!(refresh_token("https://api.x").url, "https://api.x/api/v1/auth/refresh");
    let r = logout("https://api.x", "acc", "ref");
    assert_eq!(r.url, "https://api.x/api/v1/auth/logout");
    assert_eq!(r.authorization, Some("Bearer acc".to_string()));
    assert_eq!(r.refresh_token, Some("ref".to_string()));
    let r = get_me("https://api.x", "acc");
    assert_eq!(r.method, ApiMethod::Get);
    assert_eq!(r.url, "https://api.x/api/v1/auth/me");
    assert_eq!(get_sync_credentials("h", "a").url, "h/api/v1/sync/credentials");
    assert_eq!(report_sync("h", "a").url, "h/api/v1/sync/report");
    let r = check_remote_updates("h", "a", "2024-01-02T03:04:05");
    assert_eq!(r.method, ApiMethod::Get);
    assert_eq!(r.url, "h/api/v1/sync/updates?since=2024-01-02T03:04:05");
    assert_eq!(create_folder_remote("h", "a").url, "h/api/v1/folders");
    let r = delete_folder_remote("h", "a", "f1");
    assert_eq!(r.method, ApiMethod::Delete);
    assert_eq!(r.url, "h/api/v1/folders/f1");
    assert_eq!(r.authorization, Some("Bearer a".to_string()));
    let r = resolve_conflict_remote("h", "a", "c9");
    assert_eq!(r.method, ApiMethod::Patch);
    assert_eq!(r.url, "h/api/v1/conflicts/c9");
}

#[test]
fn folder_body_of_each_mode() {
    let b = create_folder_body("docs", Some("/home/u/docs"), FolderMode::Create);
    assert_eq!(b.remote_prefix, "docs");
    assert_eq!(b.local_path_hint, Some("/home/u/docs".to_string()));
    assert!(!b.force && !b.connect);
    let b = create_folder_body("docs", None, FolderMode::Replace);
    assert!(b.force && !b.connect);
    assert_eq!(b.local_path_hint, None);
    let b = create_folder_body("docs", None, FolderMode::Connect);
    assert!(!b.force && b.connect);
}

#[test]
fn failed_calls_are_reported_per_endpoint() {
    let m = |e: AppError| match e {
        AppError::Api(m) => m,
        _ => panic!("expected an API error"),
    };
    assert_eq!(m(status_error(Endpoint::Login, "401", "bad")), "Login failed (401): bad");
    assert_eq!(m(status_error(Endpoint::Register, "409", "taken")), "Register failed (409): taken");
    assert_eq!(m(status_error(Endpoint::Refresh, "401", "x")), "Token refresh failed (401): x");
    assert_eq!(m(status_error(Endpoint::Me, "500", "x")), "Failed to get user profile");
    assert_eq!(m(status_error(Endpoint::Credentials, "500", "x")), "Failed to get sync credentials: x");
    assert_eq!(m(status_error(Endpoint::Updates, "500", "x")), "Failed to check remote updates: x");
    assert_eq!(m(status_error(Endpoint::CreateFolder, "409", "x")), "Failed to create folder: x");
    assert_eq!(m(status_error(Endpoint::DeleteFolder, "404", "x")), "Failed to delete folder: x");
    assert_eq!(m(status_error(Endpoint::ResolveConflict, "404", "x")), "Failed to resolve conflict: x");
}

#[test]
fn refresh_replaces_or_keeps_the_session() {
    let pair = TokenPair { access_token: "n1".to_string(), refresh_token: "n2".to_string() };
    match refresh_outcome(tokens(), Ok(pair)) {
        Ok((t, store)) => {
            assert!(store);
            assert_eq!(t.access_token, "n1");
            assert_eq!(t.refresh_token, "n2");
            assert_eq!(t.user_id, "u1");
        }
        Err(_) => panic!("expected new tokens"),
    }
    match refresh_outcome(tokens(), Err(AppError::Api("Token refresh failed (401): no".to_string()))) {
        Err(AppError::Auth(m)) => assert_eq!(m, "Session expired, please sign in again"),
        _ => panic!("expected the session to end"),
    }
    match refresh_outcome(tokens(), Err(AppError::Api("Invalid or expired token".to_string()))) {
        Err(AppError::Auth(_)) => {}
        _ => panic!("expected the session to end"),
    }
    match refresh_outcome(tokens(), Err(AppError::Api("connection reset".to_string()))) {
        Ok((t, store)) => {
            assert!(!store);
            assert_eq!(t.access_token, "acc");
        }
        Err(_) => panic!("expected the old tokens"),
    }
    match refresh_outcome(tokens(), Err(AppError::General("401".to_string()))) {
        Ok((t, store)) => {
            assert!(!store);
            assert_eq!(t.refresh_token, "ref");
        }
        Err(_) => panic!("expected the old tokens"),
    }
}

#[test]
fn flags_may_come_as_numbers() {
    assert!(flag_from_value(FlagValue::Bool(true)));
    assert!(!flag_from_value(FlagValue::Bool(false)));
    assert!(flag_from_value(FlagValue::Number(Some(1))));
    assert!(flag_from_value(FlagValue::Number(Some(-3))));
    assert!(!flag_from_value(FlagValue::Number(Some(0))));
    assert!(!flag_from_value(FlagValue::Number(None)));
    assert!(!flag_from_value(FlagValue::Other));
}

#[test]
fn fresh_sessions_are_used_and_stale_ones_refreshed() {
    assert!(matches!(freshness_plan(None, true), FreshnessPlan::NoSession));
    match freshness_plan(Some(tokens()), false) {
        FreshnessPlan::Use(t) => assert_eq!(t.access_token, "acc"),
        _ => panic!("expected the session as it is"),
    }
    match freshness_plan(Some(tokens()), true) {
        FreshnessPlan::Refresh(t) => assert_eq!(t.refresh_token, "ref"),
        _ => panic!("expected a refresh"),
    }
}

#[test]
fn base64_round_trips() {
    assert_eq!(base64_decode_url("-vv8_f7_-_--Pj8"), Some(vec![250, 251, 252, 253, 254, 255, 251, 255, 190, 62, 63]));
    let mut r = B64Reader::new(b"+vv8/f7/+/++Pj8=".to_vec());
    let mut all = Vec::new();
    loop {
        let c = r.read_chunk(1);
        if c.is_empty() {
            break;
        }
        all.extend(c);
    }
    assert_eq!(all, vec![250, 251, 252, 253, 254, 255, 251, 255, 190, 62, 63]);
    assert_eq!(base64_decode_url("-vv8_f7_-_--Pg"), Some(vec![250, 251, 252, 253, 254, 255, 251, 255, 190, 62]));
    let mut r = B64Reader::new(b"+vv8/f7/+/++Pg==".to_vec());
    let mut all = Vec::new();
    loop {
        let c = r.read_chunk(1);
        if c.is_empty() {
            break;
        }
        all.extend(c);
    }
    assert_eq!(all, vec![250, 251, 252, 253, 254, 255, 251, 255, 190, 62]);
    assert_eq!(base64_decode_url("-vv8_f7_-_--"), Some(vec![250, 251, 252, 253, 254, 255, 251, 255, 190]));
    let mut r = B64Reader::new(b"+vv8/f7/+/++".to_vec());
    let mut all = Vec::new();
    loop {
        let c = r.read_chunk(1);
        if c.is_empty() {
            break;
        }
        all.extend(c);
    }
    assert_eq!(all, vec![250, 251, 252, 253, 254, 255, 251, 255, 190]);
}
