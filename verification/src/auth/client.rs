//! Requests to the backend API and the reading of its answers.
use vstd::prelude::*;

use crate::error::AppError;
use crate::text::{chars_of, concat, has_text, contains, string_of, owned};
use super::token_store::{AuthTokens, AuthTokensView};

verus! {

/// A flag as the backend sends it: its database stores booleans as the
/// integers 0 and 1, so a flag may come as a JSON boolean or a number (an
/// integer that fits an `i64`, or another number), or as something else.
pub enum FlagValue {
    Bool(bool),
    Number(Option<i64>),
    Other,
}

/// A flag's truth: a boolean as it is, a number when it is a non-zero
/// integer, anything else false.
pub fn flag_from_value(v: FlagValue) -> (b: bool)
    ensures
        b == match v {
            FlagValue::Bool(x) => x,
            FlagValue::Number(Some(n)) => n != 0,
            FlagValue::Number(None) => false,
            FlagValue::Other => false,
        },
{
    match v {
        FlagValue::Bool(x) => x,
        FlagValue::Number(n) => match n {
            Some(i) => i != 0,
            None => false,
        },
        FlagValue::Other => false,
    }
}

pub struct UserProfile {
    pub id: String,
    pub email: String,
    pub display_name: Option<String>,
    pub created_at: Option<String>,
}

pub struct AuthResponse {
    pub user: UserProfile,
    pub access_token: String,
    pub refresh_token: String,
}

pub struct TokenPair {
    pub access_token: String,
    pub refresh_token: String,
}

/// Credentials for one folder's part of the bucket.
pub struct SyncCredentials {
    pub access_key_id: String,
    pub secret_access_key: String,
    pub endpoint: String,
    pub bucket: String,
    pub remote_path: String,
    pub needs_resync: bool,
}

/// What a device tells the backend about one sync.
pub struct SyncReport {
    pub folder_id: String,
    pub success: bool,
    pub files_transferred: u64,
    pub files_deleted: u64,
    pub duration_ms: u64,
    pub errors: Vec<String>,
    pub conflicts: Vec<ConflictReport>,
}

pub struct ConflictReport {
    pub file_path: String,
    pub local_version: Option<String>,
    pub remote_version: Option<String>,
}

pub struct RemoteFolder {
    pub id: String,
    pub user_id: String,
    pub local_path_hint: Option<String>,
    pub remote_prefix: String,
    pub mode: String,
    pub last_sync_at: Option<String>,
    pub status: String,
    pub is_enabled: bool,
    pub needs_resync: bool,
    pub created_at: String,
}

pub struct RemoteConflict {
    pub id: String,
    pub folder_id: String,
    pub file_path: String,
    pub local_version: Option<String>,
    pub remote_version: Option<String>,
    pub detected_at: String,
    pub resolved: bool,
    pub resolution: Option<String>,
}

pub struct RemoteSyncLog {
    pub id: String,
    pub folder_id: String,
    pub timestamp: String,
    pub action: String,
    pub status: String,
    pub message: Option<String>,
    pub duration_ms: Option<i64>,
}

/// Answer of the updates endpoint.
pub struct RemoteUpdatesResponse {
    pub updated_folders: Vec<UpdatedFolder>,
}

pub struct UpdatedFolder {
    pub id: String,
    pub updated_at: String,
}

/// How a folder is created or connected on the backend.
#[derive(Debug, Clone, Copy, PartialEq, Eq, Structural)]
pub enum FolderMode {
    /// Create a new folder; refused where one with the same prefix exists.
    Create,
    /// Connect to the existing folder with that prefix.
    Connect,
    /// Delete the existing folder's data and create it again.
    Replace,
}


fn join(a: &str, b: &str) -> (r: String)
    ensures
        r@ == a@ + b@,
{
    string_of(concat(chars_of(a).as_slice(), chars_of(b).as_slice()).as_slice())
}

/// The value of an `Authorization` header for a bearer token.
pub fn auth_header(token: &str) -> (r: String)
    ensures
        r@ == "Bearer "@ + token@,
{
    join("Bearer ", token)
}

/// An HTTP method of the backend API.
#[derive(Debug, Clone, Copy, PartialEq, Eq, Structural)]
pub enum ApiMethod {
    Get,
    Post,
    Patch,
    Delete,
}

/// A request to the backend, without its JSON body.
pub struct ApiRequest {
    pub method: ApiMethod,
    pub url: String,
    /// Value of the `Authorization` header, if any.
    pub authorization: Option<String>,
    /// Value of the `X-Refresh-Token` header, if any.
    pub refresh_token: Option<String>,
}

pub open spec fn api_request(
    r: ApiRequest,
    method: ApiMethod,
    url: Seq<char>,
    bearer: Option<Seq<char>>,
) -> bool {
    &&& r.method == method
    &&& r.url@ == url
    &&& match bearer {
        Some(t) => r.authorization matches Some(a) && a@ == "Bearer "@ + t,
        None => r.authorization is None,
    }
    &&& r.refresh_token is None
}

fn request(method: ApiMethod, base_url: &str, path: &str, token: Option<&str>) -> (r: ApiRequest)
    ensures
        api_request(
            r,
            method,
            base_url@ + path@,
            match token {
                Some(t) => Some(t@),
                None => None,
            },
        ),
{
    ApiRequest {
        method,
        url: join(base_url, path),
        authorization: match token {
            Some(t) => Some(auth_header(t)),
            None => None,
        },
        refresh_token: None,
    }
}

/// `POST /api/v1/auth/register`; the body holds email and password.
pub fn register(base_url: &str) -> (r: ApiRequest)
    ensures
        api_request(r, ApiMethod::Post, base_url@ + "/api/v1/auth/register"@, None),
{
    request(ApiMethod::Post, base_url, "/api/v1/auth/register", None)
}

/// `POST /api/v1/auth/login`; the body holds email and password.
pub fn login(base_url: &str) -> (r: ApiRequest)
    ensures
        api_request(r, ApiMethod::Post, base_url@ + "/api/v1/auth/login"@, None),
{
    request(ApiMethod::Post, base_url, "/api/v1/auth/login", None)
}

/// `POST /api/v1/auth/refresh`; the body holds the refresh token.
pub fn refresh_token(base_url: &str) -> (r: ApiRequest)
    ensures
        api_request(r, ApiMethod::Post, base_url@ + "/api/v1/auth/refresh"@, None),
{
    request(ApiMethod::Post, base_url, "/api/v1/auth/refresh", None)
}

/// `POST /api/v1/auth/logout` with the access token as bearer and the refresh
/// token in `X-Refresh-Token`. Signing out succeeds whatever the server answers.
pub fn logout(base_url: &str, access_token: &str, refresh_token: &str) -> (r: ApiRequest)
    ensures
        r.method == ApiMethod::Post,
        r.url@ == base_url@ + "/api/v1/auth/logout"@,
        r.authorization matches Some(a) && a@ == "Bearer "@ + access_token@,
        r.refresh_token matches Some(t) && t@ == refresh_token@,
{
    let mut r = request(ApiMethod::Post, base_url, "/api/v1/auth/logout", Some(access_token));
    r.refresh_token = Some(owned(refresh_token));
    r
}

/// `GET /api/v1/auth/me`.
pub fn get_me(base_url: &str, access_token: &str) -> (r: ApiRequest)
    ensures
        api_request(r, ApiMethod::Get, base_url@ + "/api/v1/auth/me"@, Some(access_token@)),
{
    request(ApiMethod::Get, base_url, "/api/v1/auth/me", Some(access_token))
}

/// `POST /api/v1/sync/credentials`; the body holds the folder id.
pub fn get_sync_credentials(base_url: &str, access_token: &str) -> (r: ApiRequest)
    ensures
        api_request(r, ApiMethod::Post, base_url@ + "/api/v1/sync/credentials"@, Some(access_token@)),
{
    request(ApiMethod::Post, base_url, "/api/v1/sync/credentials", Some(access_token))
}

/// `POST /api/v1/sync/report`; the body is the `SyncReport`.
pub fn report_sync(base_url: &str, access_token: &str) -> (r: ApiRequest)
    ensures
        api_request(r, ApiMethod::Post, base_url@ + "/api/v1/sync/report"@, Some(access_token@)),
{
    request(ApiMethod::Post, base_url, "/api/v1/sync/report", Some(access_token))
}

/// `GET /api/v1/sync/updates?since=<since>`.
pub fn check_remote_updates(base_url: &str, access_token: &str, since: &str) -> (r: ApiRequest)
    ensures
        api_request(
            r,
            ApiMethod::Get,
            base_url@ + "/api/v1/sync/updates?since="@ + since@,
            Some(access_token@),
        ),
{
    let path = join("/api/v1/sync/updates?since=", since);
    assert(base_url@ + path@ =~= base_url@ + "/api/v1/sync/updates?since="@ + since@);
    request(ApiMethod::Get, base_url, path.as_str(), Some(access_token))
}

/// The JSON body of a request to create a folder: `force` replaces an
/// existing folder with the prefix, `connect` joins it.
pub struct CreateFolderBody {
    pub remote_prefix: String,
    pub local_path_hint: Option<String>,
    pub force: bool,
    pub connect: bool,
}

/// The body of a request to create or connect a folder in `mode`.
pub fn create_folder_body(remote_prefix: &str, local_path_hint: Option<&str>, mode: FolderMode) -> (b:
    CreateFolderBody)
    ensures
        b.remote_prefix@ == remote_prefix@,
        b.local_path_hint matches Some(h) ==> local_path_hint matches Some(l) && h@ == l@,
        b.local_path_hint is None ==> local_path_hint is None,
        b.force == (mode == FolderMode::Replace),
        b.connect == (mode == FolderMode::Connect),
{
    CreateFolderBody {
        remote_prefix: owned(remote_prefix),
        local_path_hint: match local_path_hint {
            Some(h) => Some(owned(h)),
            None => None,
        },
        force: mode == FolderMode::Replace,
        connect: mode == FolderMode::Connect,
    }
}

/// `POST /api/v1/folders`; the body holds the prefix, the path hint and the mode.
pub fn create_folder_remote(base_url: &str, access_token: &str) -> (r: ApiRequest)
    ensures
        api_request(r, ApiMethod::Post, base_url@ + "/api/v1/folders"@, Some(access_token@)),
{
    request(ApiMethod::Post, base_url, "/api/v1/folders", Some(access_token))
}

/// `DELETE /api/v1/folders/<folder_id>`.
pub fn delete_folder_remote(base_url: &str, access_token: &str, folder_id: &str) -> (r: ApiRequest)
    ensures
        api_request(
            r,
            ApiMethod::Delete,
            base_url@ + "/api/v1/folders/"@ + folder_id@,
            Some(access_token@),
        ),
{
    let path = join("/api/v1/folders/", folder_id);
    assert(base_url@ + path@ =~= base_url@ + "/api/v1/folders/"@ + folder_id@);
    request(ApiMethod::Delete, base_url, path.as_str(), Some(access_token))
}

/// `PATCH /api/v1/conflicts/<conflict_id>`; the body holds the resolution.
pub fn resolve_conflict_remote(base_url: &str, access_token: &str, conflict_id: &str) -> (r:
    ApiRequest)
    ensures
        api_request(
            r,
            ApiMethod::Patch,
            base_url@ + "/api/v1/conflicts/"@ + conflict_id@,
            Some(access_token@),
        ),
{
    let path = join("/api/v1/conflicts/", conflict_id);
    assert(base_url@ + path@ =~= base_url@ + "/api/v1/conflicts/"@ + conflict_id@);
    request(ApiMethod::Patch, base_url, path.as_str(), Some(access_token))
}

/// The backend calls whose failures are reported.
#[derive(Debug, Clone, Copy, PartialEq, Eq, Structural)]
pub enum Endpoint {
    Register,
    Login,
    Refresh,
    Me,
    Credentials,
    Updates,
    CreateFolder,
    DeleteFolder,
    ResolveConflict,
}

pub open spec fn spec_status_error(endpoint: Endpoint, status: Seq<char>, body: Seq<char>) -> Seq<
    char,
> {
    match endpoint {
        Endpoint::Register => "Register failed ("@ + status + "): "@ + body,
        Endpoint::Login => "Login failed ("@ + status + "): "@ + body,
        Endpoint::Refresh => "Token refresh failed ("@ + status + "): "@ + body,
        Endpoint::Me => "Failed to get user profile"@,
        Endpoint::Credentials => "Failed to get sync credentials: "@ + body,
        Endpoint::Updates => "Failed to check remote updates: "@ + body,
        Endpoint::CreateFolder => "Failed to create folder: "@ + body,
        Endpoint::DeleteFolder => "Failed to delete folder: "@ + body,
        Endpoint::ResolveConflict => "Failed to resolve conflict: "@ + body,
    }
}

/// The error of a call the backend answered with a non-success `status` and
/// `body`.
pub fn status_error(endpoint: Endpoint, status: &str, body: &str) -> (e: AppError)
    ensures
        e matches AppError::Api(m) && m@ == spec_status_error(endpoint, status@, body@),
{
    let m = match endpoint {
        Endpoint::Register => join(join(join("Register failed (", status).as_str(), "): ").as_str(), body),
        Endpoint::Login => join(join(join("Login failed (", status).as_str(), "): ").as_str(), body),
        Endpoint::Refresh => join(join(join("Token refresh failed (", status).as_str(), "): ").as_str(), body),
        Endpoint::Me => owned("Failed to get user profile"),
        Endpoint::Credentials => join("Failed to get sync credentials: ", body),
        Endpoint::Updates => join("Failed to check remote updates: ", body),
        Endpoint::CreateFolder => join("Failed to create folder: ", body),
        Endpoint::DeleteFolder => join("Failed to delete folder: ", body),
        Endpoint::ResolveConflict => join("Failed to resolve conflict: ", body),
    };
    AppError::Api(m)
}

/// What keeping the session fresh does next.
pub enum FreshnessPlan {
    /// Nobody is signed in.
    NoSession,
    /// The access token is still good: use the session as it is.
    Use(AuthTokens),
    /// The access token has expired: refresh it (see `refresh_outcome`).
    Refresh(AuthTokens),
}

/// The first step of keeping the session fresh, from the stored session and
/// whether its access token has expired.
pub fn freshness_plan(stored: Option<AuthTokens>, expired: bool) -> (p: FreshnessPlan)
    ensures
        match stored {
            None => p is NoSession,
            Some(t) => if expired {
                p matches FreshnessPlan::Refresh(u) && u == t
            } else {
                p matches FreshnessPlan::Use(u) && u == t
            },
        },
{
    match stored {
        None => FreshnessPlan::NoSession,
        Some(t) => if expired {
            FreshnessPlan::Refresh(t)
        } else {
            FreshnessPlan::Use(t)
        },
    }
}

/// Whether a failed refresh means the refresh token itself was refused.
pub open spec fn refresh_rejected(e: AppError) -> bool {
    e matches AppError::Api(m) && (contains(m@, "401"@) || contains(m@, "Invalid or expired"@))
}

/// The session after a refresh attempt: new tokens replace the old ones (and
/// must be stored); a refused refresh token ends the session; any other failure
/// keeps the old tokens, so that a network fault does not sign the user out.
pub fn refresh_outcome(tokens: AuthTokens, outcome: Result<TokenPair, AppError>) -> (r: Result<
    (AuthTokens, bool),
    AppError,
>)
    ensures
        match outcome {
            Ok(pair) => r matches Ok((t, store)) && store && t@ == (AuthTokensView {
                access_token: pair.access_token@,
                refresh_token: pair.refresh_token@,
                ..tokens@
            }),
            Err(e) => if refresh_rejected(e) {
                r matches Err(AppError::Auth(m)) && m@ == "Session expired, please sign in again"@
            } else {
                r matches Ok((t, store)) && !store && t@ == tokens@
            },
        },
{
    match outcome {
        Ok(pair) => Ok(
            (
                AuthTokens {
                    access_token: pair.access_token,
                    refresh_token: pair.refresh_token,
                    ..tokens
                },
                true,
            ),
        ),
        Err(AppError::Api(m)) => {
            let mc = chars_of(m.as_str());
            if has_text(mc.as_slice(), "401") || has_text(mc.as_slice(), "Invalid or expired") {
                Err(AppError::Auth(owned("Session expired, please sign in again")))
            } else {
                Ok((tokens, false))
            }
        },
        Err(_) => Ok((tokens, false)),
    }
}

} // verus!
