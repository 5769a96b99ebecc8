//! Sign-up, sign-in and the signed-in state shown to the user.
use vstd::prelude::*;

use crate::auth::client::AuthResponse;
use crate::auth::token_store::{AuthTokens, AuthTokensView};
use crate::error::AppError;
use crate::rclone::types::opt_view;

verus! {

/// Whether a user is signed in, and who.
pub struct AuthStatus {
    pub logged_in: bool,
    pub user: Option<UserInfo>,
}

/// The signed-in user as the interface shows it.
pub struct UserInfo {
    pub id: String,
    pub email: String,
    pub display_name: Option<String>,
}

/// A user shown as the session `t` names them.
pub open spec fn shows(u: UserInfo, t: AuthTokensView) -> bool {
    &&& u.id@ == t.user_id
    &&& u.email@ == t.email
    &&& opt_view(u.display_name) == t.display_name
}

/// The user a session belongs to.
pub fn user_info(tokens: AuthTokens) -> (u: UserInfo)
    ensures
        shows(u, tokens@),
{
    UserInfo { id: tokens.user_id, email: tokens.email, display_name: tokens.display_name }
}

/// The session a successful sign-up or sign-in stores, and the user it
/// shows.
pub fn session_from_response(resp: AuthResponse) -> (r: (AuthTokens, UserInfo))
    ensures
        r.0@ == (AuthTokensView {
            access_token: resp.access_token@,
            refresh_token: resp.refresh_token@,
            user_id: resp.user.id@,
            email: resp.user.email@,
            display_name: opt_view(resp.user.display_name),
        }),
        shows(r.1, r.0@),
{
    let user = UserInfo {
        id: resp.user.id.clone(),
        email: resp.user.email.clone(),
        display_name: match &resp.user.display_name {
            Some(d) => Some(d.clone()),
            None => None,
        },
    };
    let tokens = AuthTokens {
        access_token: resp.access_token,
        refresh_token: resp.refresh_token,
        user_id: resp.user.id,
        email: resp.user.email,
        display_name: resp.user.display_name,
    };
    (tokens, user)
}

/// The signed-in state, from the stored session and what the freshness check
/// of its token returned (which is not looked at where nothing is stored),
/// with whether the stored session is to be cleared. A refused refresh
/// (an `Auth` error) signs the user out and clears the session; any other
/// failure keeps the user signed in as stored, so that a network fault does
/// not sign anybody out.
pub fn auth_status(stored: Option<AuthTokens>, check: Result<Option<AuthTokens>, AppError>) -> (r: (
    AuthStatus,
    bool,
))
    ensures
        match stored {
            None => !r.0.logged_in && r.0.user is None && !r.1,
            Some(t) => match check {
                Ok(Some(f)) => r.0.logged_in && (r.0.user matches Some(u) && shows(u, f@)) && !r.1,
                Ok(None) => !r.0.logged_in && r.0.user is None && !r.1,
                Err(AppError::Auth(_)) => !r.0.logged_in && r.0.user is None && r.1,
                Err(_) => r.0.logged_in && (r.0.user matches Some(u) && shows(u, t@)) && !r.1,
            },
        },
{
    match stored {
        None => (AuthStatus { logged_in: false, user: None }, false),
        Some(t) => match check {
            Ok(Some(f)) => (AuthStatus { logged_in: true, user: Some(user_info(f)) }, false),
            Ok(None) => (AuthStatus { logged_in: false, user: None }, false),
            Err(AppError::Auth(_)) => (AuthStatus { logged_in: false, user: None }, true),
            Err(_) => (AuthStatus { logged_in: true, user: Some(user_info(t)) }, false),
        },
    }
}

} // verus!
