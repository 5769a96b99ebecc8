//! The session tokens as rows of the `auth` key/value table.
use vstd::prelude::*;

use crate::text::{string_of, owned};

verus! {

/// The signed-in session.
pub struct AuthTokens {
    pub access_token: String,
    pub refresh_token: String,
    pub user_id: String,
    pub email: String,
    pub display_name: Option<String>,
}

pub struct AuthTokensView {
    pub access_token: Seq<char>,
    pub refresh_token: Seq<char>,
    pub user_id: Seq<char>,
    pub email: Seq<char>,
    pub display_name: Option<Seq<char>>,
}

impl View for AuthTokens {
    type V = AuthTokensView;

    open spec fn view(&self) -> AuthTokensView {
        AuthTokensView {
            access_token: self.access_token@,
            refresh_token: self.refresh_token@,
            user_id: self.user_id@,
            email: self.email@,
            display_name: match self.display_name {
                Some(d) => Some(d@),
                None => None,
            },
        }
    }
}

pub open spec fn rows_view(rows: Seq<(String, String)>) -> Seq<(Seq<char>, Seq<char>)> {
    rows.map_values(|r: (String, String)| (r.0@, r.1@))
}

/// The rows written for a session; a missing display name is stored empty.
pub open spec fn spec_token_rows(t: AuthTokensView) -> Seq<(Seq<char>, Seq<char>)> {
    seq![
        ("access_token"@, t.access_token),
        ("refresh_token"@, t.refresh_token),
        ("user_id"@, t.user_id),
        ("email"@, t.email),
        (
            "display_name"@,
            match t.display_name {
                Some(d) => d,
                None => Seq::empty(),
            },
        ),
    ]
}

/// The value of the last row with `key`, as a map filled row by row keeps it.
pub open spec fn row_value(rows: Seq<(Seq<char>, Seq<char>)>, key: Seq<char>) -> Option<Seq<char>>
    decreases rows.len(),
{
    if rows.len() == 0 {
        None
    } else if rows.last().0 == key {
        Some(rows.last().1)
    } else {
        row_value(rows.drop_last(), key)
    }
}

/// The session the rows hold: none unless both tokens are there and non-empty;
/// user id and email default to empty, an empty display name counts as none.
pub open spec fn spec_tokens_from_rows(rows: Seq<(Seq<char>, Seq<char>)>) -> Option<
    AuthTokensView,
> {
    match (row_value(rows, "access_token"@), row_value(rows, "refresh_token"@)) {
        (Some(a), Some(r)) => if a.len() > 0 && r.len() > 0 {
            Some(
                AuthTokensView {
                    access_token: a,
                    refresh_token: r,
                    user_id: match row_value(rows, "user_id"@) {
                        Some(u) => u,
                        None => Seq::empty(),
                    },
                    email: match row_value(rows, "email"@) {
                        Some(e) => e,
                        None => Seq::empty(),
                    },
                    display_name: match row_value(rows, "display_name"@) {
                        Some(d) => if d.len() > 0 {
                            Some(d)
                        } else {
                            None
                        },
                        None => None,
                    },
                },
            )
        } else {
            None
        },
        _ => None,
    }
}


/// The `(key, value)` rows that store a session.
pub fn token_rows(tokens: &AuthTokens) -> (rows: Vec<(String, String)>)
    ensures
        rows_view(rows@) == spec_token_rows(tokens@),
{
    let mut rows: Vec<(String, String)> = Vec::new();
    rows.push((owned("access_token"), tokens.access_token.clone()));
    rows.push((owned("refresh_token"), tokens.refresh_token.clone()));
    rows.push((owned("user_id"), tokens.user_id.clone()));
    rows.push((owned("email"), tokens.email.clone()));
    let dn = match &tokens.display_name {
        Some(d) => d.clone(),
        None => string_of(Vec::<char>::new().as_slice()),
    };
    rows.push((owned("display_name"), dn));
    assert(rows_view(rows@) =~= spec_token_rows(tokens@));
    rows
}

fn lookup_row(rows: &Vec<(String, String)>, key: &str) -> (r: Option<String>)
    ensures
        match r {
            Some(v) => row_value(rows_view(rows@), key@) == Some(v@),
            None => row_value(rows_view(rows@), key@) is None,
        },
{
    let k = owned(key);
    let mut i: usize = rows.len();
    assert(rows_view(rows@).take(rows@.len() as int) =~= rows_view(rows@));
    while i > 0
        invariant
            i <= rows@.len(),
            k@ == key@,
            row_value(rows_view(rows@), key@) == row_value(rows_view(rows@).take(i as int), key@),
        decreases i,
    {
        let ghost pre = rows_view(rows@).take(i as int);
        assert(pre.drop_last() =~= rows_view(rows@).take(i - 1));
        assert(pre.last() == (rows@[i - 1].0@, rows@[i - 1].1@));
        if rows[i - 1].0 == k {
            return Some(rows[i - 1].1.clone());
        }
        i -= 1;
    }
    None
}

/// The session stored in the rows of the `auth` table, if any (see
/// `spec_tokens_from_rows`).
pub fn tokens_from_rows(rows: &Vec<(String, String)>) -> (r: Option<AuthTokens>)
    ensures
        match r {
            Some(t) => spec_tokens_from_rows(rows_view(rows@)) == Some(t@),
            None => spec_tokens_from_rows(rows_view(rows@)) is None,
        },
{
    proof {
        assert(rows_view(rows@).take(rows@.len() as int) =~= rows_view(rows@));
    }
    let access_token = match lookup_row(rows, "access_token") {
        Some(t) => t,
        None => return None,
    };
    if access_token.as_str().is_empty() {
        return None;
    }
    let refresh_token = match lookup_row(rows, "refresh_token") {
        Some(t) => t,
        None => return None,
    };
    if refresh_token.as_str().is_empty() {
        return None;
    }
    let user_id = match lookup_row(rows, "user_id") {
        Some(u) => u,
        None => string_of(Vec::<char>::new().as_slice()),
    };
    let email = match lookup_row(rows, "email") {
        Some(e) => e,
        None => string_of(Vec::<char>::new().as_slice()),
    };
    let display_name = match lookup_row(rows, "display_name") {
        Some(d) => if d.as_str().is_empty() {
            None
        } else {
            Some(d)
        },
        None => None,
    };
    Some(AuthTokens { access_token, refresh_token, user_id, email, display_name })
}

/// The rows of an access-token update, and of an update of both tokens.
pub fn access_token_row(access_token: &str) -> (row: (String, String))
    ensures
        row.0@ == "access_token"@,
        row.1@ == access_token@,
{
    (owned("access_token"), owned(access_token))
}

pub fn token_pair_rows(access_token: &str, refresh_token: &str) -> (rows: Vec<(String, String)>)
    ensures
        rows_view(rows@) == seq![("access_token"@, access_token@), ("refresh_token"@, refresh_token@)],
{
    let mut rows: Vec<(String, String)> = Vec::new();
    rows.push((owned("access_token"), owned(access_token)));
    rows.push((owned("refresh_token"), owned(refresh_token)));
    assert(rows_view(rows@) =~= seq![
        ("access_token"@, access_token@),
        ("refresh_token"@, refresh_token@),
    ]);
    rows
}

proof fn lemma_row_value_push(
    rows: Seq<(Seq<char>, Seq<char>)>,
    row: (Seq<char>, Seq<char>),
    key: Seq<char>,
)
    ensures
        row.0 == key ==> row_value(rows.push(row), key) == Some(row.1),
        row.0 != key ==> row_value(rows.push(row), key) == row_value(rows, key),
{
    assert(rows.push(row).drop_last() =~= rows);
}

proof fn lemma_keys_differ()
    ensures
        "access_token"@ != "refresh_token"@,
        "access_token"@ != "user_id"@,
        "access_token"@ != "email"@,
        "access_token"@ != "display_name"@,
        "refresh_token"@ != "user_id"@,
        "refresh_token"@ != "email"@,
        "refresh_token"@ != "display_name"@,
        "user_id"@ != "email"@,
        "user_id"@ != "display_name"@,
        "email"@ != "display_name"@,
{
    reveal_strlit("access_token");
    reveal_strlit("refresh_token");
    reveal_strlit("user_id");
    reveal_strlit("email");
    reveal_strlit("display_name");
    assert("access_token"@[0] != "display_name"@[0]);
    assert("refresh_token"@.len() == 13);
    assert("user_id"@.len() == 7);
    assert("email"@.len() == 5);
}

/// The session as it reads back: an empty display name reads as none.
pub open spec fn stored_session(t: AuthTokensView) -> AuthTokensView {
    AuthTokensView {
        display_name: match t.display_name {
            Some(d) => if d.len() > 0 {
                Some(d)
            } else {
                None
            },
            None => None,
        },
        ..t
    }
}

/// Reading back the rows written for a session, over whatever rows were there
/// before, gives the session again (an empty display name as none), where
/// both tokens are non-empty.
pub proof fn law_tokens_round_trip(rows: Seq<(Seq<char>, Seq<char>)>, t: AuthTokensView)
    requires
        t.access_token.len() > 0,
        t.refresh_token.len() > 0,
    ensures
        spec_tokens_from_rows(rows + spec_token_rows(t)) == Some(stored_session(t)),
{
    lemma_keys_differ();
    let dn = match t.display_name {
        Some(d) => d,
        None => Seq::empty(),
    };
    let r0 = rows;
    let r1 = r0.push(("access_token"@, t.access_token));
    let r2 = r1.push(("refresh_token"@, t.refresh_token));
    let r3 = r2.push(("user_id"@, t.user_id));
    let r4 = r3.push(("email"@, t.email));
    let r5 = r4.push(("display_name"@, dn));
    assert(r5 =~= rows + spec_token_rows(t));
    let keys = seq!["access_token"@, "refresh_token"@, "user_id"@, "email"@, "display_name"@];
    assert forall|i: int| 0 <= i < 5 implies row_value(r5, #[trigger] keys[i]) == Some(
        seq![t.access_token, t.refresh_token, t.user_id, t.email, dn][i],
    ) by {
        let k = keys[i];
        lemma_row_value_push(r0, ("access_token"@, t.access_token), k);
        lemma_row_value_push(r1, ("refresh_token"@, t.refresh_token), k);
        lemma_row_value_push(r2, ("user_id"@, t.user_id), k);
        lemma_row_value_push(r3, ("email"@, t.email), k);
        lemma_row_value_push(r4, ("display_name"@, dn), k);
    }
    assert(keys[0] == "access_token"@);
    assert(keys[1] == "refresh_token"@);
    assert(keys[2] == "user_id"@);
    assert(keys[3] == "email"@);
    assert(keys[4] == "display_name"@);
}

/// After an update of both tokens the session keeps its user and holds the new
/// tokens, where both are non-empty.
pub proof fn law_token_update_read_back(
    rows: Seq<(Seq<char>, Seq<char>)>,
    access_token: Seq<char>,
    refresh_token: Seq<char>,
)
    requires
        spec_tokens_from_rows(rows) is Some,
        access_token.len() > 0,
        refresh_token.len() > 0,
    ensures
        spec_tokens_from_rows(rows + seq![("access_token"@, access_token), ("refresh_token"@, refresh_token)])
            == Some(
            AuthTokensView {
                access_token,
                refresh_token,
                ..spec_tokens_from_rows(rows).unwrap()
            },
        ),
{
    lemma_keys_differ();
    let r1 = rows.push(("access_token"@, access_token));
    let upd = r1.push(("refresh_token"@, refresh_token));
    assert(upd =~= rows + seq![("access_token"@, access_token), ("refresh_token"@, refresh_token)]);
    let keys = seq!["access_token"@, "refresh_token"@, "user_id"@, "email"@, "display_name"@];
    assert forall|i: int| 2 <= i < 5 implies row_value(upd, #[trigger] keys[i]) == row_value(
        rows,
        keys[i],
    ) by {
        lemma_row_value_push(rows, ("access_token"@, access_token), keys[i]);
        lemma_row_value_push(r1, ("refresh_token"@, refresh_token), keys[i]);
    }
    lemma_row_value_push(rows, ("access_token"@, access_token), "access_token"@);
    lemma_row_value_push(r1, ("refresh_token"@, refresh_token), "access_token"@);
    lemma_row_value_push(r1, ("refresh_token"@, refresh_token), "refresh_token"@);
    assert(keys[2] == "user_id"@);
    assert(keys[3] == "email"@);
    assert(keys[4] == "display_name"@);
}

} // verus!
