//! The user's settings as rows of the `settings` key/value table.
use vstd::prelude::*;

use crate::auth::token_store::{row_value, rows_view};
use crate::text::{
    chars_of, lemma_signed_round_trip, owned, parse_signed, parse_signed_exec,
    signed_decimal, signed_decimal_exec, string_of, text_eq,
};

verus! {

pub struct Settings {
    pub api_base_url: String,
    pub sync_interval_minutes: i64,
    pub auto_start: bool,
}

pub struct SettingsView {
    pub api_base_url: Seq<char>,
    pub sync_interval_minutes: int,
    pub auto_start: bool,
}

impl View for Settings {
    type V = SettingsView;

    open spec fn view(&self) -> SettingsView {
        SettingsView {
            api_base_url: self.api_base_url@,
            sync_interval_minutes: self.sync_interval_minutes as int,
            auto_start: self.auto_start,
        }
    }
}

pub open spec fn default_settings() -> SettingsView {
    SettingsView {
        api_base_url: "https://api.synchora.cc"@,
        sync_interval_minutes: 5,
        auto_start: false,
    }
}

impl Default for Settings {
    fn default() -> (s: Self)
        ensures
            s@ == default_settings(),
    {
        Settings {
            api_base_url: owned("https://api.synchora.cc"),
            sync_interval_minutes: 5,
            auto_start: false,
        }
    }
}

pub open spec fn bool_text(b: bool) -> Seq<char> {
    if b {
        "true"@
    } else {
        "false"@
    }
}

/// The rows written for the settings.
pub open spec fn spec_settings_rows(s: SettingsView) -> Seq<(Seq<char>, Seq<char>)> {
    seq![
        ("api_base_url"@, s.api_base_url),
        ("sync_interval_minutes"@, signed_decimal(s.sync_interval_minutes)),
        ("auto_start"@, bool_text(s.auto_start)),
    ]
}

/// The settings the rows hold: each known key's last row sets its field, an
/// interval that does not parse counts as 5 minutes, auto-start is on only
/// for `"true"`; what no row sets keeps its default.
pub open spec fn spec_settings_from_rows(rows: Seq<(Seq<char>, Seq<char>)>) -> SettingsView {
    let d = default_settings();
    SettingsView {
        api_base_url: match row_value(rows, "api_base_url"@) {
            Some(v) => v,
            None => d.api_base_url,
        },
        sync_interval_minutes: match row_value(rows, "sync_interval_minutes"@) {
            Some(v) => match parse_signed(v) {
                Some(n) => n,
                None => 5,
            },
            None => d.sync_interval_minutes,
        },
        auto_start: match row_value(rows, "auto_start"@) {
            Some(v) => v == "true"@,
            None => d.auto_start,
        },
    }
}


/// The `(key, value)` rows that store the settings.
pub fn settings_rows(settings: &Settings) -> (rows: Vec<(String, String)>)
    ensures
        rows_view(rows@) == spec_settings_rows(settings@),
{
    let mut rows: Vec<(String, String)> = Vec::new();
    rows.push((owned("api_base_url"), owned(settings.api_base_url.as_str())));
    rows.push(
        (
            owned("sync_interval_minutes"),
            string_of(signed_decimal_exec(settings.sync_interval_minutes).as_slice()),
        ),
    );
    rows.push((owned("auto_start"), owned(if settings.auto_start { "true" } else { "false" })));
    assert(rows_view(rows@) =~= spec_settings_rows(settings@));
    rows
}

/// The value of the last row with `key`.
fn last_value<'a>(rows: &'a Vec<(String, String)>, key: &str) -> (r: Option<&'a String>)
    ensures
        match r {
            Some(v) => row_value(rows_view(rows@), key@) == Some(v@),
            None => row_value(rows_view(rows@), key@) is None,
        },
{
    let ghost all = rows_view(rows@);
    let mut i = rows.len();
    assert(all.take(i as int) =~= all);
    while i > 0
        invariant
            i <= rows@.len(),
            all == rows_view(rows@),
            row_value(all, key@) == row_value(all.take(i as int), key@),
        decreases i,
    {
        let ghost pre = all.take(i as int);
        assert(pre.drop_last() =~= all.take(i - 1));
        if text_eq(rows[i - 1].0.as_str(), key) {
            return Some(&rows[i - 1].1);
        }
        i -= 1;
    }
    assert(all.take(0) =~= Seq::<(Seq<char>, Seq<char>)>::empty());
    None
}

/// The settings stored in the rows (see `spec_settings_from_rows`).
pub fn settings_from_rows(rows: &Vec<(String, String)>) -> (s: Settings)
    ensures
        s@ == spec_settings_from_rows(rows_view(rows@)),
{
    proof {
        assert(rows_view(rows@).take(rows@.len() as int) =~= rows_view(rows@));
    }
    let mut s = Settings::default();
    if let Some(v) = last_value(rows, "api_base_url") {
        s.api_base_url = v.clone();
    }
    if let Some(v) = last_value(rows, "sync_interval_minutes") {
        s.sync_interval_minutes = match parse_signed_exec(chars_of(v.as_str()).as_slice()) {
            Some(n) => n,
            None => 5,
        };
    }
    if let Some(v) = last_value(rows, "auto_start") {
        s.auto_start = text_eq(v.as_str(), "true");
    }
    s
}

proof fn lemma_setting_keys_differ()
    ensures
        "api_base_url"@ != "sync_interval_minutes"@,
        "api_base_url"@ != "auto_start"@,
        "sync_interval_minutes"@ != "auto_start"@,
        "true"@ != "false"@,
{
    reveal_strlit("api_base_url");
    reveal_strlit("sync_interval_minutes");
    reveal_strlit("auto_start");
    reveal_strlit("true");
    reveal_strlit("false");
    assert("api_base_url"@.len() != "sync_interval_minutes"@.len());
    assert("api_base_url"@.len() != "auto_start"@.len());
    assert("sync_interval_minutes"@.len() != "auto_start"@.len());
    assert("true"@.len() != "false"@.len());
}

/// Settings read back after a save are the saved settings, whatever rows the
/// table held before.
pub proof fn law_settings_round_trip(before: Seq<(Seq<char>, Seq<char>)>, s: SettingsView)
    requires
        -0x8000_0000_0000_0000 <= s.sync_interval_minutes <= 0x7fff_ffff_ffff_ffff,
    ensures
        spec_settings_from_rows(before + spec_settings_rows(s)) == s,
{
    lemma_setting_keys_differ();
    lemma_signed_round_trip(s.sync_interval_minutes);
    let r0 = before;
    let r1 = r0.push(("api_base_url"@, s.api_base_url));
    let r2 = r1.push(("sync_interval_minutes"@, signed_decimal(s.sync_interval_minutes)));
    let r3 = r2.push(("auto_start"@, bool_text(s.auto_start)));
    assert(r3 =~= before + spec_settings_rows(s));
    assert(r3.drop_last() =~= r2);
    assert(r2.drop_last() =~= r1);
    assert(r1.drop_last() =~= r0);
    assert(row_value(r3, "auto_start"@) == Some(bool_text(s.auto_start)));
    assert(row_value(r3, "sync_interval_minutes"@) == row_value(r2, "sync_interval_minutes"@));
    assert(row_value(r3, "api_base_url"@) == row_value(r2, "api_base_url"@));
    assert(row_value(r2, "api_base_url"@) == row_value(r1, "api_base_url"@));
}

} // verus!
