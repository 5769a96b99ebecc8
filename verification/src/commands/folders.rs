//! Registering folders: the bucket prefix a folder gets, and how a request to
//! add one is read.
use vstd::prelude::*;

use crate::auth::client::FolderMode;
use crate::error::AppError;
use crate::text::{chars_of, contains, has_text, string_of, text_eq, owned};

verus! {

/// Whether Unicode counts `c` as alphabetic or numeric.
pub uninterp spec fn alphanumeric(c: char) -> bool;

/// `char::is_alphanumeric`. The contract names the answer, which follows the
/// Unicode `Alphabetic` and `Numeric` tables of the toolchain's std, and
/// states it for ASCII: letters and digits are alphanumeric, nothing else is.
#[verifier::external_body]
fn is_alphanumeric(c: char) -> (b: bool)
    ensures
        b == alphanumeric(c),
        (c as u32) < 128 ==> (b <==> (('a' <= c && c <= 'z') || ('A' <= c && c <= 'Z') || (
        '0' <= c && c <= '9'))),
{
    c.is_alphanumeric()
}

/// `char::to_ascii_lowercase`: `'A'..='Z'` become `'a'..='z'`, all else stays.
pub open spec fn ascii_lower(c: char) -> char {
    if 'A' <= c && c <= 'Z' {
        ((c as u32) + 32) as char
    } else {
        c
    }
}

fn ascii_lower_exec(c: char) -> (r: char)
    ensures
        r == ascii_lower(c),
{
    if 'A' <= c && c <= 'Z' {
        let b = (c as u32 + 32) as u8;
        assert(b as u32 == (c as u32) + 32);
        b as char
    } else {
        c
    }
}

/// What a character of a folder name becomes in its prefix.
pub open spec fn prefix_char(c: char) -> char {
    if alphanumeric(c) || c == '.' || c == '-' || c == '_' {
        ascii_lower(c)
    } else {
        '-'
    }
}

pub open spec fn strip_leading_dashes(s: Seq<char>) -> Seq<char>
    decreases s.len(),
{
    if s.len() > 0 && s[0] == '-' {
        strip_leading_dashes(s.drop_first())
    } else {
        s
    }
}

pub open spec fn strip_trailing_dashes(s: Seq<char>) -> Seq<char>
    decreases s.len(),
{
    if s.len() > 0 && s.last() == '-' {
        strip_trailing_dashes(s.drop_last())
    } else {
        s
    }
}

/// `str::trim_matches('-')`.
pub open spec fn trim_dashes(s: Seq<char>) -> Seq<char> {
    strip_trailing_dashes(strip_leading_dashes(s))
}

/// The prefix before it is cut to length: the mapped name without leading
/// and trailing dashes (`"sync"` where nothing is left), behind `"sync-"`
/// unless it starts with a letter or digit.
pub open spec fn full_prefix(name: Seq<char>) -> Seq<char> {
    let t0 = trim_dashes(name.map_values(|c: char| prefix_char(c)));
    let t = if t0.len() == 0 {
        "sync"@
    } else {
        t0
    };
    if alphanumeric(t[0]) {
        t
    } else {
        "sync-"@ + t
    }
}

/// Bytes of a character in UTF-8.
pub open spec fn utf8_width(c: char) -> nat {
    let u = c as u32;
    if u < 0x80 {
        1
    } else if u < 0x800 {
        2
    } else if u < 0x10000 {
        3
    } else {
        4
    }
}

/// Bytes of a text in UTF-8.
pub open spec fn utf8_size(s: Seq<char>) -> nat
    decreases s.len(),
{
    if s.len() == 0 {
        0
    } else {
        utf8_width(s[0]) + utf8_size(s.drop_first())
    }
}

/// The longest start of `s` that fits in `n` bytes of UTF-8.
pub open spec fn utf8_take(s: Seq<char>, n: nat) -> Seq<char>
    decreases s.len(),
{
    if s.len() == 0 || utf8_width(s[0]) > n {
        Seq::empty()
    } else {
        seq![s[0]] + utf8_take(s.drop_first(), (n - utf8_width(s[0])) as nat)
    }
}

/// The bucket prefix of a folder name: the longest start of `full_prefix` that
/// fits in 128 bytes of UTF-8, so a character is never split.
pub open spec fn spec_remote_prefix(name: Seq<char>) -> Seq<char> {
    utf8_take(full_prefix(name), 128)
}

fn utf8_width_exec(c: char) -> (w: usize)
    ensures
        w == utf8_width(c),
{
    let u = c as u32;
    if u < 0x80 {
        1
    } else if u < 0x800 {
        2
    } else if u < 0x10000 {
        3
    } else {
        4
    }
}

proof fn lemma_take_size(s: Seq<char>, n: nat)
    ensures
        utf8_size(utf8_take(s, n)) <= n,
    decreases s.len(),
{
    if s.len() > 0 && utf8_width(s[0]) <= n {
        let rest = utf8_take(s.drop_first(), (n - utf8_width(s[0])) as nat);
        lemma_take_size(s.drop_first(), (n - utf8_width(s[0])) as nat);
        assert((seq![s[0]] + rest).drop_first() =~= rest);
    }
}

/// `full_prefix`, built by the steps that define it.
fn full_prefix_exec(name: &str) -> (r: Vec<char>)
    ensures
        r@ == full_prefix(name@),
{
    let cs = chars_of(name);
    let mut mapped: Vec<char> = Vec::new();
    let mut i: usize = 0;
    while i < cs.len()
        invariant
            i <= cs@.len(),
            cs@ == name@,
            mapped@ == cs@.take(i as int).map_values(|c: char| prefix_char(c)),
        decreases cs.len() - i,
    {
        let c = cs[i];
        let m = if is_alphanumeric(c) || c == '.' || c == '-' || c == '_' {
            ascii_lower_exec(c)
        } else {
            '-'
        };
        mapped.push(m);
        assert(cs@.take(i + 1) =~= cs@.take(i as int).push(c));
        assert(mapped@ =~= cs@.take(i + 1).map_values(|c: char| prefix_char(c)));
        i += 1;
    }
    assert(cs@.take(cs@.len() as int) =~= cs@);
    let ghost all = name@.map_values(|c: char| prefix_char(c));
    // Leading dashes.
    let mut a: usize = 0;
    assert(all.subrange(0, all.len() as int) =~= all);
    while a < mapped.len() && mapped[a] == '-'
        invariant
            a <= mapped@.len(),
            mapped@ == all,
            strip_leading_dashes(all) == strip_leading_dashes(all.subrange(a as int, all.len() as int)),
        decreases mapped.len() - a,
    {
        let ghost cur = all.subrange(a as int, all.len() as int);
        assert(cur.drop_first() =~= all.subrange(a + 1, all.len() as int));
        a += 1;
    }
    let ghost lead = all.subrange(a as int, all.len() as int);
    assert(strip_leading_dashes(lead) == lead);
    // Trailing dashes.
    let mut b: usize = mapped.len();
    assert(lead =~= all.subrange(a as int, b as int));
    while b > a && mapped[b - 1] == '-'
        invariant
            a <= b <= mapped@.len(),
            mapped@ == all,
            strip_leading_dashes(all) == lead,
            lead == all.subrange(a as int, all.len() as int),
            strip_trailing_dashes(lead) == strip_trailing_dashes(all.subrange(a as int, b as int)),
        decreases b - a,
    {
        let ghost cur = all.subrange(a as int, b as int);
        assert(cur.drop_last() =~= all.subrange(a as int, b - 1));
        b -= 1;
    }
    let ghost trimmed = all.subrange(a as int, b as int);
    assert(strip_trailing_dashes(trimmed) == trimmed);
    let mut t: Vec<char> = Vec::new();
    let mut k: usize = a;
    while k < b
        invariant
            a <= k <= b <= mapped@.len(),
            mapped@ == all,
            t@ == all.subrange(a as int, k as int),
        decreases b - k,
    {
        t.push(mapped[k]);
        assert(t@ =~= all.subrange(a as int, k + 1));
        k += 1;
    }
    assert(t@ == trim_dashes(all));
    if t.len() == 0 {
        t = chars_of("sync");
    }
    proof {
        reveal_strlit("sync");
    }
    if is_alphanumeric(t[0]) {
        t
    } else {
        let mut out = chars_of("sync-");
        let mut j: usize = 0;
        let ghost head = out@;
        while j < t.len()
            invariant
                j <= t@.len(),
                out@ == head + t@.take(j as int),
            decreases t.len() - j,
        {
            out.push(t[j]);
            assert(t@.take(j + 1) =~= t@.take(j as int).push(t@[j as int]));
            j += 1;
        }
        assert(t@.take(t@.len() as int) =~= t@);
        out
    }
}

proof fn lemma_size_concat(a: Seq<char>, b: Seq<char>)
    ensures
        utf8_size(a + b) == utf8_size(a) + utf8_size(b),
    decreases a.len(),
{
    if a.len() > 0 {
        assert((a + b).drop_first() =~= a.drop_first() + b);
        lemma_size_concat(a.drop_first(), b);
    } else {
        assert(a + b =~= b);
    }
}

/// How many characters of `full` fit in 128 bytes, and their bytes.
fn fitting(full: &Vec<char>) -> (r: (usize, usize))
    ensures
        r.0 <= full@.len(),
        utf8_take(full@, 128) == full@.take(r.0 as int),
        r.1 == utf8_size(full@.take(r.0 as int)),
        r.1 <= 128,
        r.0 < full@.len() ==> r.1 + utf8_width(full@[r.0 as int]) > 128,
{
    let ghost s = full@;
    let mut j: usize = 0;
    let mut kept: usize = 0;
    assert(s.subrange(0, s.len() as int) =~= s);
    assert(s.take(0) + utf8_take(s, 128) =~= utf8_take(s, 128));
    while j < full.len() && kept + utf8_width_exec(full[j]) <= 128
        invariant
            j <= s.len(),
            full@ == s,
            kept <= 128,
            kept == utf8_size(s.take(j as int)),
            utf8_take(s, 128) == s.take(j as int) + utf8_take(s.subrange(j as int, s.len() as int), (128 - kept) as nat),
        decreases full.len() - j,
    {
        let c = full[j];
        let w = utf8_width_exec(c);
        let ghost rest = s.subrange(j as int, s.len() as int);
        assert(rest[0] == c);
        assert(rest.drop_first() =~= s.subrange(j + 1, s.len() as int));
        assert(s.take(j + 1) =~= s.take(j as int) + seq![c]);
        proof {
            lemma_size_concat(s.take(j as int), seq![c]);
            assert(seq![c].drop_first() =~= Seq::<char>::empty());
            assert(utf8_size(seq![c].drop_first()) == 0);
            assert(utf8_size(seq![c]) == utf8_width(c));
        }
        kept = kept + w;
        j += 1;
        assert(s.take(j as int) + utf8_take(s.subrange(j as int, s.len() as int), (128 - kept) as nat)
            =~= utf8_take(s, 128));
    }
    proof {
        let rest = s.subrange(j as int, s.len() as int);
        assert(utf8_take(rest, (128 - kept) as nat) =~= Seq::<char>::empty());
        assert(utf8_take(s, 128) =~= s.take(j as int));
    }
    (j, kept)
}

proof fn lemma_strip_leading(s: Seq<char>)
    ensures
        strip_leading_dashes(s).len() > 0 ==> strip_leading_dashes(s)[0] != '-',
        strip_leading_dashes(s).len() <= s.len(),
    decreases s.len(),
{
    if s.len() > 0 && s[0] == '-' {
        lemma_strip_leading(s.drop_first());
    }
}

proof fn lemma_strip_trailing_keeps_start(s: Seq<char>)
    requires
        s.len() > 0 ==> s[0] != '-',
    ensures
        strip_trailing_dashes(s).len() > 0 ==> strip_trailing_dashes(s)[0] != '-',
    decreases s.len(),
{
    if s.len() > 0 && s.last() == '-' {
        let t = s.drop_last();
        if t.len() > 0 {
            assert(t[0] == s[0]);
        }
        lemma_strip_trailing_keeps_start(t);
    }
}

/// A character a bucket prefix may hold: one Unicode counts as a letter or
/// digit, an ASCII lowercase letter, `.`, `-` or `_`; never an ASCII
/// uppercase letter.
pub open spec fn prefix_allowed(c: char) -> bool {
    &&& alphanumeric(c) || ('a' <= c && c <= 'z') || c == '.' || c == '-' || c == '_'
    &&& !('A' <= c && c <= 'Z')
}

pub open spec fn all_allowed(s: Seq<char>) -> bool {
    forall|k: int| 0 <= k < s.len() ==> prefix_allowed(#[trigger] s[k])
}

proof fn lemma_strip_leading_allowed(s: Seq<char>)
    requires
        all_allowed(s),
    ensures
        all_allowed(strip_leading_dashes(s)),
    decreases s.len(),
{
    if s.len() > 0 && s[0] == '-' {
        assert forall|k: int| 0 <= k < s.drop_first().len() implies prefix_allowed(
            #[trigger] s.drop_first()[k],
        ) by {
            assert(s.drop_first()[k] == s[k + 1]);
        }
        lemma_strip_leading_allowed(s.drop_first());
    }
}

proof fn lemma_strip_trailing_allowed(s: Seq<char>)
    requires
        all_allowed(s),
    ensures
        all_allowed(strip_trailing_dashes(s)),
    decreases s.len(),
{
    if s.len() > 0 && s.last() == '-' {
        assert forall|k: int| 0 <= k < s.drop_last().len() implies prefix_allowed(
            #[trigger] s.drop_last()[k],
        ) by {
            assert(s.drop_last()[k] == s[k]);
        }
        lemma_strip_trailing_allowed(s.drop_last());
    }
}

proof fn lemma_take_is_prefix(s: Seq<char>, n: nat)
    ensures
        utf8_take(s, n).len() <= s.len(),
        utf8_take(s, n) == s.take(utf8_take(s, n).len() as int),
    decreases s.len(),
{
    if s.len() > 0 && utf8_width(s[0]) <= n {
        let m = (n - utf8_width(s[0])) as nat;
        lemma_take_is_prefix(s.drop_first(), m);
        let rest = utf8_take(s.drop_first(), m);
        assert(seq![s[0]] + rest =~= s.take(rest.len() + 1 as int));
    } else {
        assert(utf8_take(s, n) =~= s.take(0));
    }
}

proof fn lemma_prefix_char_allowed(c: char)
    ensures
        prefix_allowed(prefix_char(c)),
{
    if alphanumeric(c) || c == '.' || c == '-' || c == '_' {
        if 'A' <= c && c <= 'Z' {
            assert('a' <= ascii_lower(c) && ascii_lower(c) <= 'z');
        }
    }
}

/// A folder's bucket prefix is never empty, never starts with a dash, starts
/// with a letter or digit or with the `s` of `"sync-"`, holds only characters
/// a prefix may hold (see `prefix_allowed`) and fits in 128 bytes.
pub proof fn law_prefix_is_valid(name: Seq<char>)
    ensures
        spec_remote_prefix(name).len() > 0,
        spec_remote_prefix(name)[0] != '-',
        alphanumeric(spec_remote_prefix(name)[0]) || spec_remote_prefix(name)[0] == 's',
        all_allowed(spec_remote_prefix(name)),
        utf8_size(spec_remote_prefix(name)) <= 128,
{
    let mapped = name.map_values(|c: char| prefix_char(c));
    let t0 = trim_dashes(mapped);
    lemma_strip_leading(mapped);
    lemma_strip_trailing_keeps_start(strip_leading_dashes(mapped));
    reveal_strlit("sync");
    reveal_strlit("sync-");
    assert forall|k: int| 0 <= k < mapped.len() implies prefix_allowed(#[trigger] mapped[k]) by {
        lemma_prefix_char_allowed(name[k]);
    }
    lemma_strip_leading_allowed(mapped);
    lemma_strip_trailing_allowed(strip_leading_dashes(mapped));
    let t = if t0.len() == 0 {
        "sync"@
    } else {
        t0
    };
    assert(t.len() > 0 && t[0] != '-');
    assert(all_allowed(t));
    let full = full_prefix(name);
    assert(all_allowed(full)) by {
        if !alphanumeric(t[0]) {
            assert forall|k: int| 0 <= k < full.len() implies prefix_allowed(#[trigger] full[k]) by {
                if k >= 5 {
                    assert(full[k] == t[k - 5]);
                }
            }
        }
    }
    assert(full.len() > 0 && full[0] != '-');
    assert(alphanumeric(full[0]) || full[0] == 's');
    assert(utf8_width(full[0]) <= 128);
    let rest = utf8_take(full.drop_first(), (128 - utf8_width(full[0])) as nat);
    assert(spec_remote_prefix(name) == seq![full[0]] + rest);
    lemma_take_size(full, 128);
    lemma_take_is_prefix(full, 128);
    let p = spec_remote_prefix(name);
    assert forall|k: int| 0 <= k < p.len() implies prefix_allowed(#[trigger] p[k]) by {
        assert(p[k] == full[k]);
    }
}

/// The bucket prefix of a folder name: its letters and digits lowercased
/// where ASCII, `.` `-` `_` kept, every other character a dash; no leading or
/// trailing dashes; `"sync"` for a name with nothing left; `"sync-"` in front
/// of one that does not start with a letter or digit; cut to at most 128
/// bytes without splitting a character.
pub fn sanitize_remote_prefix(name: &str) -> (r: String)
    ensures
        r@ == spec_remote_prefix(name@),
{
    let full = full_prefix_exec(name);
    let (n, _) = fitting(&full);
    let mut out: Vec<char> = Vec::new();
    let mut i: usize = 0;
    while i < n
        invariant
            i <= n <= full@.len(),
            out@ == full@.take(i as int),
        decreases n - i,
    {
        out.push(full[i]);
        assert(out@ =~= full@.take(i + 1));
        i += 1;
    }
    string_of(out.as_slice())
}

/// A name that `Path::file_name` can give for `path` on any platform: a
/// non-empty piece of the path's text that is not `..` (a path that ends in
/// `..` has no file name).
pub open spec fn plain_component(path: Seq<char>, n: Seq<char>) -> bool {
    &&& n.len() > 0
    &&& n != ".."@
    &&& exists|i: int| 0 <= i && i + n.len() <= path.len() && #[trigger] path.subrange(i, i + n.len()) == n
}

/// `s` holds no `c`.
pub open spec fn lacks(s: Seq<char>, c: char) -> bool {
    forall|k: int| 0 <= k < s.len() ==> s[k] != c
}

/// Text that every platform splits at `/` alone: it holds no `\` (a
/// separator on Windows) and no `:` (a drive prefix there), and does not start
/// with two slashes (a network prefix there).
pub open spec fn portable_path(p: Seq<char>) -> bool {
    &&& forall|k: int| 0 <= k < p.len() ==> p[k] != '\\' && p[k] != ':'
    &&& !(p.len() >= 2 && p[0] == '/' && p[1] == '/')
}

/// Where the last segment of `p` starts: just after its last `/`, or 0.
pub open spec fn segment_start(p: Seq<char>) -> int
    decreases p.len(),
{
    if p.len() == 0 {
        0
    } else if p.last() == '/' {
        p.len() as int
    } else {
        segment_start(p.drop_last())
    }
}

/// The last segment of `p` between slashes that is neither empty nor `.`;
/// empty where there is none. Repeated and trailing slashes and `.` segments
/// are passed over, as `Path::components` does.
pub open spec fn final_segment(p: Seq<char>) -> Seq<char>
    decreases p.len(),
{
    if p.len() == 0 {
        Seq::empty()
    } else if p.last() == '/' {
        final_segment(p.drop_last())
    } else if p.last() == '.' && (p.len() == 1 || p[p.len() - 2] == '/') {
        final_segment(p.drop_last())
    } else {
        p.subrange(segment_start(p), p.len() as int)
    }
}

/// The file name of a path split at `/`: its final segment, none where there
/// is no segment or the final one is `..`.
pub open spec fn spec_file_name(p: Seq<char>) -> Option<Seq<char>> {
    let s = final_segment(p);
    if s.len() == 0 || s == ".."@ {
        None
    } else {
        Some(s)
    }
}

/// `std::path::Path::file_name` of a path given as text. Stated, after its
/// documentation: on text that every platform splits at `/` alone, the answer
/// is the final component (repeated and trailing separators and `.` passed
/// over), none where the path ends in `..` or has no name; on any text, a name
/// that comes back is a borrowed, non-empty component that is not `..`, and
/// holds no `/` where the text holds no `\` (after a Windows verbatim prefix
/// `\\?\` a `/` is no separator). Left unsaid is which component comes back
/// from other text: that follows the platform's path syntax (its separators and
/// prefixes).
#[verifier::external_body]
fn file_name(path: &str) -> (r: Option<String>)
    ensures
        portable_path(path@) ==> match r {
            Some(n) => spec_file_name(path@) == Some(n@),
            None => spec_file_name(path@) is None,
        },
        r matches Some(n) ==> plain_component(path@, n@),
        r matches Some(n) ==> (lacks(path@, '\\') ==> lacks(n@, '/')),
{
    std::path::Path::new(path).file_name().and_then(|n| n.to_str()).map(|n| n.to_string())
}

/// The name a folder's prefix is made from: the last component of its path,
/// `"sync"` where the path has none.
pub fn basename_or_default(file_name: Option<String>) -> (r: String)
    ensures
        r@ == match file_name {
            Some(n) => n@,
            None => "sync"@,
        },
{
    match file_name {
        Some(n) => n,
        None => owned("sync"),
    }
}

/// The last component of a path as the platform reads it, `"sync"` where it
/// has none. Where `/` is the only separator this is the final segment of the
/// path; elsewhere it is `"sync"` or a non-empty piece of the path that is not
/// `..` (and holds no `/` where the path holds no `\`).
pub fn path_basename(path: &str) -> (r: String)
    ensures
        portable_path(path@) ==> r@ == match spec_file_name(path@) {
            Some(n) => n,
            None => "sync"@,
        },
        r@ == "sync"@ || (plain_component(path@, r@) && (lacks(path@, '\\') ==> lacks(r@, '/'))),
{
    basename_or_default(file_name(path))
}

/// The mode a request to add a folder asks for: `"connect"`, `"replace"`, and
/// anything else (or nothing) meaning create.
pub fn folder_mode(mode: Option<String>) -> (m: FolderMode)
    ensures
        m == match mode {
            Some(s) => if s@ == "connect"@ {
                FolderMode::Connect
            } else if s@ == "replace"@ {
                FolderMode::Replace
            } else {
                FolderMode::Create
            },
            None => FolderMode::Create,
        },
{
    match mode {
        Some(s) => {
            if text_eq(s.as_str(), "connect") {
                FolderMode::Connect
            } else if text_eq(s.as_str(), "replace") {
                FolderMode::Replace
            } else {
                FolderMode::Create
            }
        },
        None => FolderMode::Create,
    }
}

/// Creating a folder whose path is already registered is refused; connecting
/// or replacing takes the place of the registered one.
pub fn check_new_folder(mode: FolderMode, already_registered: bool) -> (r: Result<(), AppError>)
    ensures
        mode == FolderMode::Create && already_registered ==> (r matches Err(AppError::General(m)) && m@
            == "This folder is already being synced"@),
        !(mode == FolderMode::Create && already_registered) ==> r is Ok,
{
    if mode == FolderMode::Create && already_registered {
        Err(AppError::General(owned("This folder is already being synced")))
    } else {
        Ok(())
    }
}

/// Whether the local record of the path is dropped before the folder is
/// registered again.
pub fn replaces_local_record(mode: FolderMode) -> (b: bool)
    ensures
        b == (mode == FolderMode::Connect || mode == FolderMode::Replace),
{
    mode == FolderMode::Connect || mode == FolderMode::Replace
}

/// The message an error carries.
pub open spec fn message(e: AppError) -> Seq<char> {
    match e {
        AppError::Database(m) => m@,
        AppError::Io(m) => m@,
        AppError::Rclone(m) => m@,
        AppError::Api(m) => m@,
        AppError::Auth(m) => m@,
        AppError::NotFound(m) => m@,
        AppError::General(m) => m@,
        AppError::S3(m) => m@,
        AppError::SyncInProgress(m) => m@,
    }
}

fn message_of(e: &AppError) -> (m: &String)
    ensures
        m@ == message(*e),
{
    match e {
        AppError::Database(m) => m,
        AppError::Io(m) => m,
        AppError::Rclone(m) => m,
        AppError::Api(m) => m,
        AppError::Auth(m) => m,
        AppError::NotFound(m) => m,
        AppError::General(m) => m,
        AppError::S3(m) => m,
        AppError::SyncInProgress(m) => m,
    }
}

/// A refusal of the backend to create a folder because one with the prefix
/// exists is told to the user plainly; other errors pass unchanged.
pub fn create_folder_error(e: AppError) -> (r: AppError)
    ensures
        contains(message(e), "already exists"@) ==> (r matches AppError::General(m) && m@
            == "A folder with this name is already synced on the server."@),
        !contains(message(e), "already exists"@) ==> r == e,
{
    let found = {
        let m = chars_of(message_of(&e).as_str());
        has_text(m.as_slice(), "already exists")
    };
    if found {
        AppError::General(owned("A folder with this name is already synced on the server."))
    } else {
        e
    }
}

} // verus!
