//! Decisions around an `rclone bisync` run: when to resync, what command line
//! to pass, how to read the outcome, and what progress to report.
use vstd::prelude::*;

use crate::text::{
    chars_of, concat, contains, copy_range, find_from, find_from_exec, has_text, is_ws,
    is_ws_char, lemma_find_from_bounds, lemma_find_from_none, lines, matches_at, owned,
    parse_unsigned, parse_unsigned_exec, lemma_rfind_upto_at,
    rfind, rfind_exec, starts_with, starts_with_exec, string_of, trim, trim_exec,
};
use super::parser::{counts_fit, parse_bisync_output_checked, spec_parse_bisync_output};
use super::types::{ConflictView, SyncResult, SyncResultView, opt_view, strings_view};

verus! {

// ───────────────────── results and resync decisions ─────────────────────

pub open spec fn missing_state_marker() -> Seq<char> {
    "cannot find prior Path1 or Path2 listings"@
}

pub open spec fn spec_is_missing_state_files_error(r: SyncResultView) -> bool {
    exists|i: int| 0 <= i < r.errors.len() && contains(#[trigger] r.errors[i], missing_state_marker())
}

/// Whether rclone reported that its listings from the last run are gone.
pub fn is_missing_state_files_error(result: &SyncResult) -> (b: bool)
    ensures
        b == spec_is_missing_state_files_error(result@),
{
    let mut i: usize = 0;
    while i < result.errors.len()
        invariant
            i <= result.errors@.len(),
            forall|j: int| 0 <= j < i ==> !contains(
                #[trigger] strings_view(result.errors@)[j],
                missing_state_marker(),
            ),
        decreases result.errors.len() - i,
    {
        let e = chars_of(result.errors[i].as_str());
        if has_text(e.as_slice(), "cannot find prior Path1 or Path2 listings") {
            assert(strings_view(result.errors@)[i as int] == e@);
            assert(contains(result@.errors[i as int], missing_state_marker()));
            return true;
        }
        i += 1;
    }
    false
}

pub open spec fn spec_cancelled_result(duration_ms: u64) -> SyncResultView {
    SyncResultView {
        success: false,
        files_transferred: 0,
        files_deleted: 0,
        transferred_paths: Seq::empty(),
        errors: seq!["Sync cancelled by user"@],
        conflicts: Seq::empty(),
        duration_ms,
    }
}

/// The result of a run the user cancelled.
pub fn cancelled_result(duration_ms: u64) -> (r: SyncResult)
    ensures
        r@ == spec_cancelled_result(duration_ms),
{
    let mut errors: Vec<String> = Vec::new();
    errors.push(owned("Sync cancelled by user"));
    let r = SyncResult {
        success: false,
        files_transferred: 0,
        files_deleted: 0,
        transferred_paths: Vec::new(),
        errors,
        conflicts: Vec::new(),
        duration_ms,
    };
    assert(r@.errors =~= seq!["Sync cancelled by user"@]);
    assert(r@.transferred_paths =~= Seq::<Seq<char>>::empty());
    assert(r@.conflicts =~= Seq::<ConflictView>::empty());
    r
}

/// A first run, or one without the listings of an earlier run, is a resync.
pub fn must_resync(needs_resync: bool, state_files_exist: bool) -> (b: bool)
    ensures
        b == (needs_resync || !state_files_exist),
{
    needs_resync || !state_files_exist
}

/// A normal run that failed because the listings vanished is retried once as a
/// resync.
pub fn should_retry_with_resync(result: &SyncResult, resynced: bool) -> (b: bool)
    ensures
        b == (!result.success && !resynced && spec_is_missing_state_files_error(result@)),
{
    !result.success && !resynced && is_missing_state_files_error(result)
}

/// The lost-listings check looks at every error line: it holds exactly when
/// some error, at any position, contains `cannot find prior Path1 or Path2
/// listings`.
pub proof fn law_lost_listings_seen_anywhere(r: SyncResultView, i: int)
    ensures
        0 <= i < r.errors.len() && contains(r.errors[i], "cannot find prior Path1 or Path2 listings"@)
            ==> spec_is_missing_state_files_error(r),
        (forall|j: int|
            0 <= j < r.errors.len() ==> !contains(
                #[trigger] r.errors[j],
                "cannot find prior Path1 or Path2 listings"@,
            )) ==> !spec_is_missing_state_files_error(r),
{
}

/// More error lines never hide lost listings: once an error says so, the
/// check holds whatever errors are added before or after it.
pub proof fn law_lost_listings_kept(r: SyncResultView, before: Seq<Seq<char>>, after: Seq<Seq<char>>)
    requires
        spec_is_missing_state_files_error(r),
    ensures
        spec_is_missing_state_files_error(SyncResultView { errors: before + r.errors + after, ..r }),
{
    let i = choose|i: int| 0 <= i < r.errors.len() && contains(#[trigger] r.errors[i], missing_state_marker());
    let e = before + r.errors + after;
    assert(e[before.len() + i] == r.errors[i]);
    assert(contains(e[before.len() + i], missing_state_marker()));
    assert(SyncResultView { errors: e, ..r }.errors == e);
}

/// A failed normal run whose errors include, at any position, the
/// lost-listings message is retried as a resync; a resync, a success or a
/// failure without that message is not.
pub proof fn law_retry_on_lost_listings(r: SyncResultView, resynced: bool, i: int)
    ensures
        !r.success && !resynced && 0 <= i < r.errors.len() && contains(
            r.errors[i],
            "cannot find prior Path1 or Path2 listings"@,
        ) ==> (!r.success && !resynced && spec_is_missing_state_files_error(r)),
        (r.success || resynced) ==> !(!r.success && !resynced && spec_is_missing_state_files_error(r)),
{
}

// ───────────────────── the run as a state machine ─────────────────────

/// Where a bisync of one folder stands.
pub enum BisyncState {
    /// Nothing has run yet.
    Idle { needs_resync: bool, state_files_exist: bool },
    /// The first run was started, as a resync or not.
    FirstRun { resync: bool },
    /// The resync retry was started.
    Retry,
    /// A result was handed back.
    Done,
}

/// What happened since the last step.
pub enum BisyncEvent {
    /// The caller asks to begin; `cancel_requested` is the folder's cancel flag.
    Begin { cancel_requested: bool },
    /// A run ended with `result`; `cancel_requested` is the cancel flag now.
    Finished { result: SyncResult, cancel_requested: bool },
}

/// What the caller does next.
pub enum BisyncCommand {
    /// Start `rclone bisync`, with `--resync` or with `--resilient`.
    Run { resync: bool },
    /// Hand this result back; the bisync is over.
    Return { result: SyncResult },
}

pub open spec fn hands_back(c: BisyncCommand, r: SyncResultView) -> bool {
    match c {
        BisyncCommand::Return { result } => result@ == r,
        _ => false,
    }
}

/// One step of a bisync: a cancel before the start ends it at once; the first
/// run is a resync when asked for or when no listings exist; a non-resync run
/// that lost its listings is retried once as a resync unless cancelled; any
/// other outcome is handed back.
pub fn bisync_step(state: BisyncState, event: BisyncEvent) -> (out: (BisyncState, BisyncCommand))
    requires
        !(state is Done),
        state is Idle <==> event is Begin,
    ensures
        match (state, event) {
            (
                BisyncState::Idle { needs_resync, state_files_exist },
                BisyncEvent::Begin { cancel_requested },
            ) => if cancel_requested {
                out.0 is Done && hands_back(out.1, spec_cancelled_result(0))
            } else {
                out.0 == (BisyncState::FirstRun { resync: needs_resync || !state_files_exist })
                    && out.1 == (BisyncCommand::Run { resync: needs_resync || !state_files_exist })
            },
            (BisyncState::FirstRun { resync }, BisyncEvent::Finished { result, cancel_requested }) => {
                if !result.success && !resync && spec_is_missing_state_files_error(result@) {
                    if cancel_requested {
                        out.0 is Done && hands_back(out.1, spec_cancelled_result(result.duration_ms))
                    } else {
                        out.0 is Retry && out.1 == (BisyncCommand::Run { resync: true })
                    }
                } else {
                    out.0 is Done && hands_back(out.1, result@)
                }
            },
            (BisyncState::Retry, BisyncEvent::Finished { result, .. }) => out.0 is Done && hands_back(
                out.1,
                result@,
            ),
            _ => false,
        },
{
    match (state, event) {
        (BisyncState::Idle { needs_resync, state_files_exist }, BisyncEvent::Begin { cancel_requested }) => {
            if cancel_requested {
                (BisyncState::Done, BisyncCommand::Return { result: cancelled_result(0) })
            } else {
                let resync = must_resync(needs_resync, state_files_exist);
                (BisyncState::FirstRun { resync }, BisyncCommand::Run { resync })
            }
        },
        (BisyncState::FirstRun { resync }, BisyncEvent::Finished { result, cancel_requested }) => {
            if should_retry_with_resync(&result, resync) {
                if cancel_requested {
                    let d = result.duration_ms;
                    (BisyncState::Done, BisyncCommand::Return { result: cancelled_result(d) })
                } else {
                    (BisyncState::Retry, BisyncCommand::Run { resync: true })
                }
            } else {
                (BisyncState::Done, BisyncCommand::Return { result })
            }
        },
        (BisyncState::Retry, BisyncEvent::Finished { result, .. }) => {
            (BisyncState::Done, BisyncCommand::Return { result })
        },
        (_, _) => {
            assert(false);
            (BisyncState::Done, BisyncCommand::Return { result: cancelled_result(0) })
        },
    }
}

/// The result of one rclone process: `waited` is `None` when the process was
/// killed or could not be waited on, else its exit code, `None` when a signal
/// ended it. A kill on request gives the cancelled result; anything else is
/// read from the output, with exit code -1 where none is known; `None` where
/// the counts read from it would not fit in a `u32`.
pub fn run_outcome(
    waited: Option<Option<i32>>,
    cancel_requested: bool,
    stdout: &str,
    stderr: &str,
    duration_ms: u64,
) -> (r: Option<SyncResult>)
    ensures
        (waited is None && cancel_requested) ==> (r matches Some(x) && x@ == spec_cancelled_result(
            duration_ms,
        )),
        !(waited is None && cancel_requested) ==> ({
            let code = match waited {
                Some(Some(c)) => c,
                _ => -1i32,
            };
            match r {
                Some(x) => counts_fit(stdout@, stderr@, code, duration_ms) && x@
                    == spec_parse_bisync_output(stdout@, stderr@, code, duration_ms),
                None => !counts_fit(stdout@, stderr@, code, duration_ms),
            }
        }),
{
    if waited.is_none() && cancel_requested {
        return Some(cancelled_result(duration_ms));
    }
    let exit_code = match waited {
        Some(Some(c)) => c,
        _ => -1,
    };
    parse_bisync_output_checked(stdout, stderr, exit_code, duration_ms)
}

// ───────────────────── command line ─────────────────────

pub open spec fn spec_remote(bucket: Seq<char>, remote_prefix: Seq<char>) -> Seq<char> {
    "r2:"@ + bucket + "/"@ + remote_prefix
}

/// The remote side of the pair, `r2:<bucket>/<prefix>`.
pub fn remote_spec(bucket: &str, remote_prefix: &str) -> (r: String)
    ensures
        r@ == spec_remote(bucket@, remote_prefix@),
{
    let a = concat(chars_of("r2:").as_slice(), chars_of(bucket).as_slice());
    let b = concat(a.as_slice(), chars_of("/").as_slice());
    let c = concat(b.as_slice(), chars_of(remote_prefix).as_slice());
    string_of(c.as_slice())
}

pub open spec fn spec_bisync_args(
    local_path: Seq<char>,
    bucket: Seq<char>,
    remote_prefix: Seq<char>,
    config_path: Seq<char>,
    resync: bool,
) -> Seq<Seq<char>> {
    seq![
        "bisync"@,
        local_path,
        spec_remote(bucket, remote_prefix),
        "--config"@,
        config_path,
        "--checksum"@,
        "--create-empty-src-dirs"@,
        "--verbose"@,
        if resync {
            "--resync"@
        } else {
            "--resilient"@
        },
    ]
}


/// Arguments of `rclone bisync` for one folder.
pub fn bisync_args(
    local_path: &str,
    bucket: &str,
    remote_prefix: &str,
    config_path: &str,
    resync: bool,
) -> (args: Vec<String>)
    ensures
        strings_view(args@) == spec_bisync_args(
            local_path@,
            bucket@,
            remote_prefix@,
            config_path@,
            resync,
        ),
{
    let mut args: Vec<String> = Vec::new();
    args.push(owned("bisync"));
    args.push(owned(local_path));
    args.push(remote_spec(bucket, remote_prefix));
    args.push(owned("--config"));
    args.push(owned(config_path));
    args.push(owned("--checksum"));
    args.push(owned("--create-empty-src-dirs"));
    args.push(owned("--verbose"));
    if resync {
        args.push(owned("--resync"));
    } else {
        args.push(owned("--resilient"));
    }
    assert(strings_view(args@) =~= spec_bisync_args(
        local_path@,
        bucket@,
        remote_prefix@,
        config_path@,
        resync,
    ));
    args
}

// ───────────────────── names of rclone's state files ─────────────────────

/// Number of leading `'_'` in `s`, from index `i` on.
pub open spec fn skip_underscores(s: Seq<char>, i: int) -> int
    decreases s.len() - i,
{
    if 0 <= i < s.len() && s[i] == '_' {
        skip_underscores(s, i + 1)
    } else {
        i
    }
}

pub open spec fn underscore_for(c: char) -> char {
    if c == '/' || c == ':' {
        '_'
    } else {
        c
    }
}

/// rclone's encoding of a path in state file names: `/` and `:` become `_`,
/// then leading `_` are dropped.
pub open spec fn spec_encode_path_component(s: Seq<char>) -> Seq<char> {
    let replaced = s.map_values(|c: char| underscore_for(c));
    replaced.subrange(skip_underscores(replaced, 0), replaced.len() as int)
}

pub fn encode_path_component(s: &str) -> (r: String)
    ensures
        r@ == spec_encode_path_component(s@),
{
    let cs = chars_of(s);
    let mut replaced: Vec<char> = Vec::new();
    let mut i: usize = 0;
    while i < cs.len()
        invariant
            i <= cs@.len(),
            cs@ == s@,
            replaced@ == cs@.subrange(0, i as int).map_values(|c: char| underscore_for(c)),
        decreases cs.len() - i,
    {
        let c = cs[i];
        replaced.push(if c == '/' || c == ':' { '_' } else { c });
        i += 1;
        assert(replaced@ =~= cs@.subrange(0, i as int).map_values(|c: char| underscore_for(c)));
    }
    assert(cs@.subrange(0, cs@.len() as int) =~= cs@);
    let ghost rep = replaced@;
    let mut k: usize = 0;
    while k < replaced.len() && replaced[k] == '_'
        invariant
            k <= replaced@.len(),
            replaced@ == rep,
            skip_underscores(rep, 0) == skip_underscores(rep, k as int),
        decreases replaced.len() - k,
    {
        k += 1;
    }
    string_of(copy_range(replaced.as_slice(), k, replaced.len()).as_slice())
}

pub open spec fn spec_encode_bisync_pair(
    local_path: Seq<char>,
    bucket: Seq<char>,
    remote_prefix: Seq<char>,
) -> Seq<char> {
    spec_encode_path_component(local_path) + ".."@ + spec_encode_path_component(
        spec_remote(bucket, remote_prefix),
    )
}

/// Base name rclone gives the state files of a local/remote pair.
pub fn encode_bisync_pair(local_path: &str, bucket: &str, remote_prefix: &str) -> (r: String)
    ensures
        r@ == spec_encode_bisync_pair(local_path@, bucket@, remote_prefix@),
{
    let p1 = encode_path_component(local_path);
    let remote = remote_spec(bucket, remote_prefix);
    let p2 = encode_path_component(remote.as_str());
    let a = concat(chars_of(p1.as_str()).as_slice(), chars_of("..").as_slice());
    let b = concat(a.as_slice(), chars_of(p2.as_str()).as_slice());
    string_of(b.as_slice())
}

/// File names of the two listings rclone keeps for a pair.
pub fn bisync_state_file_names(local_path: &str, bucket: &str, remote_prefix: &str) -> (r: (
    String,
    String,
))
    ensures
        r.0@ == spec_encode_bisync_pair(local_path@, bucket@, remote_prefix@) + ".path1.lst"@,
        r.1@ == spec_encode_bisync_pair(local_path@, bucket@, remote_prefix@) + ".path2.lst"@,
{
    let base = encode_bisync_pair(local_path, bucket, remote_prefix);
    let b = chars_of(base.as_str());
    let one = concat(b.as_slice(), chars_of(".path1.lst").as_slice());
    let two = concat(b.as_slice(), chars_of(".path2.lst").as_slice());
    (string_of(one.as_slice()), string_of(two.as_slice()))
}

/// An encoded name holds no `/` or `:` and does not start with `_`.
pub proof fn law_encoded_component_is_flat(s: Seq<char>)
    ensures
        forall|i: int| 0 <= i < spec_encode_path_component(s).len() ==> {
            let c = #[trigger] spec_encode_path_component(s)[i];
            c != '/' && c != ':'
        },
        spec_encode_path_component(s).len() > 0 ==> spec_encode_path_component(s)[0] != '_',
{
    let replaced = s.map_values(|c: char| underscore_for(c));
    lemma_skip_underscores(replaced, 0);
}

proof fn lemma_skip_underscores(s: Seq<char>, i: int)
    requires
        0 <= i <= s.len(),
    ensures
        i <= skip_underscores(s, i) <= s.len(),
        skip_underscores(s, i) < s.len() ==> s[skip_underscores(s, i)] != '_',
    decreases s.len() - i,
{
    if i < s.len() && s[i] == '_' {
        lemma_skip_underscores(s, i + 1);
    }
}

// ───────────────────── progress lines ─────────────────────

/// The pieces of `str::split` on whitespace and `','`, from index `start`.
pub open spec fn is_sep(c: char) -> bool {
    is_ws(c) || c == ','
}

pub open spec fn next_sep(s: Seq<char>, i: int) -> int
    decreases s.len() - i,
{
    if 0 <= i < s.len() && !is_sep(s[i]) {
        next_sep(s, i + 1)
    } else {
        i
    }
}

pub open spec fn pieces_from(s: Seq<char>, start: int) -> Seq<Seq<char>>
    decreases s.len() + 1 - start,
{
    if start < 0 || start > s.len() {
        Seq::empty()
    } else {
        let k = next_sep(s, start);
        if k < start || k > s.len() {
            Seq::empty()
        } else {
            seq![s.subrange(start, k)] + pieces_from(s, k + 1)
        }
    }
}

/// The percentage a piece spells: a number of at most 100 followed by `'%'`.
pub open spec fn piece_percent(p: Seq<char>) -> Option<nat> {
    if p.len() > 0 && p.last() == '%' {
        match parse_unsigned(trim(p.drop_last()), 255) {
            Some(n) => if n <= 100 {
                Some(n)
            } else {
                None
            },
            None => None,
        }
    } else {
        None
    }
}

pub open spec fn first_percent(ps: Seq<Seq<char>>) -> Option<nat>
    decreases ps.len(),
{
    if ps.len() == 0 {
        None
    } else {
        match piece_percent(ps[0]) {
            Some(n) => Some(n),
            None => first_percent(ps.drop_first()),
        }
    }
}

pub open spec fn spec_extract_percent(s: Seq<char>) -> Option<nat> {
    first_percent(pieces_from(s, 0))
}

proof fn lemma_next_sep(s: Seq<char>, i: int)
    requires
        0 <= i <= s.len(),
    ensures
        i <= next_sep(s, i) <= s.len(),
    decreases s.len() - i,
{
    if i < s.len() && !is_sep(s[i]) {
        lemma_next_sep(s, i + 1);
    }
}

fn percent_of_piece(p: &[char]) -> (r: Option<u8>)
    ensures
        r matches Some(n) ==> piece_percent(p@) == Some(n as nat),
        r is None ==> piece_percent(p@) is None,
{
    if p.len() > 0 && p[p.len() - 1] == '%' {
        let num = copy_range(p, 0, p.len() - 1);
        assert(num@ =~= p@.drop_last());
        let t = trim_exec(num.as_slice());
        match parse_unsigned_exec(t.as_slice(), 255) {
            Some(n) => {
                if n <= 100 {
                    Some(n as u8)
                } else {
                    None
                }
            },
            None => None,
        }
    } else {
        None
    }
}

/// The first standalone percentage of at most 100 in `s`, such as the `22` of
/// `"1.200 MiB / 5.300 MiB, 22%, 300.000 KiB/s"`.
pub fn extract_percent(s: &str) -> (r: Option<u8>)
    ensures
        r matches Some(n) ==> spec_extract_percent(s@) == Some(n as nat) && n <= 100,
        r is None ==> spec_extract_percent(s@) is None,
{
    let cs = chars_of(s);
    let mut start: usize = 0;
    loop
        invariant
            start <= cs@.len(),
            cs@ == s@,
            spec_extract_percent(s@) == first_percent(pieces_from(s@, start as int)),
        decreases cs@.len() - start,
    {
        let mut k = start;
        while k < cs.len() && !(is_ws_char(cs[k]) || cs[k] == ',')
            invariant
                start <= k <= cs@.len(),
                next_sep(cs@, start as int) == next_sep(cs@, k as int),
            decreases cs.len() - k,
        {
            k += 1;
        }
        proof {
            lemma_next_sep(cs@, start as int);
        }
        let piece = copy_range(cs.as_slice(), start, k);
        let ghost ps = pieces_from(s@, start as int);
        assert(ps.len() > 0 && ps[0] == piece@);
        assert(ps.drop_first() =~= pieces_from(s@, k + 1));
        match percent_of_piece(piece.as_slice()) {
            Some(n) => {
                return Some(n);
            },
            None => {},
        }
        if k >= cs.len() {
            assert(pieces_from(s@, k + 1) =~= Seq::<Seq<char>>::empty());
            assert(first_percent(Seq::<Seq<char>>::empty()) is None);
            return None;
        }
        start = k + 1;
    }
}

pub open spec fn spec_progress_file_path(line: Seq<char>) -> Option<Seq<char>> {
    let sep = " : "@;
    match find_from(line, sep, 0) {
        None => None,
        Some(i1) => {
            let rest = line.subrange(i1 + sep.len(), line.len() as int);
            match rfind(rest, ":"@) {
                None => None,
                Some(idx) => {
                    let path = trim(rest.subrange(0, idx));
                    if path.len() == 0 {
                        None
                    } else {
                        Some(path)
                    }
                },
            }
        },
    }
}

fn progress_file_path(line: &[char]) -> (r: Option<Vec<char>>)
    ensures
        r matches Some(p) ==> spec_progress_file_path(line@) == Some(p@),
        r is None ==> spec_progress_file_path(line@) is None,
{
    let sep = chars_of(" : ");
    let i1 = match find_from_exec(line, sep.as_slice(), 0) {
        Some(i) => i,
        None => return None,
    };
    let rest = copy_range(line, i1 + sep.len(), line.len());
    let colon = chars_of(":");
    let idx = match rfind_exec(rest.as_slice(), colon.as_slice()) {
        Some(i) => i,
        None => return None,
    };
    let head = copy_range(rest.as_slice(), 0, idx);
    let path = trim_exec(head.as_slice());
    if path.len() == 0 {
        None
    } else {
        Some(path)
    }
}

/// Path in a file-level progress line
/// (`"2026/06/14 22:08:28 INFO  : path/to/file: Copied (new)"`): what lies between
/// the first `" : "` and the last `:` after it, trimmed.
pub fn extract_file_path(line: &str) -> (r: Option<String>)
    ensures
        r matches Some(p) ==> spec_progress_file_path(line@) == Some(p@),
        r is None ==> spec_progress_file_path(line@) is None,
{
    match progress_file_path(chars_of(line).as_slice()) {
        Some(p) => Some(string_of(p.as_slice())),
        None => None,
    }
}

/// A progress report to show while rclone runs.
pub enum ProgressEvent {
    /// Overall progress from a `Transferred:` line.
    Percent { percent: u8, raw: String },
    /// A file was copied, updated or deleted.
    File { file_path: String },
}

pub open spec fn spec_progress_event(line: Seq<char>) -> Option<(int, Seq<char>, bool)> {
    if starts_with(line, "Transferred:"@) {
        let rest = trim(line.subrange("Transferred:"@.len() as int, line.len() as int));
        match spec_extract_percent(rest) {
            Some(p) => Some((p as int, rest, true)),
            None => None,
        }
    } else if contains(line, ": Copied ("@) || contains(line, ": Updated ("@) || contains(
        line,
        ": Deleted"@,
    ) {
        match spec_progress_file_path(line) {
            Some(p) => Some((0, p, false)),
            None => None,
        }
    } else {
        None
    }
}

/// The path of a progress line of rclone's shape `<prefix> : <path>:<tail>`
/// is the path, trimmed, wherever the prefix (followed by a space) holds no
/// `" : "` and the tail no `:`; a path may itself hold colons.
pub proof fn law_progress_path_of_line(pre: Seq<char>, path: Seq<char>, tail: Seq<char>)
    requires
        !contains(pre + seq![' '], " : "@),
        forall|k: int| 0 <= k < tail.len() ==> tail[k] != ':',
        trim(path).len() > 0,
    ensures
        spec_progress_file_path(pre + " : "@ + path + ":"@ + tail) == Some(trim(path)),
{
    reveal_strlit(" : ");
    reveal_strlit(":");
    let sep = " : "@;
    let line = pre + sep + path + ":"@ + tail;
    let p = pre.len() as int;
    assert(line.subrange(p, p + 3) =~= sep);
    assert(matches_at(line, sep, p));
    assert forall|j: int| 0 <= j < p implies !#[trigger] matches_at(line, sep, j) by {
        if matches_at(line, sep, j) {
            if j + 3 <= p + 1 {
                let q = pre + seq![' '];
                assert(q.subrange(j, j + 3) =~= line.subrange(j, j + 3));
                assert(matches_at(q, sep, j));
            } else {
                assert(line.subrange(j, j + 3)[1] == line[j + 1]);
                assert(line[p] == ' ');
            }
        }
    }
    lemma_find_from_none(line, sep, 0);
    lemma_find_from_bounds(line, sep, 0);
    assert(find_from(line, sep, 0) == Some(p));
    let rest = line.subrange(p + 3, line.len() as int);
    assert(rest =~= path + ":"@ + tail);
    let c = path.len() as int;
    assert(rest.subrange(c, c + 1) =~= ":"@);
    assert forall|j: int| c < j <= rest.len() - 1 implies !#[trigger] matches_at(rest, ":"@, j) by {
        assert(rest[j] == tail[j - c - 1]);
        if matches_at(rest, ":"@, j) {
            assert(rest.subrange(j, j + 1)[0] == rest[j]);
        }
    }
    lemma_rfind_upto_at(rest, ":"@, rest.len() - 1, c);
    assert(rest.subrange(0, c) =~= path);
}

/// A deleted file is reported: a line of rclone's shape
/// `<prefix> : <path>: Deleted` gives a file event with the path, trimmed.
pub proof fn law_deleted_line_event(pre: Seq<char>, path: Seq<char>)
    requires
        !contains(pre + seq![' '], " : "@),
        !starts_with(pre + " : "@ + path + ": Deleted"@, "Transferred:"@),
        trim(path).len() > 0,
    ensures
        spec_progress_event(pre + " : "@ + path + ": Deleted"@) == Some((0int, trim(path), false)),
{
    reveal_strlit(": Deleted");
    reveal_strlit(" Deleted");
    reveal_strlit(":");
    reveal_strlit(" : ");
    let tail = " Deleted"@;
    assert(": Deleted"@ =~= ":"@ + tail);
    law_progress_path_of_line(pre, path, tail);
    let line = pre + " : "@ + path + ": Deleted"@;
    assert(line =~= pre + " : "@ + path + ":"@ + tail);
    let a = pre + " : "@ + path;
    let k = a.len() as int;
    assert(line =~= a + ": Deleted"@);
    assert(line.subrange(k, k + 9) =~= ": Deleted"@);
    assert(matches_at(line, ": Deleted"@, k));
    law_file_lines_give_file_events(line, trim(path));
}

/// A line reporting a copied, updated or deleted file (and not a
/// `Transferred:` line) gives a file event with the path between its first
/// `" : "` and the last `:` after it, where that path is not empty.
pub proof fn law_file_lines_give_file_events(line: Seq<char>, p: Seq<char>)
    requires
        !starts_with(line, "Transferred:"@),
        contains(line, ": Deleted"@) || contains(line, ": Copied ("@) || contains(line, ": Updated ("@),
        spec_progress_file_path(line) == Some(p),
    ensures
        spec_progress_event(line) == Some((0int, p, false)),
{
}

/// In particular a deleted file is reported like a copied one.
pub proof fn law_deleted_files_reported(line: Seq<char>)
    requires
        !starts_with(line, "Transferred:"@),
        contains(line, ": Deleted"@),
        spec_progress_file_path(line) is Some,
    ensures
        spec_progress_event(line) matches Some((_, path, false)) && Some(path) == spec_progress_file_path(line),
{
}

/// What a line of rclone's standard error reports, if anything: the percentage
/// of a `Transferred:` line, or the path of a copied, updated or deleted file.
pub fn progress_event(line: &str) -> (r: Option<ProgressEvent>)
    ensures
        match r {
            Some(ProgressEvent::Percent { percent, raw }) => spec_progress_event(line@) == Some(
                (percent as int, raw@, true),
            ),
            Some(ProgressEvent::File { file_path }) => spec_progress_event(line@) == Some(
                (0int, file_path@, false),
            ),
            None => spec_progress_event(line@) is None,
        },
{
    let cs = chars_of(line);
    if starts_with_exec(cs.as_slice(), "Transferred:") {
        let prefix_len = chars_of("Transferred:").len();
        let tail = copy_range(cs.as_slice(), prefix_len, cs.len());
        let rest = trim_exec(tail.as_slice());
        let raw = string_of(rest.as_slice());
        match extract_percent(raw.as_str()) {
            Some(p) => Some(ProgressEvent::Percent { percent: p, raw }),
            None => None,
        }
    } else if has_text(cs.as_slice(), ": Copied (") || has_text(cs.as_slice(), ": Updated (")
        || has_text(cs.as_slice(), ": Deleted") {
        match progress_file_path(cs.as_slice()) {
            Some(p) => Some(ProgressEvent::File { file_path: string_of(p.as_slice()) }),
            None => None,
        }
    } else {
        None
    }
}

// ───────────────────── connection test ─────────────────────

pub open spec fn spec_connection_report(success: bool, stderr: Seq<char>) -> (bool, Seq<char>) {
    if success {
        (true, "Connection successful"@)
    } else {
        (
            false,
            "Connection failed: "@ + if lines(stderr).len() > 0 {
                lines(stderr)[0]
            } else {
                "Unknown error"@
            },
        )
    }
}

/// The answer to a connection test from the exit status of `rclone lsd` and
/// its standard error: on failure, the first line of the error.
pub fn connection_report(success: bool, stderr: &str) -> (r: (bool, String))
    ensures
        (r.0, r.1@) == spec_connection_report(success, stderr@),
{
    if success {
        return (true, owned("Connection successful"));
    }
    let cs = chars_of(stderr);
    let first: Vec<char>;
    if cs.len() == 0 {
        first = chars_of("Unknown error");
        assert(lines(stderr@) =~= Seq::<Seq<char>>::empty());
    } else {
        let nl = chars_of("\n");
        proof {
            reveal_strlit("\n");
        }
        assert(nl@ =~= seq!['\n']);
        match find_from_exec(cs.as_slice(), nl.as_slice(), 0) {
            Some(k) => {
                proof {
                    lemma_find_from_bounds(cs@, nl@, 0);
                }
                let raw = copy_range(cs.as_slice(), 0, k);
                if raw.len() > 0 && raw[raw.len() - 1] == '\r' {
                    first = copy_range(raw.as_slice(), 0, raw.len() - 1);
                    assert(first@ =~= raw@.drop_last());
                } else {
                    first = raw;
                }
            },
            None => {
                first = copy_range(cs.as_slice(), 0, cs.len());
            },
        }
    }
    assert(lines(stderr@).len() > 0 ==> lines(stderr@)[0] == first@);
    let msg = concat(chars_of("Connection failed: ").as_slice(), first.as_slice());
    (false, string_of(msg.as_slice()))
}

/// Arguments of `rclone lsd r2:<bucket>` that test the connection.
pub fn connection_test_args(bucket: &str, config_path: &str) -> (args: Vec<String>)
    ensures
        args@.map_values(|a: String| a@) == seq![
            "lsd"@,
            "r2:"@ + bucket@,
            "--config"@,
            config_path@,
            "--max-depth"@,
            "1"@,
        ],
{
    let mut args: Vec<String> = Vec::new();
    args.push(owned("lsd"));
    args.push(string_of(concat(chars_of("r2:").as_slice(), chars_of(bucket).as_slice()).as_slice()));
    args.push(owned("--config"));
    args.push(owned(config_path));
    args.push(owned("--max-depth"));
    args.push(owned("1"));
    assert(args@.map_values(|a: String| a@) =~= seq![
        "lsd"@,
        "r2:"@ + bucket@,
        "--config"@,
        config_path@,
        "--max-depth"@,
        "1"@,
    ]);
    args
}

/// The platforms whose rclone keeps its bisync listings in different places.
#[derive(Debug, Clone, Copy, PartialEq, Eq, Structural)]
pub enum Platform {
    MacOs,
    /// Linux, Android and other Unix systems.
    Unix,
    Windows,
}

/// Where rclone keeps its bisync listings, as a directory and a path below
/// it: `$RCLONE_CACHE_DIR/bisync` where that is set; otherwise the
/// platform's cache directory (`$HOME/Library/Caches` on macOS,
/// `$XDG_CACHE_HOME` or `$HOME/.cache` on Unix, `%LOCALAPPDATA%` on Windows)
/// followed by `rclone/bisync`; nothing where the variable it needs is unset.
pub open spec fn spec_bisync_cache_dir(
    platform: Platform,
    rclone_cache_dir: Option<Seq<char>>,
    home: Option<Seq<char>>,
    xdg_cache_home: Option<Seq<char>>,
    local_app_data: Option<Seq<char>>,
) -> Option<(Seq<char>, Seq<char>)> {
    match rclone_cache_dir {
        Some(c) => Some((c, "bisync"@)),
        None => match platform {
            Platform::MacOs => match home {
                Some(h) => Some((h, "Library/Caches/rclone/bisync"@)),
                None => None,
            },
            Platform::Unix => match xdg_cache_home {
                Some(x) => Some((x, "rclone/bisync"@)),
                None => match home {
                    Some(h) => Some((h, ".cache/rclone/bisync"@)),
                    None => None,
                },
            },
            Platform::Windows => match local_app_data {
                Some(a) => Some((a, "rclone/bisync"@)),
                None => None,
            },
        },
    }
}

/// See `spec_bisync_cache_dir`; the variables are given as the environment
/// holds them.
pub fn bisync_cache_dir(
    platform: Platform,
    rclone_cache_dir: Option<String>,
    home: Option<String>,
    xdg_cache_home: Option<String>,
    local_app_data: Option<String>,
) -> (r: Option<(String, String)>)
    ensures
        match r {
            Some((d, p)) => spec_bisync_cache_dir(
                platform,
                opt_view(rclone_cache_dir),
                opt_view(home),
                opt_view(xdg_cache_home),
                opt_view(local_app_data),
            ) == Some((d@, p@)),
            None => spec_bisync_cache_dir(
                platform,
                opt_view(rclone_cache_dir),
                opt_view(home),
                opt_view(xdg_cache_home),
                opt_view(local_app_data),
            ) is None,
        },
{
    if let Some(c) = rclone_cache_dir {
        return Some((c, owned("bisync")));
    }
    match platform {
        Platform::MacOs => match home {
            Some(h) => Some((h, owned("Library/Caches/rclone/bisync"))),
            None => None,
        },
        Platform::Unix => match xdg_cache_home {
            Some(x) => Some((x, owned("rclone/bisync"))),
            None => match home {
                Some(h) => Some((h, owned(".cache/rclone/bisync"))),
                None => None,
            },
        },
        Platform::Windows => match local_app_data {
            Some(a) => Some((a, owned("rclone/bisync"))),
            None => None,
        },
    }
}

} // verus!
