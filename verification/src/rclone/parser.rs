//! Reading the output of `rclone bisync --verbose`.
use vstd::prelude::*;

use crate::text::{
    chars_of, concat, contains, copy_range, find_from, find_from_exec, first_token, matches_at,
    lemma_rfind_upto_at,
    first_token_exec, has_text, lemma_find_from_bounds, lemma_rfind_bounds, lines,
    lines_from, parse_unsigned, parse_unsigned_exec, rfind, rfind_exec, starts_with,
    starts_with_exec, string_of, trim, trim_exec, trim_start, trim_start_exec,
};
use super::types::{ConflictInfo, ConflictView, SyncResult, SyncResultView, strings_view};

verus! {

// ───────────────────────── specifications ─────────────────────────

/// The path in an INFO transfer line such as
/// `"2026/06/14 12:30:00 INFO  : dir/file.txt: Copied (new)"`: the text between
/// the first `" : "` and the next one (or the end), cut at its last `':'`, trimmed.
pub open spec fn spec_transfer_line_path(line: Seq<char>) -> Option<Seq<char>> {
    let sep = " : "@;
    match find_from(line, sep, 0) {
        None => None,
        Some(i1) => {
            let start = i1 + sep.len();
            let end = match find_from(line, sep, start) {
                Some(i2) => i2,
                None => line.len() as int,
            };
            let piece = line.subrange(start, end);
            match rfind(piece, ":"@) {
                None => None,
                Some(c) => {
                    let path = trim(piece.subrange(0, c));
                    if path.len() == 0 {
                        None
                    } else {
                        Some(path)
                    }
                },
            }
        },
    }
}

/// The count in a summary line such as `"Transferred:   3 / 3, 100%"`: the first
/// whitespace-separated token after the first `':'`, read as a `u32`.
pub open spec fn spec_transferred_count(line: Seq<char>) -> Option<nat> {
    match find_from(line, ":"@, 0) {
        None => None,
        Some(i) => {
            let after = trim(line.subrange(i + 1, line.len() as int));
            match first_token(after) {
                None => None,
                Some(t) => parse_unsigned(t, u32::MAX as nat),
            }
        },
    }
}

/// The file named in a conflict warning: what follows the last `" - "`, trimmed.
pub open spec fn spec_conflict_path(line: Seq<char>) -> Option<Seq<char>> {
    match rfind(line, " - "@) {
        None => None,
        Some(idx) => {
            let path = trim(line.subrange(idx + " - "@.len(), line.len() as int));
            if path.len() == 0 {
                None
            } else {
                Some(path)
            }
        },
    }
}

pub open spec fn is_conflict_line(line: Seq<char>) -> bool {
    contains(line, "WARNING"@) && contains(line, "New or changed in both paths"@)
}

pub open spec fn is_transfer_line(line: Seq<char>) -> bool {
    (contains(line, ": Copied"@) || contains(line, ": Updated"@) || contains(line, ": Moved"@))
        && contains(line, "INFO"@)
}

pub open spec fn is_delete_line(line: Seq<char>) -> bool {
    contains(line, ": Deleted"@) && contains(line, "INFO"@)
}

pub open spec fn is_summary_line(line: Seq<char>) -> bool {
    starts_with(trim_start(line), "Transferred:"@) && !contains(line, "Bytes"@)
}

pub open spec fn is_error_line(line: Seq<char>) -> bool {
    (contains(line, "ERROR"@) || contains(line, "Failed to"@)) && !contains(line, "NOTICE"@)
}

pub open spec fn step_conflict(acc: SyncResultView, line: Seq<char>) -> SyncResultView {
    if is_conflict_line(line) {
        match spec_conflict_path(line) {
            Some(p) => SyncResultView {
                conflicts: acc.conflicts.push(
                    ConflictView { file_path: p, local_version: None, remote_version: None },
                ),
                ..acc
            },
            None => acc,
        }
    } else {
        acc
    }
}

pub open spec fn step_transfer(acc: SyncResultView, line: Seq<char>) -> SyncResultView {
    if is_transfer_line(line) {
        match spec_transfer_line_path(line) {
            Some(p) => SyncResultView {
                files_transferred: acc.files_transferred + 1,
                transferred_paths: acc.transferred_paths.push(p),
                ..acc
            },
            None => acc,
        }
    } else if is_delete_line(line) {
        match spec_transfer_line_path(line) {
            Some(p) => SyncResultView {
                files_deleted: acc.files_deleted + 1,
                transferred_paths: acc.transferred_paths.push("(deleted) "@ + p),
                ..acc
            },
            None => acc,
        }
    } else {
        acc
    }
}

/// The count of the summary lines seen so far after one more line: the
/// first non-zero `Transferred:` count is kept.
pub open spec fn step_summary(found: nat, line: Seq<char>) -> nat {
    if found == 0 && is_summary_line(line) {
        match spec_transferred_count(line) {
            Some(n) => n,
            None => found,
        }
    } else {
        found
    }
}

/// The first non-zero count of a `Transferred:` summary among the lines, 0
/// where there is none (starting from `found`).
pub open spec fn summary_count(ls: Seq<Seq<char>>, found: nat) -> nat
    decreases ls.len(),
{
    if ls.len() == 0 {
        found
    } else {
        summary_count(ls.drop_first(), step_summary(found, ls[0]))
    }
}

pub open spec fn step_error(acc: SyncResultView, line: Seq<char>) -> SyncResultView {
    if is_error_line(line) && trim(line).len() > 0 {
        SyncResultView { errors: acc.errors.push(trim(line)), ..acc }
    } else {
        acc
    }
}

pub open spec fn step_success(acc: SyncResultView, line: Seq<char>) -> SyncResultView {
    if contains(line, "Bisync successful"@) {
        SyncResultView { success: true, ..acc }
    } else {
        acc
    }
}

/// What one line of output adds to the result.
pub open spec fn parse_step(acc: SyncResultView, line: Seq<char>) -> SyncResultView {
    step_success(step_error(step_transfer(step_conflict(acc, line), line), line), line)
}

pub open spec fn parse_lines(ls: Seq<Seq<char>>, acc: SyncResultView) -> SyncResultView
    decreases ls.len(),
{
    if ls.len() == 0 {
        acc
    } else {
        parse_lines(ls.drop_first(), parse_step(acc, ls[0]))
    }
}

pub open spec fn initial_result(exit_code: i32, duration_ms: u64) -> SyncResultView {
    SyncResultView {
        success: exit_code == 0,
        files_transferred: 0,
        files_deleted: 0,
        transferred_paths: Seq::empty(),
        errors: Seq::empty(),
        conflicts: Seq::empty(),
        duration_ms,
    }
}

/// The transfer count: the transfer lines where there is one, else the
/// summary's count.
pub open spec fn with_summary(r: SyncResultView, summary: nat) -> SyncResultView {
    if r.files_transferred == 0 {
        SyncResultView { files_transferred: summary, ..r }
    } else {
        r
    }
}

/// Errors without conflicts make a run a failure.
pub open spec fn settle_success(r: SyncResultView) -> SyncResultView {
    if r.errors.len() > 0 && r.conflicts.len() == 0 {
        SyncResultView { success: false, ..r }
    } else {
        r
    }
}

/// The result read from standard output and standard error, taken line by line
/// in that order.
pub open spec fn spec_parse_bisync_output(
    stdout: Seq<char>,
    stderr: Seq<char>,
    exit_code: i32,
    duration_ms: u64,
) -> SyncResultView {
    let ls = lines(stdout + seq!['\n'] + stderr);
    let r = parse_lines(ls, initial_result(exit_code, duration_ms));
    settle_success(with_summary(r, summary_count(ls, 0)))
}

// ───────────────────────── lemmas ─────────────────────────

pub proof fn lemma_parse_lines_grows(ls: Seq<Seq<char>>, acc: SyncResultView)
    ensures
        parse_lines(ls, acc).files_transferred >= acc.files_transferred,
        parse_lines(ls, acc).files_deleted >= acc.files_deleted,
    decreases ls.len(),
{
    if ls.len() > 0 {
        lemma_parse_lines_grows(ls.drop_first(), parse_step(acc, ls[0]));
    }
}

/// A run that reported errors fails unless it also reported conflicts,
/// whatever its exit code and success marker said.
pub proof fn law_errors_without_conflicts_fail(
    stdout: Seq<char>,
    stderr: Seq<char>,
    exit_code: i32,
    duration_ms: u64,
)
    ensures
        ({
            let r = spec_parse_bisync_output(stdout, stderr, exit_code, duration_ms);
            r.errors.len() > 0 && r.conflicts.len() == 0 ==> !r.success
        }),
{
}

/// The file a conflict warning of the shape `<text> - <name>` names is the
/// name, trimmed, wherever the name (after a space) holds no `" - "`.
pub proof fn law_conflict_path_of_line(pre: Seq<char>, name: Seq<char>)
    requires
        !contains(seq![' '] + name, " - "@),
        trim(name).len() > 0,
    ensures
        spec_conflict_path(pre + " - "@ + name) == Some(trim(name)),
{
    reveal_strlit(" - ");
    let sep = " - "@;
    let line = pre + sep + name;
    let p = pre.len() as int;
    assert(line.subrange(p, p + 3) =~= sep);
    assert forall|j: int| p < j <= line.len() - 3 implies !#[trigger] matches_at(line, sep, j) by {
        if matches_at(line, sep, j) {
            if j == p + 1 {
                assert(line.subrange(j, j + 3)[0] == line[p + 1]);
            } else {
                let q = seq![' '] + name;
                assert(q.subrange(j - p - 2, j - p + 1) =~= line.subrange(j, j + 3));
                assert(matches_at(q, sep, j - p - 2));
            }
        }
    }
    lemma_rfind_upto_at(line, sep, line.len() - 3, p);
    assert(line.subrange(p + 3, line.len() as int) =~= name);
}

/// Every conflict warning of that shape adds the conflict on its file.
pub proof fn law_conflict_warning_names_its_file(acc: SyncResultView, pre: Seq<char>, name: Seq<char>)
    requires
        contains(pre, "WARNING"@),
        contains(pre, "New or changed in both paths"@),
        !contains(seq![' '] + name, " - "@),
        trim(name).len() > 0,
    ensures
        parse_step(acc, pre + " - "@ + name).conflicts == acc.conflicts.push(
            ConflictView { file_path: trim(name), local_version: None, remote_version: None },
        ),
{
    let line = pre + " - "@ + name;
    law_conflict_path_of_line(pre, name);
    let a = choose|i: int| matches_at(pre, "WARNING"@, i);
    assert(line.subrange(a, a + "WARNING"@.len()) =~= pre.subrange(a, a + "WARNING"@.len()));
    assert(matches_at(line, "WARNING"@, a));
    let b = choose|i: int| matches_at(pre, "New or changed in both paths"@, i);
    assert(line.subrange(b, b + "New or changed in both paths"@.len()) =~= pre.subrange(
        b,
        b + "New or changed in both paths"@.len(),
    ));
    assert(matches_at(line, "New or changed in both paths"@, b));
    law_conflict_line_adds_one(acc, line);
    assert(acc.conflicts + seq![
        ConflictView { file_path: trim(name), local_version: None, remote_version: None },
    ] =~= acc.conflicts.push(
        ConflictView { file_path: trim(name), local_version: None, remote_version: None },
    ));
}

/// The files named by the conflict warnings among `ls`, in order: one for
/// every line that holds both `WARNING` and `New or changed in both paths`
/// and names a file.
pub open spec fn warned_files(ls: Seq<Seq<char>>) -> Seq<Seq<char>>
    decreases ls.len(),
{
    if ls.len() == 0 {
        Seq::empty()
    } else {
        let l = ls[0];
        let here = if contains(l, "WARNING"@) && contains(l, "New or changed in both paths"@) {
            match spec_conflict_path(l) {
                Some(p) => seq![p],
                None => Seq::empty(),
            }
        } else {
            Seq::empty()
        };
        here + warned_files(ls.drop_first())
    }
}

pub open spec fn conflict_files(cs: Seq<ConflictView>) -> Seq<Seq<char>> {
    cs.map_values(|c: ConflictView| c.file_path)
}

/// One line never touches the conflicts already recorded: a conflict warning
/// that names a file adds exactly that conflict after them (with no versions
/// known), whatever was recorded before; any other line adds none.
pub proof fn law_conflict_line_adds_one(acc: SyncResultView, line: Seq<char>)
    ensures
        parse_step(acc, line).conflicts == acc.conflicts + if contains(line, "WARNING"@) && contains(
            line,
            "New or changed in both paths"@,
        ) {
            match spec_conflict_path(line) {
                Some(p) => seq![ConflictView { file_path: p, local_version: None, remote_version: None }],
                None => Seq::empty(),
            }
        } else {
            Seq::empty()
        },
{
    let c = parse_step(acc, line).conflicts;
    if is_conflict_line(line) {
        match spec_conflict_path(line) {
            Some(p) => {
                assert(c =~= acc.conflicts + seq![
                    ConflictView { file_path: p, local_version: None, remote_version: None },
                ]);
            },
            None => {
                assert(c =~= acc.conflicts + Seq::<ConflictView>::empty());
            },
        }
    } else {
        assert(c =~= acc.conflicts + Seq::<ConflictView>::empty());
    }
}

proof fn lemma_conflicts_of_lines(ls: Seq<Seq<char>>, acc: SyncResultView)
    ensures
        conflict_files(parse_lines(ls, acc).conflicts) == conflict_files(acc.conflicts) + warned_files(ls),
        forall|i: int|
            0 <= i < acc.conflicts.len() ==> parse_lines(ls, acc).conflicts[i] == acc.conflicts[i],
        forall|i: int|
            acc.conflicts.len() <= i < parse_lines(ls, acc).conflicts.len() ==> (#[trigger] parse_lines(
                ls,
                acc,
            ).conflicts[i]).local_version is None && parse_lines(ls, acc).conflicts[i].remote_version is None,
    decreases ls.len(),
{
    if ls.len() == 0 {
        assert(conflict_files(acc.conflicts) + warned_files(ls) =~= conflict_files(acc.conflicts));
    } else {
        let next = parse_step(acc, ls[0]);
        law_conflict_line_adds_one(acc, ls[0]);
        lemma_conflicts_of_lines(ls.drop_first(), next);
        let l = ls[0];
        let here = if contains(l, "WARNING"@) && contains(l, "New or changed in both paths"@) {
            match spec_conflict_path(l) {
                Some(p) => seq![p],
                None => Seq::<Seq<char>>::empty(),
            }
        } else {
            Seq::<Seq<char>>::empty()
        };
        assert(conflict_files(next.conflicts) =~= conflict_files(acc.conflicts) + here);
        let fin = parse_lines(ls, acc);
        assert(fin == parse_lines(ls.drop_first(), next));
        assert(next.conflicts.len() >= acc.conflicts.len());
        assert forall|i: int| 0 <= i < acc.conflicts.len() implies fin.conflicts[i] == acc.conflicts[i] by {
            assert(fin.conflicts[i] == next.conflicts[i]);
            assert(next.conflicts[i] == acc.conflicts[i]);
        }
        assert forall|i: int| acc.conflicts.len() <= i < fin.conflicts.len() implies (
        #[trigger] fin.conflicts[i]).local_version is None && fin.conflicts[i].remote_version is None by {
            if i < next.conflicts.len() {
                assert(fin.conflicts[i] == next.conflicts[i]);
            }
        }
        assert(conflict_files(acc.conflicts) + here + warned_files(ls.drop_first()) =~= conflict_files(
            acc.conflicts,
        ) + warned_files(ls));
    }
}

/// Every conflict warning of the output that names a file gives its own
/// conflict, in the order of the lines, and nothing else gives one: the
/// conflicts of the result are exactly the files the warnings name, each with
/// no versions known.
pub proof fn law_every_conflict_warning_counts(
    stdout: Seq<char>,
    stderr: Seq<char>,
    exit_code: i32,
    duration_ms: u64,
)
    ensures
        ({
            let r = spec_parse_bisync_output(stdout, stderr, exit_code, duration_ms);
            &&& conflict_files(r.conflicts) == warned_files(lines(stdout + seq!['\n'] + stderr))
            &&& r.conflicts.len() == warned_files(lines(stdout + seq!['\n'] + stderr)).len()
            &&& forall|i: int|
                0 <= i < r.conflicts.len() ==> (#[trigger] r.conflicts[i]).local_version is None
                    && r.conflicts[i].remote_version is None
        }),
{
    let ls = lines(stdout + seq!['\n'] + stderr);
    let init = initial_result(exit_code, duration_ms);
    lemma_conflicts_of_lines(ls, init);
    assert(conflict_files(init.conflicts) =~= Seq::<Seq<char>>::empty());
    assert(Seq::<Seq<char>>::empty() + warned_files(ls) =~= warned_files(ls));
    let r = spec_parse_bisync_output(stdout, stderr, exit_code, duration_ms);
    assert(r.conflicts.len() == conflict_files(r.conflicts).len());
}

// ───────────────────────── executable ─────────────────────────

fn transfer_line_path(line: &[char]) -> (r: Option<Vec<char>>)
    ensures
        r matches Some(p) ==> spec_transfer_line_path(line@) == Some(p@),
        r is None ==> spec_transfer_line_path(line@) is None,
{
    let sep = chars_of(" : ");
    let i1 = match find_from_exec(line, sep.as_slice(), 0) {
        Some(i) => i,
        None => return None,
    };
    proof {
        lemma_find_from_bounds(line@, sep@, 0);
    }
    let start = i1 + sep.len();
    let end = match find_from_exec(line, sep.as_slice(), start) {
        Some(i2) => i2,
        None => line.len(),
    };
    proof {
        lemma_find_from_bounds(line@, sep@, start as int);
    }
    let piece = copy_range(line, start, end);
    let colon = chars_of(":");
    let c = match rfind_exec(piece.as_slice(), colon.as_slice()) {
        Some(c) => c,
        None => return None,
    };
    proof {
        reveal_strlit(":");
        lemma_rfind_bounds(piece@, colon@);
    }
    let head = copy_range(piece.as_slice(), 0, c);
    let path = trim_exec(head.as_slice());
    if path.len() == 0 {
        None
    } else {
        Some(path)
    }
}

fn conflict_path(line: &[char]) -> (r: Option<Vec<char>>)
    ensures
        r matches Some(p) ==> spec_conflict_path(line@) == Some(p@),
        r is None ==> spec_conflict_path(line@) is None,
{
    let sep = chars_of(" - ");
    let idx = match rfind_exec(line, sep.as_slice()) {
        Some(i) => i,
        None => return None,
    };
    proof {
        lemma_rfind_bounds(line@, sep@);
    }
    let tail = copy_range(line, idx + sep.len(), line.len());
    let path = trim_exec(tail.as_slice());
    if path.len() == 0 {
        None
    } else {
        Some(path)
    }
}

fn transferred_count(line: &[char]) -> (r: Option<u32>)
    ensures
        r matches Some(n) ==> spec_transferred_count(line@) == Some(n as nat),
        r is None ==> spec_transferred_count(line@) is None,
{
    let colon = chars_of(":");
    let i = match find_from_exec(line, colon.as_slice(), 0) {
        Some(i) => i,
        None => return None,
    };
    proof {
        reveal_strlit(":");
        lemma_find_from_bounds(line@, colon@, 0);
    }
    let rest = copy_range(line, i + 1, line.len());
    let after = trim_exec(rest.as_slice());
    let tok = match first_token_exec(after.as_slice()) {
        Some(t) => t,
        None => return None,
    };
    match parse_unsigned_exec(tok.as_slice(), 0xFFFF_FFFF) {
        Some(n) => Some(n as u32),
        None => None,
    }
}

/// Path from an INFO transfer line; for
/// `"2026/06/14 12:30:00 INFO  : relative/path/file.txt: Copied (new)"` it is
/// `"relative/path/file.txt"`.
pub fn extract_file_path(line: &str) -> (r: Option<String>)
    ensures
        r matches Some(p) ==> spec_transfer_line_path(line@) == Some(p@),
        r is None ==> spec_transfer_line_path(line@) is None,
{
    let l = chars_of(line);
    match transfer_line_path(l.as_slice()) {
        Some(p) => Some(string_of(p.as_slice())),
        None => None,
    }
}

/// The item count of a summary line; `"Transferred:   3 / 3, 100%"` gives 3.
pub fn parse_transferred_count(line: &str) -> (r: Option<u32>)
    ensures
        r matches Some(n) ==> spec_transferred_count(line@) == Some(n as nat),
        r is None ==> spec_transferred_count(line@) is None,
{
    let l = chars_of(line);
    transferred_count(l.as_slice())
}

/// The file named in a `"New or changed in both paths"` warning.
pub fn extract_conflict_path(line: &str) -> (r: Option<String>)
    ensures
        r matches Some(p) ==> spec_conflict_path(line@) == Some(p@),
        r is None ==> spec_conflict_path(line@) is None,
{
    let l = chars_of(line);
    match conflict_path(l.as_slice()) {
        Some(p) => Some(string_of(p.as_slice())),
        None => None,
    }
}

proof fn lemma_push_view(v: Seq<String>, s: String)
    ensures
        strings_view(v.push(s)) == strings_view(v).push(s@),
{
    assert(strings_view(v.push(s)) =~= strings_view(v).push(s@));
}

fn apply_line(acc: &mut SyncResult, line: &[char])
    requires
        parse_step(old(acc)@, line@).files_transferred <= u32::MAX,
        parse_step(old(acc)@, line@).files_deleted <= u32::MAX,
    ensures
        final(acc)@ == parse_step(old(acc)@, line@),
{
    let ghost a0 = acc@;
    // conflicts
    if has_text(line, "WARNING") && has_text(line, "New or changed in both paths") {
        match conflict_path(line) {
            Some(p) => {
                let ghost cs = acc.conflicts@;
                let c = ConflictInfo {
                    file_path: string_of(p.as_slice()),
                    local_version: None,
                    remote_version: None,
                };
                acc.conflicts.push(c);
                assert(acc.conflicts@.map_values(|c: ConflictInfo| c@) =~= cs.map_values(
                    |c: ConflictInfo| c@,
                ).push(c@));
            },
            None => {},
        }
    }
    let ghost a1 = acc@;
    assert(a1 == step_conflict(a0, line@));
    // transfers and deletions
    if (has_text(line, ": Copied") || has_text(line, ": Updated") || has_text(line, ": Moved")) && has_text(
        line,
        "INFO",
    ) {
        match transfer_line_path(line) {
            Some(p) => {
                acc.files_transferred = acc.files_transferred + 1;
                let s = string_of(p.as_slice());
                proof {
                    lemma_push_view(acc.transferred_paths@, s);
                }
                acc.transferred_paths.push(s);
            },
            None => {},
        }
    } else if has_text(line, ": Deleted") && has_text(line, "INFO") {
        match transfer_line_path(line) {
            Some(p) => {
                acc.files_deleted = acc.files_deleted + 1;
                let prefix = chars_of("(deleted) ");
                let full = concat(prefix.as_slice(), p.as_slice());
                let s = string_of(full.as_slice());
                proof {
                    lemma_push_view(acc.transferred_paths@, s);
                }
                acc.transferred_paths.push(s);
            },
            None => {},
        }
    }
    let ghost a2 = acc@;
    assert(a2 == step_transfer(a1, line@));
    let ghost a3 = acc@;
    // errors
    if (has_text(line, "ERROR") || has_text(line, "Failed to")) && !has_text(line, "NOTICE") {
        let t = trim_exec(line);
        if t.len() > 0 {
            let s = string_of(t.as_slice());
            proof {
                lemma_push_view(acc.errors@, s);
            }
            acc.errors.push(s);
        }
    }
    let ghost a4 = acc@;
    assert(a4 == step_error(a3, line@));
    if has_text(line, "Bisync successful") {
        acc.success = true;
    }
}

/// Whether the counts of the result of one more line still fit in a `u32`.
fn step_fits(acc: &SyncResult, line: &[char]) -> (b: bool)
    ensures
        b <==> (parse_step(acc@, line@).files_transferred <= u32::MAX
            && parse_step(acc@, line@).files_deleted <= u32::MAX),
{
    let transfer = (has_text(line, ": Copied") || has_text(line, ": Updated") || has_text(
        line,
        ": Moved",
    )) && has_text(line, "INFO");
    let delete = has_text(line, ": Deleted") && has_text(line, "INFO");
    let found = transfer_line_path(line).is_some();
    if transfer {
        !(found && acc.files_transferred == u32::MAX)
    } else if delete {
        !(found && acc.files_deleted == u32::MAX)
    } else {
        true
    }
}

/// The first non-zero count of a summary line, after one more line.
fn summary_step(found: u32, line: &[char]) -> (r: u32)
    ensures
        r == step_summary(found as nat, line@),
{
    if found == 0 {
        let trimmed_start = trim_start_exec(line);
        if starts_with_exec(trimmed_start.as_slice(), "Transferred:") && !has_text(line, "Bytes") {
            match transferred_count(line) {
                Some(n) => {
                    return n;
                },
                None => {},
            }
        }
    }
    found
}

/// The counts of a bisync result read from this output fit in a `u32`.
pub open spec fn counts_fit(stdout: Seq<char>, stderr: Seq<char>, exit_code: i32, duration_ms: u64) -> bool {
    &&& spec_parse_bisync_output(stdout, stderr, exit_code, duration_ms).files_transferred <= u32::MAX
    &&& spec_parse_bisync_output(stdout, stderr, exit_code, duration_ms).files_deleted <= u32::MAX
}

/// `parse_bisync_output` where its counts fit in a `u32`; `None` where they
/// would not.
pub fn parse_bisync_output_checked(
    stdout: &str,
    stderr: &str,
    exit_code: i32,
    duration_ms: u64,
) -> (r: Option<SyncResult>)
    ensures
        match r {
            Some(x) => counts_fit(stdout@, stderr@, exit_code, duration_ms) && x@
                == spec_parse_bisync_output(stdout@, stderr@, exit_code, duration_ms),
            None => !counts_fit(stdout@, stderr@, exit_code, duration_ms),
        },
{
    let mut result = SyncResult {
        success: exit_code == 0,
        files_transferred: 0,
        files_deleted: 0,
        transferred_paths: Vec::new(),
        errors: Vec::new(),
        conflicts: Vec::new(),
        duration_ms,
    };
    assert(result@.transferred_paths =~= Seq::<Seq<char>>::empty());
    assert(result@.errors =~= Seq::<Seq<char>>::empty());
    assert(result@.conflicts =~= Seq::<ConflictView>::empty());
    let out = chars_of(stdout);
    let err = chars_of(stderr);
    let nl = chars_of("\n");
    proof {
        reveal_strlit("\n");
    }
    let head = concat(out.as_slice(), nl.as_slice());
    let combined = concat(head.as_slice(), err.as_slice());
    let ghost c = combined@;
    assert(c == stdout@ + seq!['\n'] + stderr@);
    let ghost total = parse_lines(lines(c), initial_result(exit_code, duration_ms));
    let ghost stotal = summary_count(lines(c), 0);
    let mut summary: u32 = 0;
    let mut start: usize = 0;
    while start < combined.len()
        invariant
            start <= c.len(),
            combined@ == c,
            nl@ == seq!['\n'],
            c == stdout@ + seq!['\n'] + stderr@,
            total == parse_lines(lines(c), initial_result(exit_code, duration_ms)),
            total == parse_lines(lines_from(c, start as int), result@),
            stotal == summary_count(lines(c), 0),
            stotal == summary_count(lines_from(c, start as int), summary as nat),
        decreases c.len() - start,
    {
        let found = find_from_exec(combined.as_slice(), nl.as_slice(), start);
        let ghost ls = lines_from(c, start as int);
        let line: Vec<char>;
        let next: usize;
        match found {
            Some(k) => {
                proof {
                    lemma_find_from_bounds(c, seq!['\n'], start as int);
                }
                let raw = copy_range(combined.as_slice(), start, k);
                if raw.len() > 0 && raw[raw.len() - 1] == '\r' {
                    line = copy_range(raw.as_slice(), 0, raw.len() - 1);
                    assert(line@ =~= raw@.drop_last());
                } else {
                    line = raw;
                }
                next = k + 1;
            },
            None => {
                line = copy_range(combined.as_slice(), start, combined.len());
                next = combined.len();
            },
        }
        assert(ls.len() > 0 && ls[0] == line@);
        assert(ls.drop_first() =~= lines_from(c, next as int));
        proof {
            lemma_parse_lines_grows(ls.drop_first(), parse_step(result@, line@));
        }
        if !step_fits(&result, line.as_slice()) {
            return None;
        }
        apply_line(&mut result, line.as_slice());
        summary = summary_step(summary, line.as_slice());
        start = next;
    }
    assert(lines_from(c, start as int) =~= Seq::<Seq<char>>::empty());
    if result.files_transferred == 0 {
        result.files_transferred = summary;
    }
    if result.errors.len() > 0 && result.conflicts.len() == 0 {
        result.success = false;
    }
    Some(result)
}

/// Reads the output of `rclone bisync --verbose`: transfer and deletion lines,
/// the `Transferred:` summary (its first non-zero count is the transfer count
/// only where no transfer line was read), conflict warnings, error lines and
/// the `Bisync successful` marker. Errors without conflicts make the run a
/// failure.
pub fn parse_bisync_output(stdout: &str, stderr: &str, exit_code: i32, duration_ms: u64) -> (r:
    SyncResult)
    requires
        counts_fit(stdout@, stderr@, exit_code, duration_ms),
    ensures
        r@ == spec_parse_bisync_output(stdout@, stderr@, exit_code, duration_ms),
{
    parse_bisync_output_checked(stdout, stderr, exit_code, duration_ms).unwrap()
}

} // verus!
