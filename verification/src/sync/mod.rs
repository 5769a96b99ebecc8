//! What a finished sync is reported as: the backend report, the log message,
//! and the folder checks made before a sync or a release.
pub mod release;
pub mod scheduler;

use vstd::prelude::*;

use crate::auth::client::{ConflictReport, SyncReport};
use crate::auth::token_store::AuthTokens;
use crate::error::AppError;
use crate::rclone::types::{ConflictInfo, SyncResult, strings_view};
use crate::text::{
    chars_of, concat, copy_range, decimal, decimal_exec, owned, rfind, rfind_exec,
    string_of, text_eq,
};

verus! {

/// What follows the last `/` of a path (all of it where there is none).
pub open spec fn last_component(p: Seq<char>) -> Seq<char> {
    match rfind(p, "/"@) {
        Some(i) => p.subrange(i + 1, p.len() as int),
        None => p,
    }
}

/// Texts joined by a separator.
pub open spec fn join_with(parts: Seq<Seq<char>>, sep: Seq<char>) -> Seq<char>
    decreases parts.len(),
{
    if parts.len() == 0 {
        Seq::empty()
    } else if parts.len() == 1 {
        parts[0]
    } else {
        join_with(parts.drop_last(), sep) + sep + parts.last()
    }
}

/// The one-line summary of a successful sync: `"No changes"`, or the counts
/// (`"2 synced, 1 deleted"`) followed by the names of the first three paths and
/// how many more there were.
pub open spec fn spec_sync_summary(transferred: nat, deleted: nat, paths: Seq<Seq<char>>) -> Seq<
    char,
> {
    if transferred == 0 && deleted == 0 {
        "No changes"@
    } else {
        let parts = (if transferred > 0 {
            seq![decimal(transferred) + " synced"@]
        } else {
            Seq::empty()
        }) + (if deleted > 0 {
            seq![decimal(deleted) + " deleted"@]
        } else {
            Seq::empty()
        });
        let line = join_with(parts, ", "@);
        if paths.len() > 0 {
            let shown = if paths.len() > 3 {
                paths.take(3)
            } else {
                paths
            };
            let names = shown.map_values(|p: Seq<char>| last_component(p));
            let tail = if paths.len() > 3 {
                " and "@ + decimal((paths.len() - 3) as nat) + " more"@
            } else {
                Seq::empty()
            };
            line + ": "@ + join_with(names, ", "@) + tail
        } else {
            line
        }
    }
}

fn last_component_exec(p: &[char]) -> (r: Vec<char>)
    ensures
        r@ == last_component(p@),
{
    let slash = chars_of("/");
    match rfind_exec(p, slash.as_slice()) {
        Some(i) => {
            proof {
                reveal_strlit("/");
            }
            copy_range(p, i + 1, p.len())
        },
        None => copy_range(p, 0, p.len()),
    }
}

fn join_exec(parts: &Vec<Vec<char>>, sep: &str) -> (r: Vec<char>)
    ensures
        r@ == join_with(parts@.map_values(|v: Vec<char>| v@), sep@),
{
    let ghost ps = parts@.map_values(|v: Vec<char>| v@);
    let mut out: Vec<char> = Vec::new();
    let mut i: usize = 0;
    while i < parts.len()
        invariant
            i <= parts@.len(),
            ps == parts@.map_values(|v: Vec<char>| v@),
            out@ == join_with(ps.subrange(0, i as int), sep@),
        decreases parts.len() - i,
    {
        let ghost pre = ps.subrange(0, i as int);
        let ghost next = ps.subrange(0, i + 1);
        assert(next.drop_last() =~= pre);
        if i > 0 {
            out = concat(out.as_slice(), chars_of(sep).as_slice());
        }
        out = concat(out.as_slice(), parts[i].as_slice());
        proof {
            if i == 0 {
                assert(out@ =~= next[0]);
            }
        }
        i += 1;
    }
    assert(ps.subrange(0, ps.len() as int) =~= ps);
    out
}

/// Summary line of a successful sync (see `spec_sync_summary`).
pub fn sync_summary(files_transferred: u32, files_deleted: u32, transferred_paths: &Vec<String>) -> (r:
    String)
    ensures
        r@ == spec_sync_summary(
            files_transferred as nat,
            files_deleted as nat,
            strings_view(transferred_paths@),
        ),
{
    if files_transferred == 0 && files_deleted == 0 {
        return owned("No changes");
    }
    let mut parts: Vec<Vec<char>> = Vec::new();
    if files_transferred > 0 {
        parts.push(concat(decimal_exec(files_transferred as u64).as_slice(), chars_of(" synced").as_slice()));
    }
    if files_deleted > 0 {
        parts.push(concat(decimal_exec(files_deleted as u64).as_slice(), chars_of(" deleted").as_slice()));
    }
    let ghost want = (if files_transferred > 0 {
        seq![decimal(files_transferred as nat) + " synced"@]
    } else {
        Seq::empty()
    }) + (if files_deleted > 0 {
        seq![decimal(files_deleted as nat) + " deleted"@]
    } else {
        Seq::empty()
    });
    assert(parts@.map_values(|v: Vec<char>| v@) =~= want);
    let line = join_exec(&parts, ", ");
    if transferred_paths.len() == 0 {
        return string_of(line.as_slice());
    }
    let ghost paths = strings_view(transferred_paths@);
    let n: usize = if transferred_paths.len() > 3 {
        3
    } else {
        transferred_paths.len()
    };
    let mut names: Vec<Vec<char>> = Vec::new();
    let mut i: usize = 0;
    while i < n
        invariant
            i <= n <= transferred_paths@.len(),
            paths == strings_view(transferred_paths@),
            names@.map_values(|v: Vec<char>| v@) == paths.take(i as int).map_values(
                |p: Seq<char>| last_component(p),
            ),
        decreases n - i,
    {
        let cs = chars_of(transferred_paths[i].as_str());
        assert(cs@ == paths[i as int]);
        let name = last_component_exec(cs.as_slice());
        let ghost old_names = names@;
        names.push(name);
        assert(names@ == old_names.push(name));
        assert(names@.map_values(|v: Vec<char>| v@) =~= old_names.map_values(|v: Vec<char>| v@).push(name@));
        assert(names@.map_values(|v: Vec<char>| v@) =~= paths.take(i + 1).map_values(
            |p: Seq<char>| last_component(p),
        ));
        i += 1;
    }
    proof {
        if paths.len() <= 3 {
            assert(paths.take(n as int) =~= paths);
        }
    }
    let mut out = concat(line.as_slice(), chars_of(": ").as_slice());
    out = concat(out.as_slice(), join_exec(&names, ", ").as_slice());
    if transferred_paths.len() > 3 {
        let more = decimal_exec((transferred_paths.len() - 3) as u64);
        out = concat(out.as_slice(), chars_of(" and ").as_slice());
        out = concat(out.as_slice(), more.as_slice());
        out = concat(out.as_slice(), chars_of(" more").as_slice());
    } else {
        assert(out@ =~= out@ + Seq::<char>::empty());
    }
    string_of(out.as_slice())
}

fn copy_string(s: &String) -> (r: String)
    ensures
        r@ == s@,
{
    s.clone()
}

fn copy_opt(s: &Option<String>) -> (r: Option<String>)
    ensures
        r == *s,
{
    match s {
        Some(x) => Some(x.clone()),
        None => None,
    }
}

/// The report sent to the backend for a finished sync.
pub fn sync_report(folder_id: &str, result: &SyncResult) -> (r: SyncReport)
    ensures
        r.folder_id@ == folder_id@,
        r.success == result.success,
        r.files_transferred == result.files_transferred,
        r.files_deleted == result.files_deleted,
        r.duration_ms == result.duration_ms,
        strings_view(r.errors@) == strings_view(result.errors@),
        r.conflicts@.len() == result.conflicts@.len(),
        forall|i: int| 0 <= i < r.conflicts@.len() ==> {
            &&& (#[trigger] r.conflicts@[i]).file_path@ == result.conflicts@[i].file_path@
            &&& r.conflicts@[i].local_version == result.conflicts@[i].local_version
            &&& r.conflicts@[i].remote_version == result.conflicts@[i].remote_version
        },
{
    let mut errors: Vec<String> = Vec::new();
    let mut i: usize = 0;
    while i < result.errors.len()
        invariant
            i <= result.errors@.len(),
            strings_view(errors@) == strings_view(result.errors@).take(i as int),
        decreases result.errors.len() - i,
    {
        let e = copy_string(&result.errors[i]);
        let ghost old_errors = errors@;
        errors.push(e);
        assert(errors@ == old_errors.push(e));
        assert(strings_view(errors@) =~= strings_view(old_errors).push(e@));
        assert(strings_view(errors@) =~= strings_view(result.errors@).take(i + 1));
        i += 1;
    }
    assert(strings_view(result.errors@).take(result.errors@.len() as int) =~= strings_view(result.errors@));
    let mut conflicts: Vec<ConflictReport> = Vec::new();
    let mut j: usize = 0;
    while j < result.conflicts.len()
        invariant
            j <= result.conflicts@.len(),
            conflicts@.len() == j,
            forall|k: int| 0 <= k < j ==> {
                &&& (#[trigger] conflicts@[k]).file_path@ == result.conflicts@[k].file_path@
                &&& conflicts@[k].local_version == result.conflicts@[k].local_version
                &&& conflicts@[k].remote_version == result.conflicts@[k].remote_version
            },
        decreases result.conflicts.len() - j,
    {
        let c: &ConflictInfo = &result.conflicts[j];
        conflicts.push(ConflictReport {
            file_path: copy_string(&c.file_path),
            local_version: copy_opt(&c.local_version),
            remote_version: copy_opt(&c.remote_version),
        });
        j += 1;
    }
    SyncReport {
        folder_id: owned(folder_id),
        success: result.success,
        files_transferred: result.files_transferred as u64,
        files_deleted: result.files_deleted as u64,
        duration_ms: result.duration_ms,
        errors,
        conflicts,
    }
}

/// The log line of a finished sync: its summary when it succeeded, else its
/// first error (`"Unknown error"` where there is none).
pub fn sync_log_message(result: &SyncResult) -> (m: String)
    ensures
        result.success ==> m@ == spec_sync_summary(
            result.files_transferred as nat,
            result.files_deleted as nat,
            strings_view(result.transferred_paths@),
        ),
        !result.success && result.errors@.len() > 0 ==> m@ == result.errors@[0]@,
        !result.success && result.errors@.len() == 0 ==> m@ == "Unknown error"@,
{
    if result.success {
        sync_summary(result.files_transferred, result.files_deleted, &result.transferred_paths)
    } else if result.errors.len() > 0 {
        copy_string(&result.errors[0])
    } else {
        owned("Unknown error")
    }
}

/// A folder in cloud-only mode is not synced.
pub fn check_syncable(mode: &str) -> (r: Result<(), AppError>)
    ensures
        mode@ == "cloud_only"@ ==> (r matches Err(AppError::General(m)) && m@
            == "Folder is in cloud-only mode"@),
        mode@ != "cloud_only"@ ==> r is Ok,
{
    if text_eq(mode, "cloud_only") {
        Err(AppError::General(owned("Folder is in cloud-only mode")))
    } else {
        Ok(())
    }
}

/// A sync needs a session: without one the user is asked to sign in again.
pub fn require_session(tokens: Option<AuthTokens>) -> (r: Result<AuthTokens, AppError>)
    ensures
        match tokens {
            Some(t) => r matches Ok(u) && u == t,
            None => r matches Err(AppError::Auth(m)) && m@ == "Not logged in. Please sign in again."@,
        },
{
    match tokens {
        Some(t) => Ok(t),
        None => Err(AppError::Auth(owned("Not logged in. Please sign in again."))),
    }
}

/// An entry of the sync history, without its id and time.
pub struct LogEntry {
    pub action: String,
    pub status: String,
    pub message: Option<String>,
    pub duration_ms: Option<i64>,
}

/// Which way a folder was synced: rclone's bisync on the desktop, the S3
/// engine on Android.
#[derive(Debug, Clone, Copy, PartialEq, Eq, Structural)]
pub enum SyncKind {
    Bisync,
    S3,
}

pub open spec fn kind_action(kind: SyncKind) -> Seq<char> {
    match kind {
        SyncKind::Bisync => "bisync"@,
        SyncKind::S3 => "s3_sync"@,
    }
}

/// The history entry of a finished sync: one that succeeded, with its
/// summary, or failed, with its first error.
pub fn sync_log_entry(kind: SyncKind, result: &SyncResult) -> (e: LogEntry)
    ensures
        e.action@ == kind_action(kind),
        e.status@ == (if result.success { "success"@ } else { "error"@ }),
        e.message matches Some(m) && (result.success ==> m@ == spec_sync_summary(
            result.files_transferred as nat,
            result.files_deleted as nat,
            strings_view(result.transferred_paths@),
        )) && (!result.success && result.errors@.len() > 0 ==> m@ == result.errors@[0]@) && (
        !result.success && result.errors@.len() == 0 ==> m@ == "Unknown error"@),
        e.duration_ms == Some(result.duration_ms as i64),
{
    LogEntry {
        action: string_of(
            chars_of(
                match kind {
                    SyncKind::Bisync => "bisync",
                    SyncKind::S3 => "s3_sync",
                },
            ).as_slice(),
        ),
        status: owned(if result.success { "success" } else { "error" }),
        message: Some(sync_log_message(result)),
        duration_ms: Some(result.duration_ms as i64),
    }
}

/// The target triple of the rclone build bundled for an architecture and an
/// operating system (as `std::env::consts` names them); empty for others.
pub open spec fn target_triple(arch: Seq<char>, os: Seq<char>) -> Seq<char> {
    if arch == "aarch64"@ && os == "macos"@ {
        "aarch64-apple-darwin"@
    } else if arch == "x86_64"@ && os == "macos"@ {
        "x86_64-apple-darwin"@
    } else if arch == "x86_64"@ && os == "linux"@ {
        "x86_64-unknown-linux-gnu"@
    } else if arch == "aarch64"@ && os == "linux"@ {
        "aarch64-unknown-linux-gnu"@
    } else if arch == "x86_64"@ && os == "windows"@ {
        "x86_64-pc-windows-msvc"@
    } else if arch == "aarch64"@ && os == "windows"@ {
        "aarch64-pc-windows-msvc"@
    } else {
        Seq::empty()
    }
}

pub open spec fn exe_suffix(os: Seq<char>) -> Seq<char> {
    if os == "windows"@ {
        ".exe"@
    } else {
        Seq::empty()
    }
}

/// The file names the bundled rclone may have: the sidecar name with the
/// target triple (`rclone-<triple>`), and the plain `rclone`, both with
/// `.exe` on Windows.
pub fn rclone_binary_names(arch: &str, os: &str) -> (r: (String, String))
    ensures
        r.0@ == "rclone-"@ + target_triple(arch@, os@) + exe_suffix(os@),
        r.1@ == "rclone"@ + exe_suffix(os@),
{
    let triple: &str = if text_eq(arch, "aarch64") && text_eq(os, "macos") {
        "aarch64-apple-darwin"
    } else if text_eq(arch, "x86_64") && text_eq(os, "macos") {
        "x86_64-apple-darwin"
    } else if text_eq(arch, "x86_64") && text_eq(os, "linux") {
        "x86_64-unknown-linux-gnu"
    } else if text_eq(arch, "aarch64") && text_eq(os, "linux") {
        "aarch64-unknown-linux-gnu"
    } else if text_eq(arch, "x86_64") && text_eq(os, "windows") {
        "x86_64-pc-windows-msvc"
    } else if text_eq(arch, "aarch64") && text_eq(os, "windows") {
        "aarch64-pc-windows-msvc"
    } else {
        ""
    };
    proof {
        reveal_strlit("");
    }
    let ext: &str = if text_eq(os, "windows") {
        ".exe"
    } else {
        ""
    };
    let sidecar = concat(concat(chars_of("rclone-").as_slice(), chars_of(triple).as_slice()).as_slice(), chars_of(ext).as_slice());
    let plain = concat(chars_of("rclone").as_slice(), chars_of(ext).as_slice());
    (string_of(sidecar.as_slice()), string_of(plain.as_slice()))
}

} // verus!
