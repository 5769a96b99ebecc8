//! The decisions of one S3 sync run: the plan, the bookkeeping of each action's
//! outcome, and the state recorded for the next run.
use vstd::prelude::*;

use crate::pathmap::PathMap;
use crate::rclone::types::{ConflictInfo, ConflictView, SyncResult, SyncResultView, strings_view};
use crate::text::{
    chars_of, concat, contains, contains_exec, decimal, decimal_exec, owned, string_of,
};
use super::algorithm::{compute_sync_actions, decide, lookup};
use super::client::{trim_end_char, trim_end_char_exec};
use super::types::{FileEntry, SyncAction};

verus! {

// ───────────────────────── the plan ─────────────────────────

/// Whether a run is a resync: the backend or the folder asks for one, or no
/// state was recorded yet.
pub open spec fn is_resync(needs_resync: bool, last_state: Map<Seq<char>, FileEntry>) -> bool {
    needs_resync || last_state.dom().len() == 0
}

/// The actions of a run. A resync takes the local side as the truth: every local
/// file is uploaded and every remote object without a local file is deleted.
/// Otherwise each path gets the action `decide` gives it.
pub fn plan_sync_actions(
    local: &PathMap<FileEntry>,
    remote: &PathMap<FileEntry>,
    last_state: &PathMap<FileEntry>,
    needs_resync: bool,
) -> (actions: PathMap<SyncAction>)
    ensures
        is_resync(needs_resync, last_state.view()) ==> {
            &&& actions.view().dom() == local.view().dom() + remote.view().dom()
            &&& forall|p: Seq<char>| #[trigger]
                actions.view().dom().contains(p) ==> actions.view()[p] == if local.view().dom().contains(
                    p,
                ) {
                    SyncAction::UploadLocal
                } else {
                    SyncAction::DeleteRemote
                }
        },
        !is_resync(needs_resync, last_state.view()) ==> {
            &&& actions.view().dom() == local.view().dom() + remote.view().dom()
                + last_state.view().dom()
            &&& forall|p: Seq<char>| #[trigger]
                actions.view().dom().contains(p) ==> actions.view()[p] == decide(
                    lookup(local.view(), p),
                    lookup(remote.view(), p),
                    lookup(last_state.view(), p),
                )
        },
{
    if needs_resync || last_state.len() == 0 {
        let mut actions: PathMap<SyncAction> = PathMap::new();
        let lk = local.keys();
        let mut i: usize = 0;
        while i < lk.len()
            invariant
                i <= lk@.len(),
                forall|k: Seq<char>| local.view().dom().contains(k) <==> exists|j: int|
                    0 <= j < lk@.len() && #[trigger] lk@[j]@ == k,
                forall|p: Seq<char>| #[trigger]
                    actions.view().dom().contains(p) <==> exists|j: int|
                        0 <= j < i && #[trigger] lk@[j]@ == p,
                forall|p: Seq<char>| #[trigger]
                    actions.view().dom().contains(p) ==> actions.view()[p]
                        == SyncAction::UploadLocal,
            decreases lk.len() - i,
        {
            actions.insert(lk[i].clone(), SyncAction::UploadLocal);
            proof {
                assert forall|p: Seq<char>| #[trigger]
                    actions.view().dom().contains(p) <==> exists|j: int|
                        0 <= j < i + 1 && #[trigger] lk@[j]@ == p by {
                    if p == lk@[i as int]@ {
                        assert(lk@[i as int]@ == p);
                    } else if exists|j: int| 0 <= j < i + 1 && #[trigger] lk@[j]@ == p {
                        let j = choose|j: int| 0 <= j < i + 1 && #[trigger] lk@[j]@ == p;
                        assert(j < i);
                    }
                }
            }
            i += 1;
        }
        assert(actions.view().dom() =~= local.view().dom());
        let rk = remote.keys();
        let mut i: usize = 0;
        while i < rk.len()
            invariant
                i <= rk@.len(),
                forall|k: Seq<char>| remote.view().dom().contains(k) <==> exists|j: int|
                    0 <= j < rk@.len() && #[trigger] rk@[j]@ == k,
                forall|p: Seq<char>| #[trigger]
                    actions.view().dom().contains(p) <==> (local.view().dom().contains(p)
                        || exists|j: int| 0 <= j < i && #[trigger] rk@[j]@ == p),
                forall|p: Seq<char>| #[trigger]
                    actions.view().dom().contains(p) ==> actions.view()[p] == if local.view().dom().contains(
                        p,
                    ) {
                        SyncAction::UploadLocal
                    } else {
                        SyncAction::DeleteRemote
                    },
            decreases rk.len() - i,
        {
            if !local.contains_key(&rk[i]) {
                actions.insert(rk[i].clone(), SyncAction::DeleteRemote);
            }
            proof {
                assert forall|p: Seq<char>| #[trigger]
                    actions.view().dom().contains(p) <==> (local.view().dom().contains(p)
                        || exists|j: int| 0 <= j < i + 1 && #[trigger] rk@[j]@ == p) by {
                    if p == rk@[i as int]@ {
                        assert(rk@[i as int]@ == p);
                    } else if exists|j: int| 0 <= j < i + 1 && #[trigger] rk@[j]@ == p {
                        let j = choose|j: int| 0 <= j < i + 1 && #[trigger] rk@[j]@ == p;
                        assert(j < i);
                    }
                }
            }
            i += 1;
        }
        proof {
            assert forall|p: Seq<char>| #[trigger]
                actions.view().dom().contains(p) <==> (local.view().dom() + remote.view().dom()).contains(
                p,
            ) by {
                if remote.view().dom().contains(p) {
                    let j = choose|j: int| 0 <= j < rk@.len() && #[trigger] rk@[j]@ == p;
                }
            }
            assert(actions.view().dom() =~= local.view().dom() + remote.view().dom());
        }
        actions
    } else {
        compute_sync_actions(local, remote, last_state)
    }
}

pub open spec fn spec_remote_key(prefix: Seq<char>, rel_path: Seq<char>) -> Seq<char> {
    trim_end_char(prefix, '/') + "/"@ + rel_path
}

/// Key of a path's object: the folder's remote prefix without trailing `/`,
/// then `/`, then the relative path.
pub fn remote_key(remote_prefix: &str, rel_path: &str) -> (k: String)
    ensures
        k@ == spec_remote_key(remote_prefix@, rel_path@),
{
    let p = trim_end_char_exec(chars_of(remote_prefix).as_slice(), '/');
    let a = concat(p.as_slice(), chars_of("/").as_slice());
    string_of(concat(a.as_slice(), chars_of(rel_path).as_slice()).as_slice())
}

// ───────────────────────── bookkeeping ─────────────────────────

/// How carrying out one action went; failures carry the error's message.
pub enum ActionOutcome {
    Uploaded,
    ReadFailed(String),
    UploadFailed(String),
    Downloaded,
    DownloadFailed(String),
    WriteFailed(String),
    RemoteDeleted,
    RemoteDeleteFailed(String),
    LocalDeleted,
    LocalDeleteFailed(String),
}

/// What a run has done so far.
pub struct SyncRun {
    pub errors: Vec<String>,
    pub conflicts: Vec<ConflictInfo>,
    pub files_transferred: u32,
    pub files_deleted: u32,
    pub transferred_paths: Vec<String>,
}

pub struct SyncRunView {
    pub errors: Seq<Seq<char>>,
    pub conflicts: Seq<ConflictView>,
    pub files_transferred: nat,
    pub files_deleted: nat,
    pub transferred_paths: Seq<Seq<char>>,
}

impl View for SyncRun {
    type V = SyncRunView;

    open spec fn view(&self) -> SyncRunView {
        SyncRunView {
            errors: strings_view(self.errors@),
            conflicts: self.conflicts@.map_values(|c: ConflictInfo| c@),
            files_transferred: self.files_transferred as nat,
            files_deleted: self.files_deleted as nat,
            transferred_paths: strings_view(self.transferred_paths@),
        }
    }
}

pub open spec fn failure_text(what: Seq<char>, rel: Seq<char>, msg: Seq<char>) -> Seq<char> {
    what + rel + ": "@ + msg
}

/// The run after one action's outcome: a transfer counts and names its path, a
/// deletion counts, a failure adds `"Failed to <what> <path>: <message>"`.
pub open spec fn spec_record(v: SyncRunView, rel: Seq<char>, o: ActionOutcome) -> SyncRunView {
    match o {
        ActionOutcome::Uploaded | ActionOutcome::Downloaded => SyncRunView {
            files_transferred: v.files_transferred + 1,
            transferred_paths: v.transferred_paths.push(rel),
            ..v
        },
        ActionOutcome::RemoteDeleted | ActionOutcome::LocalDeleted => SyncRunView {
            files_deleted: v.files_deleted + 1,
            ..v
        },
        ActionOutcome::ReadFailed(m) => SyncRunView {
            errors: v.errors.push(failure_text("Failed to read "@, rel, m@)),
            ..v
        },
        ActionOutcome::UploadFailed(m) => SyncRunView {
            errors: v.errors.push(failure_text("Failed to upload "@, rel, m@)),
            ..v
        },
        ActionOutcome::DownloadFailed(m) => SyncRunView {
            errors: v.errors.push(failure_text("Failed to download "@, rel, m@)),
            ..v
        },
        ActionOutcome::WriteFailed(m) => SyncRunView {
            errors: v.errors.push(failure_text("Failed to write "@, rel, m@)),
            ..v
        },
        ActionOutcome::RemoteDeleteFailed(m) => SyncRunView {
            errors: v.errors.push(failure_text("Failed to delete remote "@, rel, m@)),
            ..v
        },
        ActionOutcome::LocalDeleteFailed(m) => SyncRunView {
            errors: v.errors.push(failure_text("Failed to delete local "@, rel, m@)),
            ..v
        },
    }
}

/// Each transfer is counted once and its path named once: a run that starts
/// with as many transfers counted as paths named keeps them equal through any
/// recorded outcome (the other records leave both alone).
pub proof fn law_transfers_match_paths(v: SyncRunView, rel: Seq<char>, o: ActionOutcome)
    requires
        v.files_transferred == v.transferred_paths.len(),
    ensures
        spec_record(v, rel, o).files_transferred == spec_record(v, rel, o).transferred_paths.len(),
{
}

pub open spec fn size_text(e: Option<FileEntry>) -> Option<Seq<char>> {
    match e {
        Some(x) => Some(decimal(x.size as nat) + " bytes"@),
        None => None,
    }
}

fn push_string(v: &mut Vec<String>, s: String)
    ensures
        strings_view(final(v)@) == strings_view(old(v)@).push(s@),
{
    let ghost before = v@;
    v.push(s);
    assert(v@ == before.push(s));
    assert(strings_view(v@) =~= strings_view(before).push(s@));
}

fn failure_message(what: &str, rel: &str, msg: &String) -> (r: String)
    ensures
        r@ == failure_text(what@, rel@, msg@),
{
    let a = concat(chars_of(what).as_slice(), chars_of(rel).as_slice());
    let b = concat(a.as_slice(), chars_of(": ").as_slice());
    string_of(concat(b.as_slice(), chars_of(msg.as_str()).as_slice()).as_slice())
}

fn size_label(e: Option<&FileEntry>) -> (r: Option<String>)
    ensures
        match r {
            Some(s) => size_text(
                match e {
                    Some(x) => Some(*x),
                    None => None,
                },
            ) == Some(s@),
            None => e is None,
        },
{
    match e {
        Some(x) => Some(
            string_of(concat(decimal_exec(x.size).as_slice(), chars_of(" bytes").as_slice()).as_slice()),
        ),
        None => None,
    }
}

/// The side of a sync whose listing failed.
#[derive(Debug, Clone, Copy, PartialEq, Eq, Structural)]
pub enum ListingSide {
    Local,
    Remote,
}

impl SyncRun {
    pub fn new() -> (r: SyncRun)
        ensures
            r@ == (SyncRunView {
                errors: Seq::empty(),
                conflicts: Seq::empty(),
                files_transferred: 0,
                files_deleted: 0,
                transferred_paths: Seq::empty(),
            }),
    {
        let r = SyncRun {
            errors: Vec::new(),
            conflicts: Vec::new(),
            files_transferred: 0,
            files_deleted: 0,
            transferred_paths: Vec::new(),
        };
        assert(r@.errors =~= Seq::<Seq<char>>::empty());
        assert(r@.conflicts =~= Seq::<ConflictView>::empty());
        assert(r@.transferred_paths =~= Seq::<Seq<char>>::empty());
        r
    }

    /// Records how carrying out the action for `rel_path` went.
    pub fn record(&mut self, rel_path: &str, outcome: ActionOutcome)
        requires
            old(self).files_transferred < u32::MAX,
            old(self).files_deleted < u32::MAX,
        ensures
            final(self)@ == spec_record(old(self)@, rel_path@, outcome),
    {
        match outcome {
            ActionOutcome::Uploaded | ActionOutcome::Downloaded => {
                self.files_transferred = self.files_transferred + 1;
                push_string(&mut self.transferred_paths, owned(rel_path));
            },
            ActionOutcome::RemoteDeleted | ActionOutcome::LocalDeleted => {
                self.files_deleted = self.files_deleted + 1;
            },
            ActionOutcome::ReadFailed(m) => {
                push_string(&mut self.errors, failure_message("Failed to read ", rel_path, &m));
            },
            ActionOutcome::UploadFailed(m) => {
                push_string(&mut self.errors, failure_message("Failed to upload ", rel_path, &m));
            },
            ActionOutcome::DownloadFailed(m) => {
                push_string(&mut self.errors, failure_message("Failed to download ", rel_path, &m));
            },
            ActionOutcome::WriteFailed(m) => {
                push_string(&mut self.errors, failure_message("Failed to write ", rel_path, &m));
            },
            ActionOutcome::RemoteDeleteFailed(m) => {
                push_string(
                    &mut self.errors,
                    failure_message("Failed to delete remote ", rel_path, &m),
                );
            },
            ActionOutcome::LocalDeleteFailed(m) => {
                push_string(
                    &mut self.errors,
                    failure_message("Failed to delete local ", rel_path, &m),
                );
            },
        }
    }

    /// Records a conflict on `rel_path`, with the sizes of its two sides.
    pub fn record_conflict(
        &mut self,
        rel_path: &str,
        local: Option<&FileEntry>,
        remote: Option<&FileEntry>,
    )
        ensures
            final(self)@ == (SyncRunView {
                conflicts: old(self)@.conflicts.push(
                    ConflictView {
                        file_path: rel_path@,
                        local_version: size_text(
                            match local {
                                Some(x) => Some(*x),
                                None => None,
                            },
                        ),
                        remote_version: size_text(
                            match remote {
                                Some(x) => Some(*x),
                                None => None,
                            },
                        ),
                    },
                ),
                ..old(self)@
            }),
    {
        let c = ConflictInfo {
            file_path: owned(rel_path),
            local_version: size_label(local),
            remote_version: size_label(remote),
        };
        let ghost before = self.conflicts@;
        self.conflicts.push(c);
        assert(self.conflicts@ == before.push(c));
        assert(self.conflicts@.map_values(|c: ConflictInfo| c@) =~= before.map_values(
            |c: ConflictInfo| c@,
        ).push(c@));
    }

    /// Records an error that is not tied to one path.
    pub fn record_error(&mut self, message: &str)
        ensures
            final(self)@ == (SyncRunView { errors: old(self)@.errors.push(message@), ..old(self)@ }),
    {
        push_string(&mut self.errors, owned(message));
    }

    /// Records that the user cancelled the run.
    pub fn record_cancel(&mut self)
        ensures
            final(self)@ == (SyncRunView {
                errors: old(self)@.errors.push("Sync cancelled by user"@),
                ..old(self)@
            }),
    {
        self.record_error("Sync cancelled by user");
    }

    /// Records that listing one side failed with `message`; the run stops
    /// there.
    pub fn record_listing_failure(&mut self, side: ListingSide, message: &str)
        ensures
            final(self)@ == (SyncRunView {
                errors: old(self)@.errors.push(
                    match side {
                        ListingSide::Local => "Failed to read local directory: "@,
                        ListingSide::Remote => "Failed to list remote objects: "@,
                    } + message@,
                ),
                ..old(self)@
            }),
    {
        let head = match side {
            ListingSide::Local => "Failed to read local directory: ",
            ListingSide::Remote => "Failed to list remote objects: ",
        };
        let text = concat(chars_of(head).as_slice(), chars_of(message).as_slice());
        push_string(&mut self.errors, string_of(text.as_slice()));
    }

    /// The result of the run: it succeeded when no error was recorded.
    pub fn finish(self, duration_ms: u64) -> (r: SyncResult)
        ensures
            r@ == (SyncResultView {
                success: self@.errors.len() == 0,
                files_transferred: self@.files_transferred,
                files_deleted: self@.files_deleted,
                transferred_paths: self@.transferred_paths,
                errors: self@.errors,
                conflicts: self@.conflicts,
                duration_ms,
            }),
    {
        let success = self.errors.len() == 0;
        SyncResult {
            success,
            files_transferred: self.files_transferred,
            files_deleted: self.files_deleted,
            transferred_paths: self.transferred_paths,
            errors: self.errors,
            conflicts: self.conflicts,
            duration_ms,
        }
    }
}

// ───────────────────────── carrying out one action ─────────────────────────

/// Outside work an action needs: reading or writing the local file, or a
/// call on the object.
pub enum Io {
    ReadLocal,
    Upload(Vec<u8>),
    Download,
    WriteLocal(Vec<u8>),
    DeleteRemote,
    DeleteLocal,
}

/// The progress message shown before a piece of work: `"Uploading <path>"`
/// before an upload, `"Downloading <path>"` before a download, none before the
/// rest.
pub fn progress_message(io: &Io, rel_path: &str) -> (m: Option<String>)
    ensures
        match io {
            Io::Upload(_) => m matches Some(t) && t@ == "Uploading "@ + rel_path@,
            Io::Download => m matches Some(t) && t@ == "Downloading "@ + rel_path@,
            _ => m is None,
        },
{
    match io {
        Io::Upload(_) => Some(
            string_of(concat(chars_of("Uploading ").as_slice(), chars_of(rel_path).as_slice()).as_slice()),
        ),
        Io::Download => Some(
            string_of(
                concat(chars_of("Downloading ").as_slice(), chars_of(rel_path).as_slice()).as_slice(),
            ),
        ),
        _ => None,
    }
}

/// Which work was done, without its bytes.
#[derive(Debug, Clone, Copy, PartialEq, Eq, Structural)]
pub enum IoKind {
    ReadLocal,
    Upload,
    Download,
    WriteLocal,
    DeleteRemote,
    DeleteLocal,
}

/// What the work gave: the bytes read or downloaded, nothing, or the
/// message of its error.
pub enum IoResult {
    Bytes(Vec<u8>),
    Done,
    Failed(String),
}

/// What comes next for an action: more work, or its outcome.
pub enum ActionStep {
    Perform(Io),
    Finished(ActionOutcome),
}

/// Reading the local file and downloading hand back bytes; the other work
/// hands back nothing; any of them may fail.
pub open spec fn result_fits(done: IoKind, result: IoResult) -> bool {
    match result {
        IoResult::Bytes(_) => done == IoKind::ReadLocal || done == IoKind::Download,
        IoResult::Done => !(done == IoKind::ReadLocal || done == IoKind::Download),
        IoResult::Failed(_) => true,
    }
}

/// The first work of an action: an upload starts by reading the local file,
/// a download by fetching the object, a deletion is one call; conflicts and
/// skips need no work.
pub fn first_io(action: SyncAction) -> (r: Option<Io>)
    ensures
        match action {
            SyncAction::UploadLocal => r matches Some(Io::ReadLocal),
            SyncAction::DownloadRemote => r matches Some(Io::Download),
            SyncAction::DeleteRemote => r matches Some(Io::DeleteRemote),
            SyncAction::DeleteLocal => r matches Some(Io::DeleteLocal),
            SyncAction::Conflict | SyncAction::Skip => r is None,
        },
{
    match action {
        SyncAction::UploadLocal => Some(Io::ReadLocal),
        SyncAction::DownloadRemote => Some(Io::Download),
        SyncAction::DeleteRemote => Some(Io::DeleteRemote),
        SyncAction::DeleteLocal => Some(Io::DeleteLocal),
        SyncAction::Conflict | SyncAction::Skip => None,
    }
}

/// The step after some work: the bytes read are uploaded, the bytes
/// downloaded are written; an upload, a write or a deletion that went
/// through finishes the action; any failure finishes it with the failure of
/// that work.
pub fn after_io(done: IoKind, result: IoResult) -> (s: ActionStep)
    requires
        result_fits(done, result),
    ensures
        match (done, result) {
            (IoKind::ReadLocal, IoResult::Bytes(d)) => s matches ActionStep::Perform(Io::Upload(u)) && u@
                == d@,
            (IoKind::Download, IoResult::Bytes(d)) => s matches ActionStep::Perform(Io::WriteLocal(w)) && w@
                == d@,
            (IoKind::Upload, IoResult::Done) => s matches ActionStep::Finished(ActionOutcome::Uploaded),
            (IoKind::WriteLocal, IoResult::Done) => s matches ActionStep::Finished(ActionOutcome::Downloaded),
            (IoKind::DeleteRemote, IoResult::Done) => s matches ActionStep::Finished(
                ActionOutcome::RemoteDeleted,
            ),
            (IoKind::DeleteLocal, IoResult::Done) => s matches ActionStep::Finished(ActionOutcome::LocalDeleted),
            (IoKind::ReadLocal, IoResult::Failed(m)) => s matches ActionStep::Finished(
                ActionOutcome::ReadFailed(f),
            ) && f@ == m@,
            (IoKind::Upload, IoResult::Failed(m)) => s matches ActionStep::Finished(
                ActionOutcome::UploadFailed(f),
            ) && f@ == m@,
            (IoKind::Download, IoResult::Failed(m)) => s matches ActionStep::Finished(
                ActionOutcome::DownloadFailed(f),
            ) && f@ == m@,
            (IoKind::WriteLocal, IoResult::Failed(m)) => s matches ActionStep::Finished(
                ActionOutcome::WriteFailed(f),
            ) && f@ == m@,
            (IoKind::DeleteRemote, IoResult::Failed(m)) => s matches ActionStep::Finished(
                ActionOutcome::RemoteDeleteFailed(f),
            ) && f@ == m@,
            (IoKind::DeleteLocal, IoResult::Failed(m)) => s matches ActionStep::Finished(
                ActionOutcome::LocalDeleteFailed(f),
            ) && f@ == m@,
            _ => false,
        },
{
    match (done, result) {
        (IoKind::ReadLocal, IoResult::Bytes(d)) => ActionStep::Perform(Io::Upload(d)),
        (IoKind::Download, IoResult::Bytes(d)) => ActionStep::Perform(Io::WriteLocal(d)),
        (IoKind::Upload, IoResult::Done) => ActionStep::Finished(ActionOutcome::Uploaded),
        (IoKind::WriteLocal, IoResult::Done) => ActionStep::Finished(ActionOutcome::Downloaded),
        (IoKind::DeleteRemote, IoResult::Done) => ActionStep::Finished(ActionOutcome::RemoteDeleted),
        (IoKind::DeleteLocal, IoResult::Done) => ActionStep::Finished(ActionOutcome::LocalDeleted),
        (IoKind::ReadLocal, IoResult::Failed(m)) => ActionStep::Finished(ActionOutcome::ReadFailed(m)),
        (IoKind::Upload, IoResult::Failed(m)) => ActionStep::Finished(ActionOutcome::UploadFailed(m)),
        (IoKind::Download, IoResult::Failed(m)) => ActionStep::Finished(ActionOutcome::DownloadFailed(m)),
        (IoKind::WriteLocal, IoResult::Failed(m)) => ActionStep::Finished(ActionOutcome::WriteFailed(m)),
        (IoKind::DeleteRemote, IoResult::Failed(m)) => ActionStep::Finished(ActionOutcome::RemoteDeleteFailed(m)),
        (IoKind::DeleteLocal, IoResult::Failed(m)) => ActionStep::Finished(ActionOutcome::LocalDeleteFailed(m)),
        (_, _) => {
            assert(false);
            ActionStep::Finished(ActionOutcome::Uploaded)
        },
    }
}

/// Which work an `Io` is.
pub fn io_kind(io: &Io) -> (k: IoKind)
    ensures
        k == match io {
            Io::ReadLocal => IoKind::ReadLocal,
            Io::Upload(_) => IoKind::Upload,
            Io::Download => IoKind::Download,
            Io::WriteLocal(_) => IoKind::WriteLocal,
            Io::DeleteRemote => IoKind::DeleteRemote,
            Io::DeleteLocal => IoKind::DeleteLocal,
        },
{
    match io {
        Io::ReadLocal => IoKind::ReadLocal,
        Io::Upload(_) => IoKind::Upload,
        Io::Download => IoKind::Download,
        Io::WriteLocal(_) => IoKind::WriteLocal,
        Io::DeleteRemote => IoKind::DeleteRemote,
        Io::DeleteLocal => IoKind::DeleteLocal,
    }
}

// ───────────────────────── the state for the next run ─────────────────────────

/// Some error of the run names `p`.
pub open spec fn mentioned(p: Seq<char>, errors: Seq<Seq<char>>) -> bool {
    exists|i: int| 0 <= i < errors.len() && contains(#[trigger] errors[i], p)
}

fn is_mentioned(p: &String, errors: &Vec<String>) -> (b: bool)
    ensures
        b == mentioned(p@, strings_view(errors@)),
{
    let pc = chars_of(p.as_str());
    let mut i: usize = 0;
    while i < errors.len()
        invariant
            i <= errors@.len(),
            pc@ == p@,
            forall|j: int| 0 <= j < i ==> !contains(#[trigger] strings_view(errors@)[j], p@),
        decreases errors.len() - i,
    {
        let e = chars_of(errors[i].as_str());
        if contains_exec(e.as_slice(), pc.as_slice()) {
            assert(strings_view(errors@)[i as int] == e@);
            return true;
        }
        i += 1;
    }
    false
}

/// The state recorded after a run: every local entry, then every remote entry
/// of a path without a local one, leaving out the paths an error names.
pub fn build_new_state(
    local: &PathMap<FileEntry>,
    remote: &PathMap<FileEntry>,
    errors: &Vec<String>,
) -> (state: PathMap<FileEntry>)
    ensures
        forall|p: Seq<char>| #[trigger]
            state.view().dom().contains(p) <==> ((local.view().dom().contains(p)
                || remote.view().dom().contains(p)) && !mentioned(p, strings_view(errors@))),
        forall|p: Seq<char>| #[trigger]
            state.view().dom().contains(p) ==> state.view()[p] == if local.view().dom().contains(
                p,
            ) {
                local.view()[p]
            } else {
                remote.view()[p]
            },
        forall|i: int, p: Seq<char>|
            0 <= i < errors@.len() && #[trigger] contains(errors@[i]@, p) ==> !state.view().dom().contains(p),
{
    let ghost errs = strings_view(errors@);
    let mut state: PathMap<FileEntry> = PathMap::new();
    let lk = local.keys();
    let mut i: usize = 0;
    while i < lk.len()
        invariant
            i <= lk@.len(),
            errs == strings_view(errors@),
            forall|k: Seq<char>| local.view().dom().contains(k) <==> exists|j: int|
                0 <= j < lk@.len() && #[trigger] lk@[j]@ == k,
            forall|p: Seq<char>| #[trigger]
                state.view().dom().contains(p) <==> (exists|j: int|
                    0 <= j < i && #[trigger] lk@[j]@ == p) && !mentioned(p, errs),
            forall|p: Seq<char>| #[trigger]
                state.view().dom().contains(p) ==> local.view().dom().contains(p) && state.view()[p]
                    == local.view()[p],
        decreases lk.len() - i,
    {
        let key = &lk[i];
        if !is_mentioned(key, errors) {
            match local.get(key) {
                Some(e) => {
                    state.insert(key.clone(), e.clone());
                },
                None => {
                    assert(lk@[i as int]@ == key@);
                    assert(false);
                },
            }
        }
        proof {
            assert forall|p: Seq<char>| #[trigger]
                state.view().dom().contains(p) <==> (exists|j: int|
                    0 <= j < i + 1 && #[trigger] lk@[j]@ == p) && !mentioned(p, errs) by {
                if p == lk@[i as int]@ {
                    assert(lk@[i as int]@ == p);
                } else if exists|j: int| 0 <= j < i + 1 && #[trigger] lk@[j]@ == p {
                    let j = choose|j: int| 0 <= j < i + 1 && #[trigger] lk@[j]@ == p;
                    assert(j < i);
                }
            }
        }
        i += 1;
    }
    let rk = remote.keys();
    let mut i: usize = 0;
    while i < rk.len()
        invariant
            i <= rk@.len(),
            errs == strings_view(errors@),
            forall|k: Seq<char>| local.view().dom().contains(k) <==> exists|j: int|
                0 <= j < lk@.len() && #[trigger] lk@[j]@ == k,
            forall|k: Seq<char>| remote.view().dom().contains(k) <==> exists|j: int|
                0 <= j < rk@.len() && #[trigger] rk@[j]@ == k,
            forall|p: Seq<char>| #[trigger]
                state.view().dom().contains(p) <==> (local.view().dom().contains(p) || exists|j: int|
                    0 <= j < i && #[trigger] rk@[j]@ == p) && !mentioned(p, errs),
            forall|p: Seq<char>| #[trigger]
                state.view().dom().contains(p) ==> state.view()[p] == if local.view().dom().contains(
                    p,
                ) {
                    local.view()[p]
                } else {
                    remote.view()[p]
                },
        decreases rk.len() - i,
    {
        let key = &rk[i];
        if !state.contains_key(key) && !is_mentioned(key, errors) {
            match remote.get(key) {
                Some(e) => {
                    proof {
                        if local.view().dom().contains(key@) {
                            let j = choose|j: int| 0 <= j < lk@.len() && #[trigger] lk@[j]@ == key@;
                        }
                    }
                    state.insert(key.clone(), e.clone());
                },
                None => {
                    assert(rk@[i as int]@ == key@);
                    assert(false);
                },
            }
        }
        proof {
            assert forall|p: Seq<char>| #[trigger]
                state.view().dom().contains(p) <==> (local.view().dom().contains(p) || exists|j: int|
                    0 <= j < i + 1 && #[trigger] rk@[j]@ == p) && !mentioned(p, errs) by {
                if p == rk@[i as int]@ {
                    assert(rk@[i as int]@ == p);
                } else if exists|j: int| 0 <= j < i + 1 && #[trigger] rk@[j]@ == p {
                    let j = choose|j: int| 0 <= j < i + 1 && #[trigger] rk@[j]@ == p;
                    assert(j < i);
                }
            }
        }
        i += 1;
    }
    proof {
        assert forall|p: Seq<char>| #[trigger]
            state.view().dom().contains(p) <==> ((local.view().dom().contains(p)
                || remote.view().dom().contains(p)) && !mentioned(p, errs)) by {
            if remote.view().dom().contains(p) {
                let j = choose|j: int| 0 <= j < rk@.len() && #[trigger] rk@[j]@ == p;
            }
        }
        assert forall|i: int, p: Seq<char>|
            0 <= i < errors@.len() && #[trigger] contains(errors@[i]@, p) implies !state.view().dom().contains(p) by {
            assert(errs[i] == errors@[i]@);
            law_named_paths_stay_out(p, errs, i, Seq::empty(), Seq::empty());
            assert(Seq::<Seq<char>>::empty() + errs + Seq::<Seq<char>>::empty() =~= errs);
        }
    }
    state
}

/// A path named by an error, at any position among the run's errors, is
/// left out of the next state; errors added before or after it never bring it
/// back.
pub proof fn law_named_paths_stay_out(
    p: Seq<char>,
    errors: Seq<Seq<char>>,
    i: int,
    before: Seq<Seq<char>>,
    after: Seq<Seq<char>>,
)
    requires
        0 <= i < errors.len(),
        contains(errors[i], p),
    ensures
        mentioned(p, errors),
        mentioned(p, before + errors + after),
{
    let e = before + errors + after;
    assert(e[before.len() + i] == errors[i]);
    assert(contains(e[before.len() + i], p));
}

/// A path no error names stays as it was: it is in the next state exactly
/// where one side holds it.
pub proof fn law_unnamed_paths_kept(p: Seq<char>, errors: Seq<Seq<char>>)
    requires
        forall|i: int| 0 <= i < errors.len() ==> !contains(#[trigger] errors[i], p),
    ensures
        !mentioned(p, errors),
{
}

} // verus!
