//! The three-way comparison that decides what a sync does with each path.
use vstd::prelude::*;

use crate::pathmap::PathMap;
use super::types::{FileEntry, SyncAction};

verus! {

/// Two entries hold the same content: by ETag where both have one, else by
/// size and modification time.
pub open spec fn same_content(a: FileEntry, b: FileEntry) -> bool {
    match (a.etag, b.etag) {
        (Some(x), Some(y)) => x@ == y@,
        _ => a.size == b.size && a.mtime == b.mtime,
    }
}

pub open spec fn lookup<V>(m: Map<Seq<char>, V>, k: Seq<char>) -> Option<V> {
    if m.dom().contains(k) {
        Some(m[k])
    } else {
        None
    }
}

/// The action for one path, from its local entry, its remote entry and its
/// entry in the state of the last sync.
pub open spec fn decide(
    l: Option<FileEntry>,
    r: Option<FileEntry>,
    s: Option<FileEntry>,
) -> SyncAction {
    match (l, r, s) {
        (Some(_), None, None) => SyncAction::UploadLocal,
        (None, Some(_), None) => SyncAction::DownloadRemote,
        (Some(l), Some(r), None) => if same_content(l, r) {
            SyncAction::Skip
        } else {
            SyncAction::Conflict
        },
        (Some(l), Some(r), Some(s)) => {
            let local_changed = !same_content(l, s);
            let remote_changed = !same_content(r, s);
            if !local_changed && !remote_changed {
                SyncAction::Skip
            } else if local_changed && !remote_changed {
                SyncAction::UploadLocal
            } else if !local_changed && remote_changed {
                SyncAction::DownloadRemote
            } else {
                SyncAction::Conflict
            }
        },
        (None, Some(r), Some(s)) => if same_content(r, s) {
            SyncAction::DeleteRemote
        } else {
            SyncAction::Conflict
        },
        (Some(l), None, Some(s)) => if same_content(l, s) {
            SyncAction::DeleteLocal
        } else {
            SyncAction::Conflict
        },
        (None, None, _) => SyncAction::Skip,
    }
}

/// The action seen from the other side: local and remote change places.
pub open spec fn mirror(a: SyncAction) -> SyncAction {
    match a {
        SyncAction::UploadLocal => SyncAction::DownloadRemote,
        SyncAction::DownloadRemote => SyncAction::UploadLocal,
        SyncAction::DeleteRemote => SyncAction::DeleteLocal,
        SyncAction::DeleteLocal => SyncAction::DeleteRemote,
        SyncAction::Conflict => SyncAction::Conflict,
        SyncAction::Skip => SyncAction::Skip,
    }
}

/// The local and remote entries once an action has been carried out.
pub open spec fn after_action(
    a: SyncAction,
    l: Option<FileEntry>,
    r: Option<FileEntry>,
) -> (Option<FileEntry>, Option<FileEntry>) {
    match a {
        SyncAction::UploadLocal => (l, l),
        SyncAction::DownloadRemote => (r, r),
        SyncAction::DeleteRemote => (l, None),
        SyncAction::DeleteLocal => (None, r),
        _ => (l, r),
    }
}

/// Both sides hold the path with the same content, or neither holds it.
pub open spec fn in_agreement(l: Option<FileEntry>, r: Option<FileEntry>) -> bool {
    match (l, r) {
        (None, None) => true,
        (Some(a), Some(b)) => same_content(a, b),
        _ => false,
    }
}

/// Entries with equal ETags have equal sizes and modification times.
pub open spec fn etag_consistent(a: Option<FileEntry>, b: Option<FileEntry>) -> bool {
    match (a, b) {
        (Some(x), Some(y)) => match (x.etag, y.etag) {
            (Some(ex), Some(ey)) => ex@ == ey@ ==> x.size == y.size && x.mtime == y.mtime,
            _ => true,
        },
        _ => true,
    }
}

pub open spec fn no_etag(a: Option<FileEntry>) -> bool {
    match a {
        Some(x) => x.etag is None,
        None => true,
    }
}

/// Swapping the local and the remote side swaps uploads with downloads and
/// remote deletions with local ones; conflicts and skips stay.
pub proof fn law_decide_mirror(l: Option<FileEntry>, r: Option<FileEntry>, s: Option<FileEntry>)
    ensures
        decide(r, l, s) == mirror(decide(l, r, s)),
{
}

/// A path whose two sides both still match the last state is skipped.
pub proof fn law_unchanged_is_skipped(l: FileEntry, r: FileEntry, s: FileEntry)
    requires
        same_content(l, s),
        same_content(r, s),
    ensures
        decide(Some(l), Some(r), Some(s)) == SyncAction::Skip,
{
}

/// Carrying out any action other than a conflict leaves the two sides in
/// agreement, where local entries carry no ETag (as a directory walk gives them)
/// and equal remote and recorded ETags mean equal sizes and times.
pub proof fn law_actions_converge(l: Option<FileEntry>, r: Option<FileEntry>, s: Option<FileEntry>)
    requires
        no_etag(l),
        etag_consistent(r, s),
        decide(l, r, s) != SyncAction::Conflict,
    ensures
        in_agreement(
            after_action(decide(l, r, s), l, r).0,
            after_action(decide(l, r, s), l, r).1,
        ),
{
}

/// Two entries match: by ETag where both have one, else by size and
/// modification time.
pub fn entries_equal(a: &FileEntry, b: &FileEntry) -> (r: bool)
    ensures
        r == same_content(*a, *b),
{
    match (&a.etag, &b.etag) {
        (Some(ea), Some(eb)) => *ea == *eb,
        _ => a.size == b.size && a.mtime == b.mtime,
    }
}

fn decide_exec(l: Option<&FileEntry>, r: Option<&FileEntry>, s: Option<&FileEntry>) -> (a:
    SyncAction)
    ensures
        a == decide(
            match l {
                Some(x) => Some(*x),
                None => None,
            },
            match r {
                Some(x) => Some(*x),
                None => None,
            },
            match s {
                Some(x) => Some(*x),
                None => None,
            },
        ),
{
    match (l, r, s) {
        (Some(_), None, None) => SyncAction::UploadLocal,
        (None, Some(_), None) => SyncAction::DownloadRemote,
        (Some(l), Some(r), None) => {
            if entries_equal(l, r) {
                SyncAction::Skip
            } else {
                SyncAction::Conflict
            }
        },
        (Some(l), Some(r), Some(s)) => {
            let local_changed = !entries_equal(l, s);
            let remote_changed = !entries_equal(r, s);
            if !local_changed && !remote_changed {
                SyncAction::Skip
            } else if local_changed && !remote_changed {
                SyncAction::UploadLocal
            } else if !local_changed && remote_changed {
                SyncAction::DownloadRemote
            } else {
                SyncAction::Conflict
            }
        },
        (None, Some(r), Some(s)) => {
            if entries_equal(r, s) {
                SyncAction::DeleteRemote
            } else {
                SyncAction::Conflict
            }
        },
        (Some(l), None, Some(s)) => {
            if entries_equal(l, s) {
                SyncAction::DeleteLocal
            } else {
                SyncAction::Conflict
            }
        },
        (None, None, _) => SyncAction::Skip,
    }
}

/// Every action in `actions` is the decision for its path.
pub open spec fn all_decided(
    actions: Map<Seq<char>, SyncAction>,
    local: Map<Seq<char>, FileEntry>,
    remote: Map<Seq<char>, FileEntry>,
    last_state: Map<Seq<char>, FileEntry>,
) -> bool {
    forall|p: Seq<char>| #[trigger]
        actions.dom().contains(p) ==> actions[p] == decide(
            lookup(local, p),
            lookup(remote, p),
            lookup(last_state, p),
        )
}

fn add_paths(
    actions: &mut PathMap<SyncAction>,
    paths: &Vec<String>,
    local: &PathMap<FileEntry>,
    remote: &PathMap<FileEntry>,
    last_state: &PathMap<FileEntry>,
)
    requires
        all_decided(old(actions).view(), local.view(), remote.view(), last_state.view()),
    ensures
        all_decided(final(actions).view(), local.view(), remote.view(), last_state.view()),
        forall|p: Seq<char>| #[trigger]
            final(actions).view().dom().contains(p) <==> (old(actions).view().dom().contains(p)
                || exists|i: int| 0 <= i < paths@.len() && #[trigger] paths@[i]@ == p),
{
    let mut i: usize = 0;
    while i < paths.len()
        invariant
            i <= paths@.len(),
            all_decided(actions.view(), local.view(), remote.view(), last_state.view()),
            forall|p: Seq<char>| #[trigger]
                actions.view().dom().contains(p) <==> (old(actions).view().dom().contains(p)
                    || exists|j: int| 0 <= j < i && #[trigger] paths@[j]@ == p),
        decreases paths.len() - i,
    {
        let path = &paths[i];
        let a = decide_exec(local.get(path), remote.get(path), last_state.get(path));
        let ghost before = actions.view();
        actions.insert(path.clone(), a);
        proof {
            assert forall|p: Seq<char>| #[trigger]
                actions.view().dom().contains(p) <==> (old(actions).view().dom().contains(p)
                    || exists|j: int| 0 <= j < i + 1 && #[trigger] paths@[j]@ == p) by {
                if p == paths@[i as int]@ {
                    assert(paths@[i as int]@ == p);
                } else if exists|j: int| 0 <= j < i + 1 && #[trigger] paths@[j]@ == p {
                    let j = choose|j: int| 0 <= j < i + 1 && #[trigger] paths@[j]@ == p;
                    assert(j < i);
                }
            }
        }
        i += 1;
    }
}

/// For every path known locally, remotely or in the last state, the action that
/// brings both sides in sync (see `decide`).
pub fn compute_sync_actions(
    local: &PathMap<FileEntry>,
    remote: &PathMap<FileEntry>,
    last_state: &PathMap<FileEntry>,
) -> (actions: PathMap<SyncAction>)
    ensures
        actions.view().dom() == local.view().dom() + remote.view().dom()
            + last_state.view().dom(),
        forall|p: Seq<char>| #[trigger]
            actions.view().dom().contains(p) ==> actions.view()[p] == decide(
                lookup(local.view(), p),
                lookup(remote.view(), p),
                lookup(last_state.view(), p),
            ),
{
    let mut actions: PathMap<SyncAction> = PathMap::new();
    let lk = local.keys();
    let rk = remote.keys();
    let sk = last_state.keys();
    add_paths(&mut actions, &lk, local, remote, last_state);
    add_paths(&mut actions, &rk, local, remote, last_state);
    add_paths(&mut actions, &sk, local, remote, last_state);
    assert(actions.view().dom() =~= local.view().dom() + remote.view().dom()
        + last_state.view().dom());
    actions
}

} // verus!
