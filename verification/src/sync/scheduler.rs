//! What the background scheduler syncs: the folders a trigger names, the
//! folders touched by local changes, and the folders other devices updated.
use vstd::prelude::*;

use crate::auth::client::UpdatedFolder;
use crate::commands::folders::{portable_path, segment_start};
use crate::db::folders::Folder;
use crate::rclone::types::strings_view;
use crate::text::{text_eq, owned};

verus! {

/// Why the scheduler runs syncs.
pub enum SyncTrigger {
    /// Sync these folders (local changes or remote updates).
    Folders(Vec<String>),
    /// Sync every folder the scheduler keeps in sync (start-up, "Sync All").
    All,
}

/// A folder is kept in sync while it is enabled and not released.
pub open spec fn scheduled(f: Folder) -> bool {
    f.is_enabled && f.mode@ != "cloud_only"@
}

/// The ids of the folders kept in sync, in the order listed.
pub open spec fn scheduled_ids(fs: Seq<Folder>) -> Seq<Seq<char>>
    decreases fs.len(),
{
    if fs.len() == 0 {
        Seq::empty()
    } else {
        scheduled_ids(fs.drop_last()) + if scheduled(fs.last()) {
            seq![fs.last().id@]
        } else {
            Seq::empty()
        }
    }
}

pub fn should_sync(folder: &Folder) -> (b: bool)
    ensures
        b == scheduled(*folder),
{
    folder.is_enabled && !text_eq(folder.mode.as_str(), "cloud_only")
}

/// The ids of the folders kept in sync.
pub fn folders_to_sync(folders: &Vec<Folder>) -> (ids: Vec<String>)
    ensures
        strings_view(ids@) == scheduled_ids(folders@),
{
    let mut ids: Vec<String> = Vec::new();
    let mut i: usize = 0;
    while i < folders.len()
        invariant
            i <= folders@.len(),
            strings_view(ids@) == scheduled_ids(folders@.take(i as int)),
        decreases folders.len() - i,
    {
        let ghost pre = folders@.take(i as int);
        assert(folders@.take(i + 1).drop_last() =~= pre);
        let ghost old_ids = ids@;
        if should_sync(&folders[i]) {
            let id = folders[i].id.clone();
            ids.push(id);
            assert(strings_view(ids@) =~= strings_view(old_ids) + seq![folders@[i as int].id@]);
        } else {
            assert(strings_view(ids@) =~= strings_view(old_ids) + Seq::<Seq<char>>::empty());
        }
        i += 1;
    }
    assert(folders@.take(folders@.len() as int) =~= folders@);
    ids
}

/// The folders a trigger asks to sync, given the registered folders.
pub fn trigger_targets(trigger: SyncTrigger, folders: &Vec<Folder>) -> (ids: Vec<String>)
    ensures
        match trigger {
            SyncTrigger::Folders(v) => strings_view(ids@) == strings_view(v@),
            SyncTrigger::All => strings_view(ids@) == scheduled_ids(folders@),
        },
{
    match trigger {
        SyncTrigger::Folders(v) => v,
        SyncTrigger::All => folders_to_sync(folders),
    }
}

/// Each text once, where it first occurs.
pub open spec fn first_occurrences(s: Seq<Seq<char>>) -> Seq<Seq<char>>
    decreases s.len(),
{
    if s.len() == 0 {
        Seq::empty()
    } else {
        let p = first_occurrences(s.drop_last());
        if p.contains(s.last()) {
            p
        } else {
            p.push(s.last())
        }
    }
}

fn contains_text(v: &Vec<String>, x: &String) -> (b: bool)
    ensures
        b == strings_view(v@).contains(x@),
{
    let mut i: usize = 0;
    while i < v.len()
        invariant
            i <= v@.len(),
            forall|j: int| 0 <= j < i ==> v@[j]@ != x@,
        decreases v.len() - i,
    {
        if text_eq(v[i].as_str(), x.as_str()) {
            assert(strings_view(v@)[i as int] == x@);
            return true;
        }
        i += 1;
    }
    proof {
        if strings_view(v@).contains(x@) {
            let j = choose|j: int| 0 <= j < strings_view(v@).len() && strings_view(v@)[j] == x@;
            assert(v@[j]@ == x@);
        }
    }
    false
}

/// The folders to sync after local changes: the folder of each changed path,
/// each once, in the order first seen.
pub fn triggered_folders(matched: &Vec<String>) -> (ids: Vec<String>)
    ensures
        strings_view(ids@) == first_occurrences(strings_view(matched@)),
{
    let mut ids: Vec<String> = Vec::new();
    let mut i: usize = 0;
    while i < matched.len()
        invariant
            i <= matched@.len(),
            strings_view(ids@) == first_occurrences(strings_view(matched@).take(i as int)),
        decreases matched.len() - i,
    {
        let ghost pre = strings_view(matched@).take(i as int);
        assert(strings_view(matched@).take(i + 1).drop_last() =~= pre);
        assert(strings_view(matched@).take(i + 1).last() == matched@[i as int]@);
        if !contains_text(&ids, &matched[i]) {
            let ghost old_ids = ids@;
            ids.push(matched[i].clone());
            assert(strings_view(ids@) =~= strings_view(old_ids).push(matched@[i as int]@));
        }
        i += 1;
    }
    assert(strings_view(matched@).take(matched@.len() as int) =~= strings_view(matched@));
    ids
}

/// The pieces of `p` between slashes, in order, empty ones included.
pub open spec fn slash_segments(p: Seq<char>) -> Seq<Seq<char>>
    decreases p.len(),
{
    let st = segment_start(p);
    if st <= 0 || st > p.len() {
        seq![p]
    } else {
        slash_segments(p.subrange(0, st - 1)).push(p.subrange(st, p.len() as int))
    }
}

/// The components of a path split at `/`, as `Path::components` gives them:
/// the root (`"/"`) where the path starts with a slash, `"."` where it starts
/// with `.` and no slash, then its named pieces; empty pieces and other `.`
/// are passed over.
pub open spec fn path_components(p: Seq<char>) -> Seq<Seq<char>> {
    let head = if p.len() > 0 && p[0] == '/' {
        seq!["/"@]
    } else if p =~= "."@ || (p.len() >= 2 && p[0] == '.' && p[1] == '/') {
        seq!["."@]
    } else {
        Seq::empty()
    };
    head + slash_segments(p).filter(|s: Seq<char>| s.len() > 0 && s != "."@)
}

/// `base` is a prefix of `path` by whole components.
pub open spec fn component_prefix(base: Seq<char>, path: Seq<char>) -> bool {
    let b = path_components(base);
    let c = path_components(path);
    b.len() <= c.len() && c.take(b.len() as int) == b
}

/// `std::path::Path::starts_with`: whether `base` is a prefix of `path` by
/// whole components. Stated, after its documentation and that of
/// `Path::components`, for text that every platform splits at `/` alone; left
/// unsaid for other text, whose components follow the platform's path syntax.
#[verifier::external_body]
fn path_starts_with(path: &str, base: &str) -> (b: bool)
    ensures
        portable_path(path@) && portable_path(base@) ==> b == component_prefix(base@, path@),
{
    std::path::Path::new(path).starts_with(base)
}

/// The folder of the first watched root that holds `path`, if any.
pub open spec fn first_watched(path: Seq<char>, watched: Seq<(String, String)>) -> Option<Seq<char>>
    decreases watched.len(),
{
    if watched.len() == 0 {
        None
    } else if component_prefix(watched[0].0@, path) {
        Some(watched[0].1@)
    } else {
        first_watched(path, watched.drop_first())
    }
}

/// Every root and the changed path are text that every platform splits at
/// `/` alone.
pub open spec fn all_portable(path: Seq<char>, watched: Seq<(String, String)>) -> bool {
    portable_path(path) && forall|i: int| 0 <= i < watched.len() ==> portable_path(#[trigger] watched[i].0@)
}

/// The folder a changed path belongs to: that of the first watched root
/// (`(root, folder id)`) it lies under, by whole components. Where the paths
/// are split at `/` alone this is exactly `first_watched`; in any case it is
/// one of the watched folders or none.
pub fn watched_folder(path: &str, watched: &Vec<(String, String)>) -> (r: Option<String>)
    ensures
        all_portable(path@, watched@) ==> match r {
            Some(id) => first_watched(path@, watched@) == Some(id@),
            None => first_watched(path@, watched@) is None,
        },
        r matches Some(id) ==> exists|i: int| 0 <= i < watched@.len() && #[trigger] watched@[i].1@ == id@,
{
    let mut i: usize = 0;
    assert(watched@.subrange(0, watched@.len() as int) =~= watched@);
    while i < watched.len()
        invariant
            i <= watched@.len(),
            all_portable(path@, watched@) ==> first_watched(path@, watched@) == first_watched(
                path@,
                watched@.subrange(i as int, watched@.len() as int),
            ),
        decreases watched.len() - i,
    {
        let ghost rest = watched@.subrange(i as int, watched@.len() as int);
        assert(rest[0] == watched@[i as int]);
        assert(rest.drop_first() =~= watched@.subrange(i + 1, watched@.len() as int));
        if path_starts_with(path, watched[i].0.as_str()) {
            let id = watched[i].1.clone();
            assert(watched@[i as int].1@ == id@);
            return Some(id);
        }
        i += 1;
    }
    assert(watched@.subrange(i as int, watched@.len() as int) =~= Seq::<(String, String)>::empty());
    None
}

/// The updated folders that are registered here, in the order the backend
/// listed them.
pub open spec fn known_updates(updated: Seq<UpdatedFolder>, local: Seq<Seq<char>>) -> Seq<Seq<char>>
    decreases updated.len(),
{
    if updated.len() == 0 {
        Seq::empty()
    } else {
        known_updates(updated.drop_last(), local) + if local.contains(updated.last().id@) {
            seq![updated.last().id@]
        } else {
            Seq::empty()
        }
    }
}

/// The folders to sync after other devices updated them: those of the
/// updated folders registered here.
pub fn remote_folders_to_sync(updated: &Vec<UpdatedFolder>, local_ids: &Vec<String>) -> (ids: Vec<
    String,
>)
    ensures
        strings_view(ids@) == known_updates(updated@, strings_view(local_ids@)),
{
    let mut ids: Vec<String> = Vec::new();
    let mut i: usize = 0;
    while i < updated.len()
        invariant
            i <= updated@.len(),
            strings_view(ids@) == known_updates(updated@.take(i as int), strings_view(local_ids@)),
        decreases updated.len() - i,
    {
        assert(updated@.take(i + 1).drop_last() =~= updated@.take(i as int));
        let ghost old_ids = ids@;
        if contains_text(local_ids, &updated[i].id) {
            ids.push(updated[i].id.clone());
            assert(strings_view(ids@) =~= strings_view(old_ids) + seq![updated@[i as int].id@]);
        } else {
            assert(strings_view(ids@) =~= strings_view(old_ids) + Seq::<Seq<char>>::empty());
        }
        i += 1;
    }
    assert(updated@.take(updated@.len() as int) =~= updated@);
    ids
}

/// The name shown while a folder syncs: its local path, or its id where the
/// folder could not be read.
pub fn notification_name(local_path: Option<String>, folder_id: &str) -> (n: String)
    ensures
        n@ == match local_path {
            Some(p) => p@,
            None => folder_id@,
        },
{
    match local_path {
        Some(p) => p,
        None => owned(folder_id),
    }
}

/// Local changes trigger each touched folder exactly once: the folders to sync
/// hold no id twice, and hold exactly the ids of the changed paths.
pub proof fn law_triggered_once(matched: Seq<Seq<char>>)
    ensures
        forall|i: int, j: int|
            0 <= i < j < first_occurrences(matched).len() ==> first_occurrences(matched)[i]
                != first_occurrences(matched)[j],
        forall|x: Seq<char>| first_occurrences(matched).contains(x) <==> matched.contains(x),
    decreases matched.len(),
{
    if matched.len() > 0 {
        let pre = matched.drop_last();
        law_triggered_once(pre);
        let p = first_occurrences(pre);
        let l = matched.last();
        let q = first_occurrences(matched);
        assert(matched =~= pre.push(l));
        assert forall|x: Seq<char>| matched.contains(x) <==> (pre.contains(x) || x == l) by {
            if matched.contains(x) && x != l {
                let k = choose|k: int| 0 <= k < matched.len() && matched[k] == x;
                assert(pre[k] == x);
            }
            if pre.contains(x) {
                let k = choose|k: int| 0 <= k < pre.len() && pre[k] == x;
                assert(matched[k] == x);
            }
            if x == l {
                assert(matched[matched.len() - 1] == x);
            }
        }
        if !p.contains(l) {
            assert(q == p.push(l));
            assert forall|x: Seq<char>| q.contains(x) <==> (p.contains(x) || x == l) by {
                if q.contains(x) && x != l {
                    let k = choose|k: int| 0 <= k < q.len() && q[k] == x;
                    assert(p[k] == x);
                }
                if p.contains(x) {
                    let k = choose|k: int| 0 <= k < p.len() && p[k] == x;
                    assert(q[k] == x);
                }
                if x == l {
                    assert(q[p.len() as int] == x);
                }
            }
        }
    }
}

/// Only registered folders are synced after remote updates.
pub proof fn law_remote_updates_registered(updated: Seq<UpdatedFolder>, local: Seq<Seq<char>>)
    ensures
        forall|i: int| 0 <= i < known_updates(updated, local).len() ==> local.contains(
            #[trigger] known_updates(updated, local)[i],
        ),
    decreases updated.len(),
{
    if updated.len() > 0 {
        law_remote_updates_registered(updated.drop_last(), local);
        let p = known_updates(updated.drop_last(), local);
        assert forall|i: int| 0 <= i < known_updates(updated, local).len() implies local.contains(
            #[trigger] known_updates(updated, local)[i],
        ) by {
            if i < p.len() {
                assert(known_updates(updated, local)[i] == p[i]);
            }
        }
    }
}

} // verus!
