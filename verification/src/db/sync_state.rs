//! The state recorded after the last sync of a folder, as rows of the
//! `sync_state` table: one row per path, with the entry's etag, size and
//! modification time.
use vstd::prelude::*;

use crate::pathmap::PathMap;
use crate::rclone::types::opt_view;
use crate::s3sync::types::FileEntry;
use crate::text::string_of;

verus! {

/// One row of the `sync_state` table.
pub struct StateRow {
    pub file_path: String,
    pub etag: Option<String>,
    /// The size as SQLite stores it: the bits of the `u64` read as an `i64`.
    pub size: i64,
    pub local_mtime: Option<i64>,
}

/// What the state keeps of an entry: everything but its path.
pub struct SavedEntry {
    pub size: u64,
    pub etag: Option<Seq<char>>,
    pub mtime: Option<i64>,
}

pub open spec fn saved(e: FileEntry) -> SavedEntry {
    SavedEntry { size: e.size, etag: opt_view(e.etag), mtime: e.mtime }
}

/// Whether chrono holds a `DateTime<Utc>` for this many seconds since the
/// epoch: from `DateTime::<Utc>::MIN_UTC` (-262143-01-01T00:00:00Z) to
/// `DateTime::<Utc>::MAX_UTC` (+262142-12-31T23:59:59Z).
pub open spec fn utc_representable(secs: i64) -> bool {
    -8_334_601_228_800 <= secs && secs <= 8_210_266_876_799
}

/// `chrono::DateTime::<Utc>::from_timestamp(secs, 0)` returns `Some`: it does
/// where the seconds fall between the timestamps of `MIN_UTC` and `MAX_UTC`,
/// the first and last days of the years chrono's dates accept.
#[verifier::external_body]
fn representable(secs: i64) -> (b: bool)
    ensures
        b == utc_representable(secs),
{
    chrono::DateTime::from_timestamp(secs, 0).is_some()
}

/// The row written for an entry stored under a path.
pub open spec fn row_holds(r: StateRow, e: FileEntry) -> bool {
    &&& r.size == e.size as i64
    &&& opt_view(r.etag) == opt_view(e.etag)
    &&& r.local_mtime == e.mtime
}

/// The rows written for a state: one per path, each holding its entry.
pub open spec fn rows_of(m: Map<Seq<char>, FileEntry>, rows: Seq<StateRow>) -> bool {
    &&& forall|i: int, j: int|
        0 <= i < rows.len() && 0 <= j < rows.len() && i != j ==> rows[i].file_path@
            != rows[j].file_path@
    &&& forall|k: Seq<char>|
        m.dom().contains(k) <==> exists|i: int| 0 <= i < rows.len() && #[trigger] rows[i].file_path@ == k
    &&& forall|i: int| 0 <= i < rows.len() ==> row_holds(#[trigger] rows[i], m[rows[i].file_path@])
}

/// What a row is read back as: the size's bits as a `u64`, and no time where
/// chrono cannot hold the stored one.
pub open spec fn row_entry(r: StateRow) -> SavedEntry {
    SavedEntry {
        size: r.size as u64,
        etag: opt_view(r.etag),
        mtime: match r.local_mtime {
            Some(s) => if utc_representable(s) {
                Some(s)
            } else {
                None
            },
            None => None,
        },
    }
}

/// The state the rows hold, read in order (a later row for a path replaces an
/// earlier one).
pub open spec fn spec_loaded(rows: Seq<StateRow>) -> Map<Seq<char>, SavedEntry>
    decreases rows.len(),
{
    if rows.len() == 0 {
        Map::empty()
    } else {
        spec_loaded(rows.drop_last()).insert(rows.last().file_path@, row_entry(rows.last()))
    }
}

fn copy_etag(e: &Option<String>) -> (r: Option<String>)
    ensures
        opt_view(r) == opt_view(*e),
{
    match e {
        Some(s) => Some(s.clone()),
        None => None,
    }
}

/// The rows that store a state (see `rows_of`).
pub fn state_rows(entries: &PathMap<FileEntry>) -> (rows: Vec<StateRow>)
    ensures
        rows_of(entries@, rows@),
{
    let keys = entries.keys();
    let mut rows: Vec<StateRow> = Vec::new();
    let mut i: usize = 0;
    while i < keys.len()
        invariant
            i <= keys@.len(),
            rows@.len() == i,
            forall|a: int, b: int|
                0 <= a < keys@.len() && 0 <= b < keys@.len() && a != b ==> keys@[a]@ != keys@[b]@,
            forall|k: Seq<char>|
                entries@.dom().contains(k) <==> exists|a: int| 0 <= a < keys@.len() && #[trigger] keys@[a]@ == k,
            forall|a: int| 0 <= a < i ==> (#[trigger] rows@[a]).file_path@ == keys@[a]@,
            forall|a: int| 0 <= a < i ==> row_holds(#[trigger] rows@[a], entries@[keys@[a]@]),
        decreases keys.len() - i,
    {
        let k = &keys[i];
        assert(entries@.dom().contains(k@));
        match entries.get(k) {
            Some(e) => {
                rows.push(
                    StateRow {
                        file_path: k.clone(),
                        etag: copy_etag(&e.etag),
                        size: e.size as i64,
                        local_mtime: e.mtime,
                    },
                );
            },
            None => {
                assert(false);
            },
        }
        i += 1;
    }
    proof {
        assert forall|k: Seq<char>|
            entries@.dom().contains(k) <==> exists|a: int|
                0 <= a < rows@.len() && #[trigger] rows@[a].file_path@ == k by {
            if entries@.dom().contains(k) {
                let a = choose|a: int| 0 <= a < keys@.len() && #[trigger] keys@[a]@ == k;
                assert(rows@[a].file_path@ == k);
            }
            if exists|a: int| 0 <= a < rows@.len() && #[trigger] rows@[a].file_path@ == k {
                let a = choose|a: int| 0 <= a < rows@.len() && #[trigger] rows@[a].file_path@ == k;
                assert(keys@[a]@ == k);
            }
        }
    }
    rows
}

/// The state stored in the rows (see `spec_loaded`); entries come back with
/// an empty path.
pub fn state_from_rows(rows: &Vec<StateRow>) -> (m: PathMap<FileEntry>)
    ensures
        m@.dom() == spec_loaded(rows@).dom(),
        forall|k: Seq<char>|
            #[trigger] m@.dom().contains(k) ==> saved(m@[k]) == spec_loaded(rows@)[k]
                && m@[k].path@ == Seq::<char>::empty(),
{
    let mut m: PathMap<FileEntry> = PathMap::new();
    let mut i: usize = 0;
    while i < rows.len()
        invariant
            i <= rows@.len(),
            m@.dom() == spec_loaded(rows@.take(i as int)).dom(),
            forall|k: Seq<char>|
                #[trigger] m@.dom().contains(k) ==> saved(m@[k]) == spec_loaded(rows@.take(i as int))[k]
                    && m@[k].path@ == Seq::<char>::empty(),
        decreases rows.len() - i,
    {
        let r = &rows[i];
        let mtime = match r.local_mtime {
            Some(s) => if representable(s) {
                Some(s)
            } else {
                None
            },
            None => None,
        };
        let e = FileEntry {
            path: string_of(Vec::<char>::new().as_slice()),
            size: r.size as u64,
            etag: copy_etag(&r.etag),
            mtime,
        };
        assert(saved(e) == row_entry(*r));
        let ghost before = m@;
        m.insert(r.file_path.clone(), e);
        proof {
            let next = rows@.take(i + 1);
            assert(next.drop_last() =~= rows@.take(i as int));
            assert(next.last() == *r);
            assert(m@.dom() =~= spec_loaded(next).dom());
        }
        i += 1;
    }
    assert(rows@.take(rows@.len() as int) =~= rows@);
    m
}

proof fn lemma_size_bits(x: u64)
    ensures
        (x as i64) as u64 == x,
{
    assert((x as i64) as u64 == x) by (bit_vector);
}

proof fn lemma_loaded(rows: Seq<StateRow>)
    requires
        forall|i: int, j: int|
            0 <= i < rows.len() && 0 <= j < rows.len() && i != j ==> rows[i].file_path@
                != rows[j].file_path@,
    ensures
        forall|i: int|
            0 <= i < rows.len() ==> #[trigger] spec_loaded(rows).dom().contains(rows[i].file_path@)
                && spec_loaded(rows)[rows[i].file_path@] == row_entry(rows[i]),
        forall|k: Seq<char>|
            #[trigger] spec_loaded(rows).dom().contains(k) ==> exists|i: int|
                0 <= i < rows.len() && rows[i].file_path@ == k,
    decreases rows.len(),
{
    if rows.len() > 0 {
        let pre = rows.drop_last();
        lemma_loaded(pre);
        assert forall|i: int| 0 <= i < rows.len() implies #[trigger] spec_loaded(rows).dom().contains(
            rows[i].file_path@,
        ) && spec_loaded(rows)[rows[i].file_path@] == row_entry(rows[i]) by {
            if i < rows.len() - 1 {
                assert(pre[i] == rows[i]);
                assert(rows[i].file_path@ != rows[rows.len() - 1].file_path@);
            }
        }
        assert forall|k: Seq<char>| #[trigger] spec_loaded(rows).dom().contains(k) implies exists|i: int|
            0 <= i < rows.len() && rows[i].file_path@ == k by {
            if k != rows.last().file_path@ {
                assert(spec_loaded(pre).dom().contains(k));
                let i = choose|i: int| 0 <= i < pre.len() && pre[i].file_path@ == k;
                assert(rows[i] == pre[i]);
            } else {
                assert(rows[rows.len() - 1].file_path@ == k);
            }
        }
    }
}

/// What reading back keeps of an entry that was stored: its size and etag,
/// and its modification time where chrono can hold it (as every time the
/// engine records is), else none.
pub open spec fn read_back(e: FileEntry) -> SavedEntry {
    SavedEntry {
        size: e.size,
        etag: opt_view(e.etag),
        mtime: match e.mtime {
            Some(s) => if utc_representable(s) {
                Some(s)
            } else {
                None
            },
            None => None,
        },
    }
}

/// Reading back the rows written for a state gives the same paths, each with
/// its entry again (see `read_back`): size, etag and modification time; the
/// entry exactly where its time is one a `DateTime<Utc>` holds, as every time
/// an entry stands for is.
pub proof fn law_state_round_trip(m: Map<Seq<char>, FileEntry>, rows: Seq<StateRow>)
    requires
        rows_of(m, rows),
    ensures
        spec_loaded(rows).dom() == m.dom(),
        forall|k: Seq<char>| #[trigger] m.dom().contains(k) ==> spec_loaded(rows)[k] == read_back(m[k]),
        forall|k: Seq<char>|
            #[trigger] m.dom().contains(k) && (m[k].mtime matches Some(s) ==> utc_representable(s))
                ==> spec_loaded(rows)[k] == saved(m[k]),
{
    lemma_loaded(rows);
    assert forall|k: Seq<char>| #[trigger] m.dom().contains(k) implies spec_loaded(rows).dom().contains(k)
        && spec_loaded(rows)[k] == read_back(m[k]) by {
        let i = choose|i: int| 0 <= i < rows.len() && #[trigger] rows[i].file_path@ == k;
        assert(row_holds(rows[i], m[k]));
        lemma_size_bits(m[k].size);
        assert(spec_loaded(rows).dom().contains(rows[i].file_path@));
    }
    assert forall|k: Seq<char>| #[trigger] spec_loaded(rows).dom().contains(k) implies m.dom().contains(k) by {
        let i = choose|i: int| 0 <= i < rows.len() && rows[i].file_path@ == k;
        assert(rows[i].file_path@ == k);
    }
    assert(spec_loaded(rows).dom() =~= m.dom());
}

} // verus!
