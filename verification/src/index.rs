//! The index of the synced tree: for each path its content hash and vector clock.
//!
//! This is the metadata layer. File content lives in the [`crate::store::BlobStore`].

use crate::digest::{blake3_hex, content_hash, is_hex};
use crate::paths::{beneath, is_beneath};
use crate::strmap::{ascending, StrMap};
use crate::text::{chars_of, decimal, text_of, to_decimal};
use crate::vclock::{Counters, VClock};
use vstd::prelude::*;

verus! {

/// One row of the local file index. Also the shape exchanged with peers.
#[derive(Debug, PartialEq, Eq)]
pub struct FileRecord {
    /// Path relative to the synced root, forward-slashed (stable across systems).
    pub path: String,
    pub hash: String,
    pub size: u64,
    /// The unix permission bits of a regular file; zero for a link or a tombstone.
    pub mode: u32,
    /// A symbolic link: its content is the link's target, never what the target holds.
    pub link: bool,
    pub vclock: VClock,
    pub updated_ms: i64,
    /// Tombstone: the file was deleted. The row (with its clock) is kept so that the deletion
    /// propagates to peers and can be ordered against concurrent edits.
    pub deleted: bool,
}

/// What a row says.
#[verifier::ext_equal]
pub struct Record {
    pub path: Seq<char>,
    pub hash: Seq<char>,
    pub size: u64,
    pub mode: u32,
    pub link: bool,
    pub vclock: Counters,
    pub updated_ms: i64,
    pub deleted: bool,
}

impl View for FileRecord {
    type V = Record;

    open spec fn view(&self) -> Record {
        Record {
            path: self.path@,
            hash: self.hash@,
            size: self.size,
            mode: self.mode,
            link: self.link,
            vclock: self.vclock@,
            updated_ms: self.updated_ms,
            deleted: self.deleted,
        }
    }
}

impl Clone for FileRecord {
    fn clone(&self) -> (r: FileRecord)
        ensures
            r@ == self@,
    {
        FileRecord {
            path: self.path.clone(),
            hash: self.hash.clone(),
            size: self.size,
            mode: self.mode,
            link: self.link,
            vclock: self.vclock.clone(),
            updated_ms: self.updated_ms,
            deleted: self.deleted,
        }
    }
}

/// What each of a list of rows says.
pub open spec fn records_of(rows: Seq<FileRecord>) -> Seq<Record> {
    Seq::new(rows.len(), |i: int| rows[i]@)
}

/// The paths of a list of rows.
pub open spec fn paths_of(rows: Seq<Record>) -> Seq<Seq<char>> {
    Seq::new(rows.len(), |i: int| rows[i].path)
}

/// Rows by path.
pub type Rows = Map<Seq<char>, Record>;

/// `list` holds every row of `rows` once, in path order.
pub open spec fn lists(rows: Rows, list: Seq<Record>) -> bool {
    &&& ascending(paths_of(list))
    &&& forall|i: int|
        0 <= i < list.len() ==> rows.contains_key((#[trigger] list[i]).path)
            && rows[list[i].path] == list[i]
    &&& forall|p: Seq<char>| #[trigger] rows.contains_key(p) ==> paths_of(list).contains(p)
}

/// Rows put in one after the other; a later row of a path replaces an earlier one.
pub open spec fn gathered(list: Seq<Record>) -> Rows
    decreases list.len(),
{
    if list.len() == 0 {
        Map::empty()
    } else {
        gathered(list.drop_last()).insert(list.last().path, list.last())
    }
}

/// The paths whose row is not a tombstone.
pub open spec fn live_paths(rows: Rows) -> Set<Seq<char>> {
    Set::new(|p: Seq<char>| rows.contains_key(p) && !rows[p].deleted)
}

/// The path is on record as a symbolic link that was not deleted.
pub open spec fn is_live_link(rows: Rows, p: Seq<char>) -> bool {
    rows.contains_key(p) && rows[p].link && !rows[p].deleted
}

/// The path lies beneath one that is on record as a symbolic link.
pub open spec fn is_behind_link(rows: Rows, path: Seq<char>) -> bool {
    exists|p: Seq<char>| #[trigger] is_live_link(rows, p) && is_beneath(path, p)
}

/// How many of the first `n` keys are live.
spec fn live_among(rows: Rows, keys: Seq<Seq<char>>, n: nat) -> nat
    decreases n,
{
    if n == 0 {
        0
    } else {
        live_among(rows, keys, (n - 1) as nat) + if rows[keys[n - 1]].deleted {
            0nat
        } else {
            1nat
        }
    }
}

proof fn live_among_is(rows: Rows, keys: Seq<Seq<char>>, n: nat)
    requires
        n <= keys.len(),
        ascending(keys),
    ensures
        ({
            let s = Set::new(|p: Seq<char>| keys.take(n as int).contains(p) && !rows[p].deleted);
            s.finite() && s.len() == live_among(rows, keys, n)
        }),
        live_among(rows, keys, n) <= n,
    decreases n,
{
    let s = Set::new(|p: Seq<char>| keys.take(n as int).contains(p) && !rows[p].deleted);
    if n == 0 {
        assert(s =~= Set::empty());
    } else {
        let m = (n - 1) as nat;
        let k = keys[n - 1];
        live_among_is(rows, keys, m);
        let t = Set::new(|p: Seq<char>| keys.take(m as int).contains(p) && !rows[p].deleted);
        assert(!keys.take(m as int).contains(k)) by {
            if keys.take(m as int).contains(k) {
                let j = keys.take(m as int).index_of(k);
                assert(keys[j] == k);
                crate::text::before_irreflexive(k);
            }
        }
        assert(keys.take(n as int) =~= keys.take(m as int).push(k));
        assert forall|p: Seq<char>| keys.take(n as int).contains(p) == (keys.take(m as int).contains(
            p,
        ) || p == k) by {
            if keys.take(m as int).contains(p) {
                let j = keys.take(m as int).index_of(p);
                assert(keys.take(n as int)[j] == p);
            }
            if keys.take(n as int).contains(p) && p != k {
                let j = keys.take(n as int).index_of(p);
                assert(keys.take(m as int)[j] == p);
            }
            assert(keys.take(n as int)[n - 1] == k);
        }
        if rows[k].deleted {
            assert(s =~= t);
        } else {
            assert(s =~= t.insert(k));
        }
    }
}

/// The index: rows by path, and this device's identity once it has one.
#[derive(Debug)]
pub struct Index {
    rows: StrMap<FileRecord>,
    device: Option<String>,
}

impl View for Index {
    type V = Rows;

    closed spec fn view(&self) -> Rows {
        Map::new(
            |p: Seq<char>| self.rows@.contains_key(p),
            |p: Seq<char>| self.rows@[p]@,
        )
    }
}

impl Index {
    #[verifier::type_invariant]
    spec fn keyed(self) -> bool {
        forall|p: Seq<char>| #[trigger]
            self.rows@.contains_key(p) ==> self.rows@[p].path@ == p
    }

    /// The identity of this device, if one was given.
    pub closed spec fn device(self) -> Option<Seq<char>> {
        match self.device {
            Some(d) => Some(d@),
            None => None,
        }
    }

    /// An index that holds the given rows and the device identity that was kept with them.
    pub fn open(rows: &Vec<FileRecord>, device: Option<String>) -> (r: Index)
        ensures
            r@ == gathered(records_of(rows@)),
            match device {
                Some(d) => r.device() == Some(d@),
                None => r.device() is None,
            },
    {
        let mut r = Index { rows: StrMap::new(), device };
        let ghost dev = r.device();
        let mut i: usize = 0;
        proof {
            assert(records_of(rows@).take(0).len() == 0);
            assert(r@ =~= Map::<Seq<char>, Record>::empty());
        }
        while i < rows.len()
            invariant
                i <= rows@.len(),
                r@ == gathered(records_of(rows@).take(i as int)),
                r.device() == dev,
            decreases rows@.len() - i,
        {
            r.upsert(&rows[i]);
            proof {
                let list = records_of(rows@);
                assert(list.take(i + 1).drop_last() =~= list.take(i as int));
            }
            i += 1;
        }
        proof {
            assert(records_of(rows@).take(rows@.len() as int) =~= records_of(rows@));
        }
        r
    }

    /// Stable identifier for this device: the one kept, or else `fresh`, which is kept from then
    /// on.
    pub fn device_id(&mut self, fresh: String) -> (id: String)
        ensures
            final(self)@ == old(self)@,
            match old(self).device() {
                Some(d) => id@ == d,
                None => id@ == fresh@,
            },
            final(self).device() == Some(id@),
    {
        proof {
            use_type_invariant(&*self);
        }
        match &self.device {
            Some(d) => d.clone(),
            None => {
                self.device = Some(fresh.clone());
                fresh
            },
        }
    }

    /// The row of a path, if there is one.
    pub fn get(&self, path: &str) -> (r: Option<FileRecord>)
        ensures
            match r {
                Some(rec) => self@.contains_key(path@) && rec@ == self@[path@] && rec.path@ == path@,
                None => !self@.contains_key(path@),
            },
    {
        proof {
            use_type_invariant(self);
        }
        match self.rows.get(path) {
            Some(rec) => Some(rec.clone()),
            None => None,
        }
    }

    /// Sets the row of a path.
    pub fn upsert(&mut self, rec: &FileRecord)
        ensures
            final(self)@ == old(self)@.insert(rec@.path, rec@),
            final(self).device() == old(self).device(),
    {
        proof {
            use_type_invariant(&*self);
        }
        let ghost was = self@;
        let mut rows: StrMap<FileRecord> = StrMap::new();
        std::mem::swap(&mut rows, &mut self.rows);
        let ghost before = rows@;
        let copy = rec.clone();
        rows.insert(rec.path.clone(), copy);
        proof {
            assert forall|p: Seq<char>| #[trigger] rows@.contains_key(p) implies rows@[p].path@ == p by {
                if p != rec.path@ {
                    assert(before.contains_key(p));
                }
            }
        }
        self.rows = rows;
        proof {
            assert(self@ =~= was.insert(rec@.path, rec@));
        }
    }

    /// Every row, in path order.
    pub fn all(&self) -> (out: Vec<FileRecord>)
        ensures
            lists(self@, records_of(out@)),
    {
        proof {
            use_type_invariant(self);
        }
        let n = self.rows.len();
        let ghost keys = self.rows.keys();
        let mut out: Vec<FileRecord> = Vec::new();
        let mut i: usize = 0;
        while i < n
            invariant
                i <= n,
                n == keys.len(),
                keys == self.rows.keys(),
                ascending(keys),
                forall|p: Seq<char>| #[trigger]
                    self.rows@.contains_key(p) ==> self.rows@[p].path@ == p,
                out@.len() == i,
                forall|j: int|
                    0 <= j < i ==> (#[trigger] out@[j])@.path == keys[j] && self@.contains_key(keys[j])
                        && out@[j]@ == self@[keys[j]],
            decreases n - i,
        {
            let (_path, rec) = self.rows.entry(i);
            proof {
                assert(self.rows@.contains_key(keys[i as int]));
                assert(self@.contains_key(keys[i as int]));
            }
            out.push(rec.clone());
            i += 1;
        }
        proof {
            let list = records_of(out@);
            assert(paths_of(list) =~= keys);
            assert forall|i: int| 0 <= i < list.len() implies self@.contains_key(
                (#[trigger] list[i]).path,
            ) && self@[list[i].path] == list[i] by {
                assert(out@[i]@ == self@[keys[i]]);
            }
        }
        out
    }

    /// Whether the path lies beneath one that is on record as a symbolic link.
    pub fn has_link_above(&self, path: &str) -> (r: bool)
        ensures
            r == is_behind_link(self@, path@),
    {
        let n = self.rows.len();
        let ghost keys = self.rows.keys();
        let mut i: usize = 0;
        while i < n
            invariant
                i <= n,
                n == keys.len(),
                keys == self.rows.keys(),
                ascending(keys),
                forall|j: int|
                    0 <= j < i ==> !(is_live_link(self@, #[trigger] keys[j]) && is_beneath(
                        path@,
                        keys[j],
                    )),
            decreases n - i,
        {
            let (above, rec) = self.rows.entry(i);
            proof {
                assert(self.rows@.contains_key(keys[i as int]));
                assert(self@[keys[i as int]] == rec@);
            }
            if rec.link && !rec.deleted && beneath(path, above) {
                proof {
                    assert(is_live_link(self@, keys[i as int]));
                }
                return true;
            }
            i += 1;
        }
        proof {
            if is_behind_link(self@, path@) {
                let p = choose|p: Seq<char>| #[trigger]
                    is_live_link(self@, p) && is_beneath(path@, p);
                assert(self.rows@.contains_key(p));
                assert(keys.contains(p));
                let j = keys.index_of(p);
                assert(keys[j] == p);
            }
        }
        false
    }

    /// Number of live (not deleted) files.
    pub fn count_live(&self) -> (n: usize)
        ensures
            live_paths(self@).finite(),
            n == live_paths(self@).len(),
    {
        let total = self.rows.len();
        let ghost keys = self.rows.keys();
        let mut n: usize = 0;
        let mut i: usize = 0;
        while i < total
            invariant
                i <= total,
                total == keys.len(),
                keys == self.rows.keys(),
                ascending(keys),
                n <= i,
                n == live_among(self@, keys, i as nat),
            decreases total - i,
        {
            let (_path, rec) = self.rows.entry(i);
            proof {
                assert(self.rows@.contains_key(keys[i as int]));
                assert(self@[keys[i as int]] == rec@);
            }
            if !rec.deleted {
                n += 1;
            }
            i += 1;
        }
        proof {
            live_among_is(self@, keys, total as nat);
            assert(keys.take(total as int) =~= keys);
            assert forall|p: Seq<char>| self@.contains_key(p) == keys.contains(p) by {
                assert(self.rows@.contains_key(p) == keys.contains(p));
            }
            assert(live_paths(self@) =~= Set::new(
                |p: Seq<char>| keys.take(total as int).contains(p) && !self@[p].deleted,
            ));
        }
        n
    }
}

/// The permission bits that a file has where none were recorded: readable by all, writable by
/// its owner.
pub const DEFAULT_MODE: u32 = 0o644;

/// The permission bits of a file's mode, without the bits for its type.
pub fn permissions(st_mode: u32) -> (r: u32)
    ensures
        r == st_mode % 0o10000,
{
    st_mode % 0o10000
}

/// A row as the database keeps it: path, hash, size, clock, time, tombstone flag, permission bits
/// and link flag.
pub type Row = (String, String, i64, VClock, i64, i64, i64, i64);

/// What a database row says.
pub open spec fn row_record(row: Row) -> Record {
    Record {
        path: row.0@,
        hash: row.1@,
        size: row.2 as u64,
        mode: row.6 as u32,
        link: row.7 != 0,
        vclock: row.3@,
        updated_ms: row.4,
        deleted: row.5 != 0,
    }
}

/// The record that a database row stands for.
pub fn tuple_to_record(row: Row) -> (r: FileRecord)
    ensures
        r@ == row_record(row),
        r.path@ == row.0@,
        r.hash@ == row.1@,
        row.2 >= 0 ==> r.size == row.2,
        r.vclock@ == row.3@,
        r.updated_ms == row.4,
        r.deleted <==> row.5 != 0,
        0 <= row.6 <= u32::MAX ==> r.mode == row.6,
        r.link <==> row.7 != 0,
{
    FileRecord {
        path: row.0,
        hash: row.1,
        size: row.2 as u64,
        mode: row.6 as u32,
        link: row.7 != 0,
        vclock: row.3,
        updated_ms: row.4,
        deleted: row.5 != 0,
    }
}

/// The number that a flag is kept as.
pub open spec fn flag(b: bool) -> i64 {
    if b {
        1
    } else {
        0
    }
}

/// The database row that a record is kept as. Sizes from 2^63 up wrap to negative numbers.
pub fn record_to_tuple(rec: &FileRecord) -> (row: Row)
    ensures
        row.0@ == rec@.path,
        row.1@ == rec@.hash,
        row.2 == rec@.size as i64,
        row.3@ == rec@.vclock,
        row.4 == rec@.updated_ms,
        row.5 == flag(rec@.deleted),
        row.5 == (if rec.deleted {
            1i64
        } else {
            0i64
        }),
        row.6 == rec@.mode,
        row.7 == flag(rec@.link),
        row.7 == (if rec.link {
            1i64
        } else {
            0i64
        }),
        row_record(row) == rec@,
{
    let deleted: i64 = if rec.deleted {
        1
    } else {
        0
    };
    let link: i64 = if rec.link {
        1
    } else {
        0
    };
    let row = (
        rec.path.clone(),
        rec.hash.clone(),
        rec.size as i64,
        rec.vclock.clone(),
        rec.updated_ms,
        deleted,
        rec.mode as i64,
        link,
    );
    proof {
        size_survives(rec.size);
    }
    row
}

/// Every size comes back from the database as it went in, the ones above 2^63 too.
pub proof fn size_survives(size: u64)
    ensures
        (size as i64) as u64 == size,
{
    assert((size as i64) as u64 == size) by (bit_vector);
}

/// The seed of a device identity.
pub open spec fn device_seed(nanos: u128, pid: u32) -> Seq<char> {
    decimal(nanos as nat).push('-') + decimal(pid as nat)
}

/// A per-install id derived from a time in nanoseconds and a process id, hashed for compactness:
/// the first 16 digits of the digest.
pub fn new_device_id(nanos: u128, pid: u32) -> (id: String)
    ensures
        id@ == blake3_hex(vstd::utf8::encode_utf8(device_seed(nanos, pid))).take(16),
        id@ == blake3_hex(
            vstd::utf8::encode_utf8(decimal(nanos as nat) + seq!['-'] + decimal(pid as nat)),
        ).take(16),
        id@.len() == 16,
        forall|i: int| 0 <= i < 16 ==> is_hex(#[trigger] id@[i]),
{
    let mut seed = to_decimal(nanos);
    seed.push('-');
    let tail = to_decimal(pid as u128);
    vstd::string::StringExecFns::append(&mut seed, tail.as_str());
    proof {
        assert(device_seed(nanos, pid) =~= decimal(nanos as nat) + seq!['-'] + decimal(
            pid as nat,
        ));
    }
    let hash = content_hash(seed.as_str().as_bytes());
    let v = chars_of(hash.as_str());
    let id = text_of(&v, 0, 16);
    proof {
        assert(v@.subrange(0, 16) =~= v@.take(16));
        assert forall|i: int| 0 <= i < 16 implies is_hex(#[trigger] id@[i]) by {
            assert(is_hex(hash@[i]));
        }
    }
    id
}

/// After an upsert the row of that path is the one put in, and no other row changed.
pub proof fn upsert_sets_one_row(rows: Rows, rec: Record, other: Seq<char>)
    ensures
        rows.insert(rec.path, rec).contains_key(rec.path),
        rows.insert(rec.path, rec)[rec.path] == rec,
        other != rec.path ==> (rows.insert(rec.path, rec).contains_key(other)
            == rows.contains_key(other)) && (rows.contains_key(other) ==> rows.insert(
            rec.path,
            rec,
        )[other] == rows[other]),
{
}

/// A listing opened again gives the same rows.
pub proof fn listing_reopens(rows: Rows, list: Seq<Record>)
    requires
        lists(rows, list),
    ensures
        gathered(list) == rows,
{
    listing_gathers(rows, list, list.len());
    assert(list.take(list.len() as int) =~= list);
    assert forall|p: Seq<char>| #[trigger] rows.contains_key(p) implies gathered(list).contains_key(
        p,
    ) by {
        let i = paths_of(list).index_of(p);
        assert(paths_of(list)[i] == p);
        assert(list[i].path == p);
    }
    assert(gathered(list) =~= rows);
}

proof fn listing_gathers(rows: Rows, list: Seq<Record>, n: nat)
    requires
        lists(rows, list),
        n <= list.len(),
    ensures
        forall|p: Seq<char>| #[trigger]
            gathered(list.take(n as int)).contains_key(p) ==> rows.contains_key(p) && gathered(
                list.take(n as int),
            )[p] == rows[p],
        forall|i: int|
            0 <= i < n ==> gathered(list.take(n as int)).contains_key((#[trigger] list[i]).path),
    decreases n,
{
    if n > 0 {
        listing_gathers(rows, list, (n - 1) as nat);
        assert(list.take(n as int).drop_last() =~= list.take(n - 1));
        assert(list.take(n as int).last() == list[n - 1]);
        let g = gathered(list.take(n as int));
        let h = gathered(list.take(n - 1));
        assert(g == h.insert(list[n - 1].path, list[n - 1]));
        assert forall|p: Seq<char>| #[trigger] g.contains_key(p) implies rows.contains_key(p) && g[p]
            == rows[p] by {
            if p != list[n - 1].path {
                assert(h.contains_key(p));
            }
        }
    }
}

/// Of the rows that an index is opened with, the last one of a path is its row.
pub proof fn last_row_counts(list: Seq<Record>, path: Seq<char>, i: int)
    requires
        -1 <= i < list.len(),
        i >= 0 ==> list[i].path == path,
        forall|j: int| i < j < list.len() ==> (#[trigger] list[j]).path != path,
    ensures
        i >= 0 ==> gathered(list).contains_key(path) && gathered(list)[path] == list[i],
        i == -1 ==> !gathered(list).contains_key(path),
    decreases list.len(),
{
    if list.len() > 0 && i < list.len() - 1 {
        let d = list.drop_last();
        assert(list[list.len() - 1].path != path);
        assert forall|j: int| i < j < d.len() implies (#[trigger] d[j]).path != path by {
            assert(list[j].path != path);
        }
        last_row_counts(d, path, i);
    }
}

/// A file counts as live if it is on record and was not deleted.
pub proof fn live_files_are_not_deleted(rows: Rows, p: Seq<char>)
    ensures
        live_paths(rows).contains(p) <==> rows.contains_key(p) && !rows[p].deleted,
{
}

/// A listing has each row once, and those of different paths in the order of their paths.
pub proof fn listing_has_each_row_once(rows: Rows, list: Seq<Record>, p: Seq<char>, i: int, j: int)
    requires
        lists(rows, list),
        0 <= i < j < list.len(),
    ensures
        crate::text::before(list[i].path, list[j].path),
        list[i].path != list[j].path,
        rows.contains_key(list[i].path) && rows[list[i].path] == list[i],
        rows.contains_key(p) ==> exists|k: int|
            0 <= k < list.len() && #[trigger] list[k] == rows[p],
{
    let paths = paths_of(list);
    assert(paths[i] == list[i].path && paths[j] == list[j].path);
    assert(crate::text::before(paths[i], paths[j]));
    crate::text::before_irreflexive(list[i].path);
    if rows.contains_key(p) {
        let k = paths.index_of(p);
        assert(paths.contains(p));
        assert(list[k].path == p);
        assert(list[k] == rows[p]);
    }
}

/// A row says what its fields say.
pub proof fn record_says_its_fields(r: FileRecord)
    ensures
        r@.path == r.path@,
        r@.hash == r.hash@,
        r@.size == r.size,
        r@.mode == r.mode,
        r@.link == r.link,
        r@.vclock == r.vclock@,
        r@.updated_ms == r.updated_ms,
        r@.deleted == r.deleted,
{
}

} // verus!
