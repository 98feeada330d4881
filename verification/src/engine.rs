//! The engine ties together the content store, the index, and this device's identity.
//!
//! [`Engine::observe`] is what the watcher calls when a file changed: it stores the content and
//! updates the index, bumping the vector clock only when the content actually changed (so that
//! re-scans and sync echoes don't inflate the clock). [`Engine::apply_incoming`] is what a peer's
//! record goes through: it updates the index and says, as a list of [`Step`]s, what is to happen
//! to the files of the synced tree and to the stored rows, in order.

use crate::digest::{blake3_hex, content_hash, is_digest};
use crate::index::{is_behind_link, records_of, FileRecord, Index, Record, Rows};
use crate::paths::{is_safe, join, safe, strip_prefix, stripped};
use crate::store::{comes_back, content, holds, stored, BlobStore, Shelves};
use crate::text::{before, rank, replace, replaced, same, Rank};
use crate::vclock::{bumped, causality, count, Causality, Counters, VClock};
use vstd::prelude::*;

verus! {

// ---- results -------------------------------------------------------------------------------
/// Outcome of observing a path.
#[derive(Debug, PartialEq, Eq)]
pub struct Observation {
    pub path: String,
    pub hash: String,
    pub size: u64,
    /// `false` if the content was identical to what was already indexed.
    pub changed: bool,
}

/// What a peer's record means relative to local state (drives the sync pull).
#[derive(Debug, PartialEq, Eq, Clone, Copy, Structural)]
pub enum SyncAction {
    /// It is there already (same content, or the local clock is newer or equal).
    Skip,
    /// The peer's version causally supersedes the local one: fetch and apply it.
    Fetch,
    /// Concurrent edits on both sides: a true conflict, resolved by `apply_incoming`.
    Conflict,
}

/// Result of applying an incoming record (for sync stats and logging).
#[derive(Debug, PartialEq, Eq)]
pub enum ApplyOutcome {
    /// It was there already; no content changed.
    Skipped,
    /// The peer's version superseded the local one and was applied (materialized or deleted).
    Applied,
    /// Delete-vs-edit conflict; the local edit was kept (the edit wins over a delete).
    ConflictKeptLocal,
    /// Edit-vs-edit conflict; both kept, the loser at `copy`.
    Conflicted { copy: String },
}

/// What an [`ApplyOutcome`] says.
pub enum Outcome {
    Skipped,
    Applied,
    ConflictKeptLocal,
    Conflicted { copy: Seq<char> },
}

impl View for ApplyOutcome {
    type V = Outcome;

    open spec fn view(&self) -> Outcome {
        match *self {
            ApplyOutcome::Skipped => Outcome::Skipped,
            ApplyOutcome::Applied => Outcome::Applied,
            ApplyOutcome::ConflictKeptLocal => Outcome::ConflictKeptLocal,
            ApplyOutcome::Conflicted { copy } => Outcome::Conflicted { copy: copy@ },
        }
    }
}

/// Why a peer's record was not applied.
#[derive(Debug, PartialEq, Eq)]
pub enum EngineError {
    /// The record has no path.
    EmptyPath,
    /// The record's path leads out of the synced tree.
    UnsafePath { path: String },
    /// The record's path leads through one that is on record as a symbolic link.
    BehindLink { path: String },
    /// The record's content is not in the store.
    ContentMissing { path: String, hash: String },
    /// The content of the peer's side of a conflict is not in the store.
    ConflictContentMissing { path: String },
    /// Content that was to be written out is not fully in the store.
    NotInStore { hash: String },
}

/// What an [`EngineError`] says.
pub enum Fault {
    EmptyPath,
    UnsafePath { path: Seq<char> },
    BehindLink { path: Seq<char> },
    ContentMissing { path: Seq<char>, hash: Seq<char> },
    ConflictContentMissing { path: Seq<char> },
    NotInStore { hash: Seq<char> },
}

impl View for EngineError {
    type V = Fault;

    open spec fn view(&self) -> Fault {
        match *self {
            EngineError::EmptyPath => Fault::EmptyPath,
            EngineError::UnsafePath { path } => Fault::UnsafePath { path: path@ },
            EngineError::BehindLink { path } => Fault::BehindLink { path: path@ },
            EngineError::ContentMissing { path, hash } => Fault::ContentMissing {
                path: path@,
                hash: hash@,
            },
            EngineError::ConflictContentMissing { path } => Fault::ConflictContentMissing {
                path: path@,
            },
            EngineError::NotInStore { hash } => Fault::NotInStore { hash: hash@ },
        }
    }
}

/// One step of applying a record. If a step fails, the ones behind it do not happen.
#[derive(Debug, PartialEq, Eq)]
pub enum Step {
    /// Write the stored content `hash` to `dest`, atomically, with the directories it needs: as a
    /// regular file with the permission bits `mode` or, for a link, as a symbolic link whose
    /// target is the content.
    Materialize { hash: String, dest: String, mode: u32, link: bool },
    /// Remove the file at `path` if there is one; that it cannot be removed is no failure.
    Remove { path: String },
    /// Store the row.
    Upsert(FileRecord),
}

/// What a [`Step`] says.
pub enum Act {
    Materialize { hash: Seq<char>, dest: Seq<char>, mode: u32, link: bool },
    Remove { path: Seq<char> },
    Upsert(Record),
}

impl View for Step {
    type V = Act;

    open spec fn view(&self) -> Act {
        match *self {
            Step::Materialize { hash, dest, mode, link } => Act::Materialize {
                hash: hash@,
                dest: dest@,
                mode,
                link,
            },
            Step::Remove { path } => Act::Remove { path: path@ },
            Step::Upsert(rec) => Act::Upsert(rec@),
        }
    }
}

/// What each of a list of steps says.
pub open spec fn acts_of(steps: Seq<Step>) -> Seq<Act> {
    Seq::new(steps.len(), |i: int| steps[i]@)
}

/// A record that was dealt with.
#[derive(Debug)]
pub struct Plan {
    pub outcome: ApplyOutcome,
    pub steps: Vec<Step>,
}

/// A record that could not be dealt with, and the steps that come before the failure.
#[derive(Debug)]
pub struct Failure {
    pub error: EngineError,
    pub steps: Vec<Step>,
}

// ---- model ---------------------------------------------------------------------------------
/// What an engine holds.
#[verifier::ext_equal]
pub struct State {
    pub root: Seq<char>,
    pub conflicts_dir: Seq<char>,
    pub device_id: Seq<char>,
    pub rows: Rows,
    pub blobs_dir: Seq<char>,
    pub shelves: Shelves,
}

/// A path relative to the synced root, forward-slashed; one outside of it stays whole.
pub open spec fn relative(root: Seq<char>, abs: Seq<char>) -> Seq<char> {
    replaced(
        match stripped(abs, root) {
            Some(rel) => rel,
            None => abs,
        },
        '\\',
        '/',
    )
}

/// The clock of a path; one that was never seen has an empty clock.
pub open spec fn clock_at(rows: Rows, path: Seq<char>) -> Counters {
    if rows.contains_key(path) {
        rows[path].vclock
    } else {
        Map::empty()
    }
}

/// What was found at a path.
#[derive(Debug, PartialEq, Eq)]
pub enum Found {
    /// A regular file: its content, its size as the system gives it, and its permission bits.
    File { bytes: Vec<u8>, size: u64, mode: u32 },
    /// A symbolic link: its target. What the target holds is not looked at.
    Link { target: Vec<u8> },
}

/// One version of a file, as a row records it.
pub struct Version {
    pub hash: Seq<char>,
    pub size: u64,
    pub mode: u32,
    pub link: bool,
}

/// The content of what was found: a file's bytes, a link's target.
pub open spec fn found_content(found: Found) -> Seq<u8> {
    match found {
        Found::File { bytes, size: _, mode: _ } => bytes@,
        Found::Link { target } => target@,
    }
}

/// The version that was found.
pub open spec fn found_version(found: Found) -> Version {
    let hash = blake3_hex(found_content(found));
    match found {
        Found::File { bytes: _, size, mode } => Version { hash, size, mode, link: false },
        Found::Link { target } => Version {
            hash,
            size: target@.len() as u64,
            mode: 0,
            link: true,
        },
    }
}

/// The path's row has other content or other permission bits, is of another kind, or there is
/// none.
pub open spec fn is_change(rows: Rows, path: Seq<char>, v: Version) -> bool {
    ||| !rows.contains_key(path)
    ||| rows[path].hash != v.hash
    ||| rows[path].mode != v.mode
    ||| rows[path].link != v.link
}

/// The rows after that version was seen at a path.
pub open spec fn observed(
    rows: Rows,
    device: Seq<char>,
    path: Seq<char>,
    v: Version,
    now: i64,
) -> Rows {
    if is_change(rows, path, v) {
        rows.insert(
            path,
            Record {
                path,
                hash: v.hash,
                size: v.size,
                mode: v.mode,
                link: v.link,
                vclock: bumped(clock_at(rows, path), device),
                updated_ms: now,
                deleted: false,
            },
        )
    } else {
        rows
    }
}

/// Two records name the same version: the same content, permission bits and kind.
pub open spec fn same_version(a: Record, b: Record) -> bool {
    a.hash == b.hash && a.mode == b.mode && a.link == b.link
}

/// There is a file on record at the path.
pub open spec fn is_live(rows: Rows, path: Seq<char>) -> bool {
    rows.contains_key(path) && !rows[path].deleted
}

/// A row that says that the file was deleted.
pub open spec fn tombstone(path: Seq<char>, vclock: Counters, now: i64) -> Record {
    Record {
        path,
        hash: Seq::empty(),
        size: 0,
        mode: 0,
        link: false,
        vclock,
        updated_ms: now,
        deleted: true,
    }
}

/// What a peer's record means, from the vector clocks alone.
pub open spec fn action(rows: Rows, remote: Record) -> SyncAction {
    if !rows.contains_key(remote.path) {
        SyncAction::Fetch
    } else if same_version(rows[remote.path], remote) {
        SyncAction::Skip
    } else {
        match causality(remote.vclock, rows[remote.path].vclock) {
            Causality::After => SyncAction::Fetch,
            Causality::Before => SyncAction::Skip,
            Causality::Equal => SyncAction::Skip,
            Causality::Concurrent => SyncAction::Conflict,
        }
    }
}

/// The peer's clock, with the local clock of the path merged in.
pub open spec fn both_clocks(rows: Rows, remote: Record) -> Counters {
    if rows.contains_key(remote.path) {
        crate::vclock::joined(remote.vclock, rows[remote.path].vclock)
    } else {
        remote.vclock
    }
}

/// The row that a record leaves when it supersedes the local one.
pub open spec fn adopted(rows: Rows, remote: Record, now: i64) -> Record {
    if remote.deleted {
        tombstone(remote.path, both_clocks(rows, remote), now)
    } else {
        Record { vclock: both_clocks(rows, remote), updated_ms: now, ..remote }
    }
}

/// What came of a record: the steps, and the outcome or what stopped them.
pub struct Dealt {
    pub acts: Seq<Act>,
    pub result: Result<Outcome, Fault>,
}

/// The step that writes a record's version out.
pub open spec fn written(r: Record, dest: Seq<char>) -> Act {
    Act::Materialize { hash: r.hash, dest, mode: r.mode, link: r.link }
}

/// A record that supersedes the local one: delete, or materialize from the store. A file that
/// would be deleted through a link is not there: only the row is written.
pub open spec fn superseding(st: State, remote: Record, now: i64) -> Dealt {
    let abs = crate::paths::joined(st.root, remote.path);
    let row = adopted(st.rows, remote, now);
    if remote.deleted && is_behind_link(st.rows, remote.path) {
        Dealt { acts: seq![Act::Upsert(row)], result: Ok(Outcome::Applied) }
    } else if remote.deleted {
        Dealt {
            acts: seq![Act::Remove { path: abs }, Act::Upsert(row)],
            result: Ok(Outcome::Applied),
        }
    } else if !holds(st.shelves, remote.hash) {
        Dealt {
            acts: Seq::empty(),
            result: Err(Fault::ContentMissing { path: remote.path, hash: remote.hash }),
        }
    } else {
        Dealt {
            acts: seq![written(remote, abs), Act::Upsert(row)],
            result: Ok(Outcome::Applied),
        }
    }
}

/// The local row with the clocks of both sides.
pub open spec fn absorbed(rows: Rows, remote: Record, now: i64) -> Record {
    Record { vclock: both_clocks(rows, remote), updated_ms: now, ..rows[remote.path] }
}

/// The order of versions: by hash; of the same content, a regular file before a link, then by
/// permission bits.
pub open spec fn is_below(a: Record, b: Record) -> bool {
    ||| before(a.hash, b.hash)
    ||| a.hash == b.hash && !a.link && b.link
    ||| a.hash == b.hash && a.link == b.link && a.mode < b.mode
}

/// The side whose version takes the path when both edited it: the greater one.
pub open spec fn winner(local: Record, remote: Record) -> Record {
    if is_below(local, remote) {
        remote
    } else {
        local
    }
}

/// The other side.
pub open spec fn loser(local: Record, remote: Record) -> Record {
    if is_below(local, remote) {
        local
    } else {
        remote
    }
}

/// Two edits of one path: the winner takes it, the loser is kept beside the tree.
pub open spec fn both_kept(st: State, remote: Record, now: i64) -> Dealt {
    let local = st.rows[remote.path];
    let won = winner(local, remote);
    let lost = loser(local, remote);
    let abs = crate::paths::joined(st.root, remote.path);
    let copy = crate::paths::joined(st.conflicts_dir, remote.path);
    let row = Record {
        path: remote.path,
        hash: won.hash,
        size: won.size,
        mode: won.mode,
        link: won.link,
        vclock: both_clocks(st.rows, remote),
        updated_ms: now,
        deleted: false,
    };
    let settled = seq![written(won, abs), Act::Upsert(row)];
    if !holds(st.shelves, remote.hash) {
        Dealt {
            acts: Seq::empty(),
            result: Err(Fault::ConflictContentMissing { path: remote.path }),
        }
    } else if !holds(st.shelves, won.hash) {
        Dealt { acts: Seq::empty(), result: Err(Fault::NotInStore { hash: won.hash }) }
    } else if !holds(st.shelves, lost.hash) {
        Dealt { acts: settled, result: Err(Fault::NotInStore { hash: lost.hash }) }
    } else {
        Dealt {
            acts: settled.push(written(lost, copy)),
            result: Ok(Outcome::Conflicted { copy }),
        }
    }
}

/// A concurrent change. Delete-vs-edit: the edit wins. Edit-vs-edit: both are kept.
pub open spec fn resolved(st: State, remote: Record, now: i64) -> Dealt {
    if !st.rows.contains_key(remote.path) {
        superseding(st, remote, now)
    } else {
        let local = st.rows[remote.path];
        if local.deleted && !remote.deleted {
            superseding(st, remote, now)
        } else if !local.deleted && !remote.deleted {
            both_kept(st, remote, now)
        } else {
            Dealt {
                acts: seq![Act::Upsert(absorbed(st.rows, remote, now))],
                result: Ok(
                    if local.deleted {
                        Outcome::Skipped
                    } else {
                        Outcome::ConflictKeptLocal
                    },
                ),
            }
        }
    }
}

/// What a path from a peer is refused for.
pub open spec fn refusal(path: Seq<char>) -> Option<Fault> {
    if path.len() == 0 {
        Some(Fault::EmptyPath)
    } else if !is_safe(path) {
        Some(Fault::UnsafePath { path })
    } else {
        None
    }
}

/// The path stays in the tree, and leads through no link that is on record.
pub open spec fn is_admitted(rows: Rows, path: Seq<char>) -> bool {
    is_safe(path) && !is_behind_link(rows, path)
}

/// The record names content at a path that leads through a link that is on record.
pub open spec fn is_blocked(rows: Rows, remote: Record) -> bool {
    is_safe(remote.path) && !remote.deleted && is_behind_link(rows, remote.path)
}

/// What comes of a peer's record.
pub open spec fn incoming(st: State, remote: Record, now: i64) -> Dealt {
    match refusal(remote.path) {
        Some(fault) => Dealt { acts: Seq::empty(), result: Err(fault) },
        None => if !remote.deleted && is_behind_link(st.rows, remote.path) {
            Dealt {
                acts: Seq::empty(),
                result: Err(Fault::BehindLink { path: remote.path }),
            }
        } else {
            match action(st.rows, remote) {
                SyncAction::Skip => Dealt { acts: Seq::empty(), result: Ok(Outcome::Skipped) },
                SyncAction::Fetch => superseding(st, remote, now),
                SyncAction::Conflict => resolved(st, remote, now),
            }
        },
    }
}

/// The rows after the steps.
pub open spec fn rows_after(rows: Rows, acts: Seq<Act>) -> Rows
    decreases acts.len(),
{
    if acts.len() == 0 {
        rows
    } else {
        let earlier = rows_after(rows, acts.drop_last());
        match acts.last() {
            Act::Upsert(row) => earlier.insert(row.path, row),
            _ => earlier,
        }
    }
}

/// The engine after the steps.
pub open spec fn state_after(st: State, acts: Seq<Act>) -> State {
    State { rows: rows_after(st.rows, acts), ..st }
}

/// The engine's answer is the one described.
pub open spec fn answers(r: Result<Plan, Failure>, dealt: Dealt) -> bool {
    match r {
        Ok(plan) => acts_of(plan.steps@) == dealt.acts && (dealt.result matches Ok(outcome)
            && plan.outcome@ == outcome),
        Err(failure) => acts_of(failure.steps@) == dealt.acts && (dealt.result matches Err(fault)
            && failure.error@ == fault),
    }
}

pub(crate) proof fn rows_after_one(rows: Rows, a: Act)
    ensures
        rows_after(rows, seq![a]) == match a {
            Act::Upsert(row) => rows.insert(row.path, row),
            _ => rows,
        },
{
    assert(seq![a].drop_last().len() == 0);
    assert(rows_after(rows, seq![a].drop_last()) == rows);
}

proof fn rows_after_two(rows: Rows, a: Act, row: Record)
    requires
        !(a is Upsert),
    ensures
        rows_after(rows, seq![a, Act::Upsert(row)]) == rows.insert(row.path, row),
{
    assert(seq![a, Act::Upsert(row)].drop_last() =~= seq![a]);
    rows_after_one(rows, a);
}

proof fn rows_after_more(rows: Rows, acts: Seq<Act>, a: Act)
    requires
        !(a is Upsert),
    ensures
        rows_after(rows, acts.push(a)) == rows_after(rows, acts),
{
    assert(acts.push(a).drop_last() =~= acts);
}

// ---- the engine ----------------------------------------------------------------------------
/// The local state of one synced tree.
#[derive(Debug)]
pub struct Engine {
    /// Synced tree root; index paths are stored relative to it.
    root: String,
    /// Where losing versions of conflicts are preserved (`<state>/conflicts`), mirroring the
    /// file's own path. Outside the synced tree, so they don't clutter it or propagate.
    conflicts_dir: String,
    store: BlobStore,
    index: Index,
    device_id: String,
}

impl View for Engine {
    type V = State;

    closed spec fn view(&self) -> State {
        State {
            root: self.root@,
            conflicts_dir: self.conflicts_dir@,
            device_id: self.device_id@,
            rows: self.index@,
            blobs_dir: self.store.root(),
            shelves: self.store@,
        }
    }
}

impl Engine {
    /// The engine of the tree `root` whose durable state is kept under `state_dir`: `rows` and
    /// `device` are what the index has stored, `fresh` is the identity that this device takes if
    /// it has none yet. The blob store starts out with nothing read in.
    pub fn open(
        root: &str,
        state_dir: &str,
        rows: &Vec<FileRecord>,
        device: Option<String>,
        fresh: String,
    ) -> (r: Engine)
        ensures
            r@ == (State {
                root: root@,
                conflicts_dir: crate::paths::joined(state_dir@, "conflicts"@),
                device_id: match device {
                    Some(d) => d@,
                    None => fresh@,
                },
                rows: crate::index::gathered(records_of(rows@)),
                blobs_dir: crate::paths::joined(state_dir@, "blobs"@),
                shelves: Shelves { objects: Map::empty(), manifests: Map::empty() },
            }),
    {
        let blobs = join(state_dir, "blobs");
        let store = BlobStore::open(blobs.as_str());
        let mut index = Index::open(rows, device);
        let device_id = index.device_id(fresh);
        Engine {
            root: root.to_owned(),
            conflicts_dir: join(state_dir, "conflicts"),
            store,
            index,
            device_id,
        }
    }

    /// The identity of this device.
    pub fn device_id(&self) -> (id: &str)
        ensures
            id@ == self@.device_id,
    {
        self.device_id.as_str()
    }

    /// The index.
    pub fn index(&self) -> (r: &Index)
        ensures
            r@ == self@.rows,
    {
        &self.index
    }

    /// The content store.
    pub fn store(&self) -> (r: &BlobStore)
        ensures
            r@ == self@.shelves,
            r.root() == self@.blobs_dir,
    {
        &self.store
    }

    /// The content store, to put content in.
    pub fn store_mut(&mut self) -> (r: &mut BlobStore)
        ensures
            r@ == old(self)@.shelves,
            r.root() == old(self)@.blobs_dir,
            final(self)@ == (State {
                shelves: final(r)@,
                blobs_dir: final(r).root(),
                ..old(self)@
            }),
    {
        &mut self.store
    }

    /// Path relative to the synced root, forward-slashed for cross-system stability.
    pub fn rel(&self, abs: &str) -> (r: String)
        ensures
            r@ == relative(self@.root, abs@),
    {
        match strip_prefix(abs, self.root.as_str()) {
            Some(rel) => replace(rel.as_str(), '\\', '/'),
            None => replace(abs, '\\', '/'),
        }
    }

    /// Store what was found at a path and update its index entry: a change of the content, of the
    /// permission bits or of the kind counts. Idempotent for what is unchanged.
    ///
    /// The counter of this device in the path's clock must have room for one more, unless nothing
    /// changed.
    pub fn observe(&mut self, abs_path: &str, found: &Found, now: i64) -> (r: Observation)
        requires
            ({
                let path = relative(old(self)@.root, abs_path@);
                let rows = old(self)@.rows;
                is_change(rows, path, found_version(*found)) ==> count(
                    clock_at(rows, path),
                    old(self)@.device_id,
                ) < u64::MAX
            }),
        ensures
            ({
                let v = found_version(*found);
                let bytes = found_content(*found);
                &&& r.path@ == relative(old(self)@.root, abs_path@)
                &&& r.hash@ == v.hash
                &&& is_digest(r.hash@)
                &&& r.size == v.size
                &&& r.changed == is_change(old(self)@.rows, r.path@, v)
                &&& match *found {
                    Found::File { bytes, size, mode } => {
                        &&& r.hash@ == blake3_hex(bytes@)
                        &&& r.size == size
                        &&& r.changed == !(old(self)@.rows.contains_key(r.path@)
                            && old(self)@.rows[r.path@].hash == blake3_hex(bytes@)
                            && old(self)@.rows[r.path@].mode == mode
                            && !old(self)@.rows[r.path@].link)
                        &&& final(self)@.rows[r.path@].mode == mode
                        &&& !final(self)@.rows[r.path@].link
                    },
                    Found::Link { target } => {
                        &&& r.hash@ == blake3_hex(target@)
                        &&& r.size == target@.len()
                        &&& r.changed == !(old(self)@.rows.contains_key(r.path@)
                            && old(self)@.rows[r.path@].hash == blake3_hex(target@)
                            && old(self)@.rows[r.path@].mode == 0
                            && old(self)@.rows[r.path@].link)
                        &&& final(self)@.rows[r.path@].mode == 0
                        &&& final(self)@.rows[r.path@].link
                    },
                }
                &&& final(self)@.rows.contains_key(r.path@)
                &&& final(self)@.rows[r.path@].hash == r.hash@
                &&& r.changed ==> final(self)@.rows[r.path@].size == r.size
                    && final(self)@.rows[r.path@].updated_ms == now
                    && !final(self)@.rows[r.path@].deleted
                &&& final(self)@ == (State {
                    rows: observed(old(self)@.rows, old(self)@.device_id, r.path@, v, now),
                    shelves: stored(old(self)@.shelves, bytes),
                    ..old(self)@
                })
                &&& !old(self)@.shelves.manifests.contains_key(v.hash) ==> holds(
                    final(self)@.shelves,
                    v.hash,
                )
                &&& comes_back(old(self)@.shelves, bytes) ==> content(
                    final(self)@.shelves,
                    v.hash,
                ) == Some(bytes)
            }),
    {
        let ghost was = self@;
        let ghost v = found_version(*found);
        let rel = self.rel(abs_path);
        let (hash, size, mode, link) = match found {
            Found::File { bytes, size, mode } => (
                self.store.put_bytes(bytes.as_slice()),
                *size,
                *mode,
                false,
            ),
            Found::Link { target } => (
                self.store.put_bytes(target.as_slice()),
                target.len() as u64,
                0u32,
                true,
            ),
        };
        let prev = self.index.get(rel.as_str());
        let changed = match &prev {
            Some(p) => !same(p.hash.as_str(), hash.as_str()) || p.mode != mode || p.link != link,
            None => true,
        };
        if changed {
            let mut vclock = match prev {
                Some(p) => p.vclock,
                None => VClock::new(),
            };
            vclock.increment(self.device_id.as_str());
            let rec = FileRecord {
                path: rel.clone(),
                hash: hash.clone(),
                size,
                mode,
                link,
                vclock,
                updated_ms: now,
                deleted: false,
            };
            self.index.upsert(&rec);
            proof {
                assert(self@.rows =~= observed(was.rows, was.device_id, rel@, v, now));
            }
        }
        Observation { path: rel, hash, size, changed }
    }

    /// As [`Engine::observe`]; `None`, with nothing changed, where this device's counter in the
    /// path's clock has no room for one more.
    pub fn try_observe(&mut self, abs_path: &str, found: &Found, now: i64) -> (r: Option<
        Observation,
    >)
        ensures
            ({
                let path = relative(old(self)@.root, abs_path@);
                let rows = old(self)@.rows;
                let v = found_version(*found);
                let bytes = found_content(*found);
                let full = count(clock_at(rows, path), old(self)@.device_id) == u64::MAX;
                match r {
                    Some(o) => {
                        &&& !is_change(rows, path, v) || !full
                        &&& o.path@ == path
                        &&& o.hash@ == v.hash
                        &&& is_digest(v.hash)
                        &&& o.size == v.size
                        &&& o.changed == is_change(rows, path, v)
                        &&& match *found {
                            Found::File { bytes, size, mode } => {
                                &&& o.hash@ == blake3_hex(bytes@)
                                &&& o.size == size
                                &&& o.changed == !(old(self)@.rows.contains_key(o.path@)
                                    && old(self)@.rows[o.path@].hash == blake3_hex(bytes@)
                                    && old(self)@.rows[o.path@].mode == mode
                                    && !old(self)@.rows[o.path@].link)
                                &&& final(self)@.rows[o.path@].mode == mode
                                &&& !final(self)@.rows[o.path@].link
                            },
                            Found::Link { target } => {
                                &&& o.hash@ == blake3_hex(target@)
                                &&& o.size == target@.len()
                                &&& o.changed == !(old(self)@.rows.contains_key(o.path@)
                                    && old(self)@.rows[o.path@].hash == blake3_hex(target@)
                                    && old(self)@.rows[o.path@].mode == 0
                                    && old(self)@.rows[o.path@].link)
                                &&& final(self)@.rows[o.path@].mode == 0
                                &&& final(self)@.rows[o.path@].link
                            },
                        }
                        &&& final(self)@.rows.contains_key(o.path@)
                        &&& final(self)@.rows[o.path@].hash == o.hash@
                        &&& o.changed ==> final(self)@.rows[o.path@].size == o.size
                            && final(self)@.rows[o.path@].updated_ms == now
                            && !final(self)@.rows[o.path@].deleted
                        &&& final(self)@ == (State {
                            rows: observed(rows, old(self)@.device_id, path, v, now),
                            shelves: stored(old(self)@.shelves, bytes),
                            ..old(self)@
                        })
                        &&& !old(self)@.shelves.manifests.contains_key(v.hash) ==> holds(
                            final(self)@.shelves,
                            v.hash,
                        )
                        &&& comes_back(old(self)@.shelves, bytes) ==> content(
                            final(self)@.shelves,
                            v.hash,
                        ) == Some(bytes)
                    },
                    None => is_change(rows, path, v) && full && final(self)@ == old(self)@,
                }
            }),
    {
        let rel = self.rel(abs_path);
        let prev = self.index.get(rel.as_str());
        if let Some(p) = &prev {
            if p.vclock.get(self.device_id.as_str()) == u64::MAX {
                let (hash, mode, link) = match found {
                    Found::File { bytes, size: _, mode } => (
                        content_hash(bytes.as_slice()),
                        *mode,
                        false,
                    ),
                    Found::Link { target } => (content_hash(target.as_slice()), 0u32, true),
                };
                if !same(p.hash.as_str(), hash.as_str()) || p.mode != mode || p.link != link {
                    return None;
                }
            }
        }
        Some(self.observe(abs_path, found, now))
    }

    /// Snapshot of every indexed file: what is advertised to a peer.
    pub fn local_records(&self) -> (out: Vec<FileRecord>)
        ensures
            crate::index::lists(self@.rows, records_of(out@)),
    {
        self.index.all()
    }

    /// Number of live (not deleted) files.
    pub fn file_count(&self) -> (n: usize)
        ensures
            crate::index::live_paths(self@.rows).finite(),
            n == crate::index::live_paths(self@.rows).len(),
    {
        self.index.count_live()
    }

    /// Decide what to do with a peer's record, purely from vector clocks (no wall-clock).
    pub fn evaluate(&self, remote: &FileRecord) -> (r: SyncAction)
        ensures
            r == action(self@.rows, remote@),
    {
        match self.index.get(remote.path.as_str()) {
            None => SyncAction::Fetch,
            Some(local) => {
                if same(local.hash.as_str(), remote.hash.as_str()) && local.mode == remote.mode
                    && local.link == remote.link {
                    return SyncAction::Skip;
                }
                match remote.vclock.compare(&local.vclock) {
                    Causality::After => SyncAction::Fetch,
                    Causality::Before => SyncAction::Skip,
                    Causality::Equal => SyncAction::Skip,
                    Causality::Concurrent => SyncAction::Conflict,
                }
            },
        }
    }

    /// Record a local deletion as a tombstone (bumping this device's counter) so that it
    /// propagates to peers. Returns the tombstone to push, or `None` if the path wasn't a tracked
    /// live file.
    pub fn observe_delete(&mut self, abs_path: &str, now: i64) -> (r: Option<FileRecord>)
        requires
            ({
                let path = relative(old(self)@.root, abs_path@);
                let rows = old(self)@.rows;
                is_live(rows, path) ==> count(rows[path].vclock, old(self)@.device_id) < u64::MAX
            }),
        ensures
            ({
                let path = relative(old(self)@.root, abs_path@);
                let rows = old(self)@.rows;
                match r {
                    Some(tomb) => {
                        &&& is_live(rows, path)
                        &&& tomb@ == tombstone(
                            path,
                            bumped(rows[path].vclock, old(self)@.device_id),
                            now,
                        )
                        &&& final(self)@ == (State {
                            rows: rows.insert(path, tomb@),
                            ..old(self)@
                        })
                    },
                    None => !is_live(rows, path) && final(self)@ == old(self)@,
                }
            }),
    {
        let ghost was = self@;
        let rel = self.rel(abs_path);
        match self.index.get(rel.as_str()) {
            Some(prev) => {
                if prev.deleted {
                    return None;
                }
                let mut vclock = prev.vclock;
                vclock.increment(self.device_id.as_str());
                let tomb = FileRecord {
                    path: rel,
                    hash: String::new(),
                    size: 0,
                    mode: 0,
                    link: false,
                    vclock,
                    updated_ms: now,
                    deleted: true,
                };
                self.index.upsert(&tomb);
                proof {
                    assert(tomb@.hash =~= Seq::<char>::empty());
                    assert(self@.rows =~= was.rows.insert(tomb@.path, tomb@));
                }
                Some(tomb)
            },
            None => None,
        }
    }

    /// Apply an incoming peer record with full conflict handling. The single entry point for both
    /// pulls and live pushes. For records that are no tombstones, the record's content (manifest
    /// and chunks) must already be in the store: the transport fetches any missing chunks first.
    ///
    /// A peer's path must stay inside the synced tree: absolute paths and `..` are refused before
    /// any of it reaches a file.
    pub fn apply_incoming(&mut self, remote: &FileRecord, now: i64) -> (r: Result<Plan, Failure>)
        ensures
            answers(r, incoming(old(self)@, remote@, now)),
            final(self)@ == state_after(old(self)@, incoming(old(self)@, remote@, now).acts),
    {
        match ensure_safe_rel(remote.path.as_str()) {
            Err(error) => {
                let steps: Vec<Step> = Vec::new();
                proof {
                    assert(acts_of(steps@) =~= Seq::<Act>::empty());
                }
                return Err(Failure { error, steps });
            },
            Ok(()) => {},
        }
        if !remote.deleted && self.index.has_link_above(remote.path.as_str()) {
            let steps: Vec<Step> = Vec::new();
            proof {
                assert(acts_of(steps@) =~= Seq::<Act>::empty());
            }
            let error = EngineError::BehindLink { path: remote.path.clone() };
            return Err(Failure { error, steps });
        }
        match self.evaluate(remote) {
            SyncAction::Skip => {
                let steps: Vec<Step> = Vec::new();
                proof {
                    assert(acts_of(steps@) =~= Seq::<Act>::empty());
                }
                Ok(Plan { outcome: ApplyOutcome::Skipped, steps })
            },
            SyncAction::Fetch => self.apply_remote(remote, now),
            SyncAction::Conflict => self.resolve_conflict(remote, now),
        }
    }

    /// Whether a peer's record names content at a path that leads through a link.
    pub fn is_blocked(&self, remote: &FileRecord) -> (r: bool)
        ensures
            r == is_blocked(self@.rows, remote@),
    {
        match ensure_safe_rel(remote.path.as_str()) {
            Ok(()) => !remote.deleted && self.index.has_link_above(remote.path.as_str()),
            Err(_) => false,
        }
    }

    /// Apply a record that causally supersedes the local one: delete (tombstone) or materialize
    /// from the store, then record the merged clock. The watcher's later `observe` is a no-op
    /// (content-addressed), which suppresses echo loops.
    pub fn apply_remote(&mut self, remote: &FileRecord, now: i64) -> (r: Result<Plan, Failure>)
        ensures
            answers(r, superseding(old(self)@, remote@, now)),
            final(self)@ == state_after(old(self)@, superseding(old(self)@, remote@, now).acts),
    {
        let ghost was = self@;
        let vclock = self.merged_clock(remote);
        let abs = join(self.root.as_str(), remote.path.as_str());
        let mut steps: Vec<Step> = Vec::new();
        if remote.deleted {
            let row = FileRecord {
                path: remote.path.clone(),
                hash: String::new(),
                size: 0,
                mode: 0,
                link: false,
                vclock,
                updated_ms: now,
                deleted: true,
            };
            let there = !self.index.has_link_above(remote.path.as_str());
            self.index.upsert(&row);
            proof {
                assert(row@.hash =~= Seq::<char>::empty());
                rows_after_two(was.rows, Act::Remove { path: abs@ }, row@);
                rows_after_one(was.rows, Act::Upsert(row@));
            }
            if there {
                steps.push(Step::Remove { path: abs });
            }
            steps.push(Step::Upsert(row));
            proof {
                assert(acts_of(steps@) =~= superseding(was, remote@, now).acts);
            }
            return Ok(Plan { outcome: ApplyOutcome::Applied, steps });
        }
        if !self.store.has(remote.hash.as_str()) {
            proof {
                assert(acts_of(steps@) =~= Seq::<Act>::empty());
            }
            return Err(
                Failure {
                    error: EngineError::ContentMissing {
                        path: remote.path.clone(),
                        hash: remote.hash.clone(),
                    },
                    steps,
                },
            );
        }
        let row = FileRecord {
            path: remote.path.clone(),
            hash: remote.hash.clone(),
            size: remote.size,
            mode: remote.mode,
            link: remote.link,
            vclock,
            updated_ms: now,
            deleted: false,
        };
        self.index.upsert(&row);
        proof {
            rows_after_two(was.rows, written(remote@, abs@), row@);
        }
        steps.push(
            Step::Materialize {
                hash: remote.hash.clone(),
                dest: abs,
                mode: remote.mode,
                link: remote.link,
            },
        );
        steps.push(Step::Upsert(row));
        proof {
            assert(acts_of(steps@) =~= superseding(was, remote@, now).acts);
        }
        Ok(Plan { outcome: ApplyOutcome::Applied, steps })
    }

    /// The peer's clock, with the local clock of the path merged in.
    fn merged_clock(&self, remote: &FileRecord) -> (r: VClock)
        ensures
            r@ == both_clocks(self@.rows, remote@),
    {
        let mut vclock = remote.vclock.clone();
        if let Some(local) = self.index.get(remote.path.as_str()) {
            vclock.merge(&local.vclock);
        }
        vclock
    }

    /// Resolve a concurrent change. Delete-vs-edit: the edit wins (no data lost). Edit-vs-edit:
    /// keep both; one content wins the path (deterministically, by greater hash), the other is
    /// preserved under `<state>/conflicts/<path>`. Both peers compute the same outcome, so they
    /// converge without duplicating. Both versions' content must already be in the store.
    pub fn resolve_conflict(&mut self, remote: &FileRecord, now: i64) -> (r: Result<Plan, Failure>)
        ensures
            answers(r, resolved(old(self)@, remote@, now)),
            final(self)@ == state_after(old(self)@, resolved(old(self)@, remote@, now).acts),
    {
        let ghost was = self@;
        let local = match self.index.get(remote.path.as_str()) {
            Some(l) => l,
            None => {
                return self.apply_remote(remote, now);
            },
        };
        let merged = self.merged_clock(remote);
        if local.deleted && !remote.deleted {
            // Their edit resurrects the file over the local delete.
            return self.apply_remote(remote, now);
        }
        if !local.deleted && !remote.deleted {
            return self.keep_both(local, merged, remote, now);
        }
        // A delete against an edit, or two deletes: the local row stays, and absorbs their clock
        // so that it stops conflicting.
        let outcome = if local.deleted {
            ApplyOutcome::Skipped
        } else {
            ApplyOutcome::ConflictKeptLocal
        };
        let row = FileRecord { vclock: merged, updated_ms: now, ..local };
        self.index.upsert(&row);
        proof {
            rows_after_one(was.rows, Act::Upsert(row@));
        }
        let mut steps: Vec<Step> = Vec::new();
        steps.push(Step::Upsert(row));
        proof {
            assert(acts_of(steps@) =~= resolved(was, remote@, now).acts);
        }
        Ok(Plan { outcome, steps })
    }

    /// Two edits of one path: the winner takes it with the merged clock, the loser goes to
    /// `<state>/conflicts/<path>` (not indexed), preserving folder structure and name.
    fn keep_both(&mut self, local: FileRecord, merged: VClock, remote: &FileRecord, now: i64) -> (r:
        Result<Plan, Failure>)
        requires
            old(self)@.rows.contains_key(remote@.path),
            old(self)@.rows[remote@.path] == local@,
            merged@ == both_clocks(old(self)@.rows, remote@),
        ensures
            answers(r, both_kept(old(self)@, remote@, now)),
            final(self)@ == state_after(old(self)@, both_kept(old(self)@, remote@, now).acts),
    {
        let ghost was = self@;
        let ghost dealt = both_kept(was, remote@, now);
        let mut steps: Vec<Step> = Vec::new();
        proof {
            assert(acts_of(steps@) =~= Seq::<Act>::empty());
        }
        if !self.store.has(remote.hash.as_str()) {
            return Err(
                Failure {
                    error: EngineError::ConflictContentMissing { path: remote.path.clone() },
                    steps,
                },
            );
        }
        proof {
            crate::text::before_irreflexive(local@.hash);
        }
        let ghost won = winner(local@, remote@);
        let ghost lost = loser(local@, remote@);
        let remote_wins = match rank(local.hash.as_str(), remote.hash.as_str()) {
            Rank::Below => true,
            Rank::Same => if local.link == remote.link {
                local.mode < remote.mode
            } else {
                remote.link
            },
            Rank::Above => false,
        };
        let (won_hash, won_size, won_mode, won_link, lost_hash, lost_mode, lost_link) =
            if remote_wins {
            (
                remote.hash.clone(),
                remote.size,
                remote.mode,
                remote.link,
                local.hash,
                local.mode,
                local.link,
            )
        } else {
            (
                local.hash,
                local.size,
                local.mode,
                local.link,
                remote.hash.clone(),
                remote.mode,
                remote.link,
            )
        };
        if !self.store.has(won_hash.as_str()) {
            return Err(Failure { error: EngineError::NotInStore { hash: won_hash }, steps });
        }
        let row = FileRecord {
            path: remote.path.clone(),
            hash: won_hash.clone(),
            size: won_size,
            mode: won_mode,
            link: won_link,
            vclock: merged,
            updated_ms: now,
            deleted: false,
        };
        self.index.upsert(&row);
        let abs = join(self.root.as_str(), remote.path.as_str());
        let ghost settled = seq![written(won, abs@), Act::Upsert(row@)];
        proof {
            rows_after_two(was.rows, written(won, abs@), row@);
        }
        steps.push(
            Step::Materialize { hash: won_hash, dest: abs, mode: won_mode, link: won_link },
        );
        steps.push(Step::Upsert(row));
        proof {
            assert(acts_of(steps@) =~= settled);
        }
        if !self.store.has(lost_hash.as_str()) {
            return Err(Failure { error: EngineError::NotInStore { hash: lost_hash }, steps });
        }
        let copy = join(self.conflicts_dir.as_str(), remote.path.as_str());
        proof {
            rows_after_more(was.rows, settled, written(lost, copy@));
        }
        steps.push(
            Step::Materialize {
                hash: lost_hash,
                dest: copy.clone(),
                mode: lost_mode,
                link: lost_link,
            },
        );
        proof {
            assert(dealt.acts =~= settled.push(written(lost, copy@)));
            assert(acts_of(steps@) =~= dealt.acts);
        }
        Ok(Plan { outcome: ApplyOutcome::Conflicted { copy }, steps })
    }
}

/// Reject a peer-supplied relative path that would escape the synced root: absolute paths and
/// `..` traversal. Only plain path segments (and `.`) are allowed.
pub fn ensure_safe_rel(rel: &str) -> (r: Result<(), EngineError>)
    ensures
        match r {
            Ok(_) => refusal(rel@) is None,
            Err(e) => refusal(rel@) == Some(e@),
        },
{
    if rel.is_empty() {
        return Err(EngineError::EmptyPath);
    }
    if !safe(rel) {
        return Err(EngineError::UnsafePath { path: rel.to_owned() });
    }
    Ok(())
}

/// The time that rows are stamped with: the milliseconds since the epoch, or zero if the system's
/// clock stands before it.
pub fn now_ms(since_epoch: Option<u128>) -> (r: i64)
    ensures
        match since_epoch {
            Some(ms) => r == ms as i64 && (ms <= i64::MAX ==> r == ms),
            None => r == 0,
        },
{
    match since_epoch {
        Some(ms) => ms as i64,
        None => 0,
    }
}

// ---- laws ----------------------------------------------------------------------------------
/// A peer's path is accepted exactly if it is not empty, does not begin with a slash and has no
/// segment that is `..`; an empty one and any other are told apart.
pub proof fn refusal_is_by_segments(path: Seq<char>)
    ensures
        refusal(path) is None <==> (path.len() > 0 && path[0] != '/' && !exists|i: int|
            #![trigger path[i]]
            0 <= i < path.len() - 1 && path[i] == '.' && path[i + 1] == '.' && (i == 0 || path[i
                - 1] == '/') && (i + 2 == path.len() || path[i + 2] == '/')),
        path.len() == 0 ==> refusal(path) == Some(Fault::EmptyPath),
        path.len() > 0 && refusal(path) is Some ==> refusal(path) == Some(
            Fault::UnsafePath { path },
        ),
{
    crate::paths::safe_is_by_segments(path);
}

/// A file below the root is recorded under its path from there, a backslash in it as a slash; one
/// elsewhere under its whole path.
pub proof fn files_are_recorded_from_the_root(root: Seq<char>, rel: Seq<char>, i: int)
    requires
        root.len() > 0,
        root.last() != '/',
        rel.len() > 0,
        rel[0] != '/',
        rel.last() != '/',
        !(rel[0] == '.' && (rel.len() == 1 || rel[1] == '/')),
        !(rel.last() == '.' && rel.len() > 1 && rel[rel.len() - 2] == '/'),
        0 <= i < rel.len(),
    ensures
        relative(root, root + seq!['/'] + rel).len() == rel.len(),
        relative(root, root + seq!['/'] + rel)[i] == (if rel[i] == '\\' {
            '/'
        } else {
            rel[i]
        }),
{
    crate::paths::stripping_gives_the_rest(root, rel);
}

/// What was found at a path is what its row says afterwards: the digest of a file's bytes and its
/// permission bits, or the digest of a link's target. It is a change where the row had another
/// digest, other bits or another kind, or there was none, and a change moves this device's counter
/// by one. No other row changes.
pub proof fn row_says_what_was_found(
    rows: Rows,
    device: Seq<char>,
    path: Seq<char>,
    found: Found,
    now: i64,
    other: Seq<char>,
)
    requires
        rows.contains_key(path) && rows[path].vclock.contains_key(device)
            ==> rows[path].vclock[device] < u64::MAX,
    ensures
        ({
            let after = observed(rows, device, path, found_version(found), now);
            let changed = is_change(rows, path, found_version(found));
            let bytes = match found {
                Found::File { bytes, size: _, mode: _ } => bytes@,
                Found::Link { target } => target@,
            };
            let link = found is Link;
            let mode = match found {
                Found::File { bytes: _, size: _, mode } => mode,
                Found::Link { target: _ } => 0,
            };
            &&& found_content(found) == bytes
            &&& changed <==> !(rows.contains_key(path) && rows[path].hash == blake3_hex(bytes)
                && rows[path].mode == mode && rows[path].link == link)
            &&& after.contains_key(path)
            &&& after[path].hash == blake3_hex(bytes)
            &&& after[path].mode == mode
            &&& after[path].link == link
            &&& changed ==> {
                &&& after[path].path == path
                &&& !after[path].deleted
                &&& after[path].updated_ms == now
                &&& found matches Found::File { bytes: _, size, mode: _ } ==> after[path].size
                    == size
                &&& found is Link ==> after[path].size == bytes.len() as u64
                &&& after[path].vclock.contains_key(device)
                &&& after[path].vclock[device] == (if rows.contains_key(path)
                    && rows[path].vclock.contains_key(device) {
                    rows[path].vclock[device] + 1
                } else {
                    1
                })
            }
            &&& !changed ==> after == rows
            &&& other != path ==> (after.contains_key(other) <==> rows.contains_key(other))
                && after[other] == rows[other]
        }),
{
}

/// What a peer's record means: it is fetched if its path is not on record, or names another
/// version and is causally later; it is skipped if it names the same version or is not later; and
/// it is a conflict if it names another version and neither is later.
pub proof fn meaning_of_a_record(rows: Rows, remote: Record)
    ensures
        ({
            let local = rows[remote.path];
            let same = local.hash == remote.hash && local.mode == remote.mode && local.link
                == remote.link;
            let order = causality(remote.vclock, local.vclock);
            let known = rows.contains_key(remote.path);
            &&& action(rows, remote) == SyncAction::Fetch <==> !known || (!same && order
                == Causality::After)
            &&& action(rows, remote) == SyncAction::Conflict <==> known && !same && order
                == Causality::Concurrent
            &&& action(rows, remote) == SyncAction::Skip <==> known && (same || order
                == Causality::Before || order == Causality::Equal)
        }),
{
}

/// The steps change the rows in order: each row that is written replaces its path's, and nothing
/// else touches a row.
pub proof fn rows_follow_the_steps(rows: Rows, acts: Seq<Act>, act: Act)
    ensures
        rows_after(rows, Seq::<Act>::empty()) == rows,
        act matches Act::Upsert(row) ==> rows_after(rows, acts.push(act)) == rows_after(
            rows,
            acts,
        ).insert(row.path, row),
        !(act is Upsert) ==> rows_after(rows, acts.push(act)) == rows_after(rows, acts),
{
    assert(acts.push(act).drop_last() =~= acts);
}

/// A file that is not below the root is recorded under its whole path, a backslash in it as a
/// slash.
pub proof fn files_elsewhere_keep_their_path(root: Seq<char>, abs: Seq<char>, i: int)
    requires
        stripped(abs, root) is None,
        0 <= i < abs.len(),
    ensures
        relative(root, abs).len() == abs.len(),
        relative(root, abs)[i] == (if abs[i] == '\\' {
            '/'
        } else {
            abs[i]
        }),
{
}

/// A step says where what goes, an outcome and an error what came of a record: each in the fields
/// that it has.
pub proof fn steps_and_results_say_their_fields(
    a: String,
    b: String,
    mode: u32,
    link: bool,
    rec: FileRecord,
)
    ensures
        (Step::Materialize { hash: a, dest: b, mode, link })@ == (Act::Materialize {
            hash: a@,
            dest: b@,
            mode,
            link,
        }),
        (Step::Remove { path: a })@ == (Act::Remove { path: a@ }),
        Step::Upsert(rec)@ == Act::Upsert(rec@),
        ApplyOutcome::Skipped@ is Skipped,
        ApplyOutcome::Applied@ is Applied,
        ApplyOutcome::ConflictKeptLocal@ is ConflictKeptLocal,
        (ApplyOutcome::Conflicted { copy: a })@ == (Outcome::Conflicted { copy: a@ }),
        EngineError::EmptyPath@ is EmptyPath,
        (EngineError::UnsafePath { path: a })@ == (Fault::UnsafePath { path: a@ }),
        (EngineError::BehindLink { path: a })@ == (Fault::BehindLink { path: a@ }),
        (EngineError::ContentMissing { path: a, hash: b })@ == (Fault::ContentMissing {
            path: a@,
            hash: b@,
        }),
        (EngineError::ConflictContentMissing { path: a })@ == (Fault::ConflictContentMissing {
            path: a@,
        }),
        (EngineError::NotInStore { hash: a })@ == (Fault::NotInStore { hash: a@ }),
{
}

/// Two edits of one path need the content of both: where the peer's is missing, or that of the
/// side that takes the path, nothing happens; where only the other is missing, the path is taken
/// before the error is given.
pub proof fn missing_content_stops_a_conflict(st: State, remote: Record, now: i64)
    requires
        is_admitted(st.rows, remote.path),
        is_live(st.rows, remote.path),
        !remote.deleted,
        action(st.rows, remote) is Conflict,
    ensures
        ({
            let local = st.rows[remote.path];
            let d = incoming(st, remote, now);
            let theirs = holds(st.shelves, remote.hash);
            let ours = holds(st.shelves, local.hash);
            &&& !theirs ==> d.acts.len() == 0 && d.result == Err::<Outcome, Fault>(
                Fault::ConflictContentMissing { path: remote.path },
            )
            &&& theirs && !ours ==> d.result == Err::<Outcome, Fault>(
                Fault::NotInStore { hash: local.hash },
            )
            &&& theirs && !ours && is_below(remote, local) ==> d.acts.len() == 0
            &&& theirs && !ours && is_below(local, remote) ==> d.acts.len() == 2 && d.acts[0] == (
            Act::Materialize {
                hash: remote.hash,
                dest: crate::paths::joined(st.root, remote.path),
                mode: remote.mode,
                link: remote.link,
            }) && (d.acts[1] matches Act::Upsert(row) && row.path == remote.path && row.hash
                == remote.hash)
            &&& theirs && ours ==> d.result is Ok
        }),
{
    crate::text::rank_is_by_the_order(st.rows[remote.path].hash, remote.hash);
}

} // verus!
