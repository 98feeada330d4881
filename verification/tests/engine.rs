use codrop::engine::{now_ms, EngineError, Found, Plan, Step};
use codrop::paths::join;
use codrop::store::StoreError;
use codrop::{ApplyOutcome, Causality, Engine, FileRecord, SyncAction, VClock};
use std::collections::BTreeMap;

/// A regular file as it is found.
fn file(bytes: &[u8], mode: u32) -> Found {
    Found::File { bytes: bytes.to_vec(), size: bytes.len() as u64, mode }
}

/// One device: its engine, and the files and links of its tree and its state directory, by path.
struct Side {
    engine: Engine,
    root: String,
    files: BTreeMap<String, Vec<u8>>,
    modes: BTreeMap<String, u32>,
    links: BTreeMap<String, Vec<u8>>,
    now: i64,
}

impl Side {
    fn open(root: &str, state: &str, device: &str) -> Side {
        let engine = Engine::open(root, state, &Vec::new(), None, device.to_string());
        Side {
            engine,
            root: root.to_string(),
            files: BTreeMap::new(),
            modes: BTreeMap::new(),
            links: BTreeMap::new(),
            now: 1000,
        }
    }

    fn named(name: &str) -> Side {
        let root = format!("/tmp/{name}");
        let state = format!("/tmp/{name}/.codrop");
        Side::open(&root, &state, &format!("device-{name}"))
    }

    fn abs(&self, rel: &str) -> String {
        join(&self.root, rel)
    }

    fn write(&mut self, rel: &str, bytes: &[u8]) {
        let abs = self.abs(rel);
        self.files.insert(abs, bytes.to_vec());
    }

    fn remove(&mut self, rel: &str) {
        let abs = self.abs(rel);
        self.files.remove(&abs);
    }

    fn read(&self, rel: &str) -> Option<Vec<u8>> {
        self.files.get(&self.abs(rel)).cloned()
    }

    fn observe(&mut self, rel: &str) -> codrop::Observation {
        let abs = self.abs(rel);
        self.now += 1;
        let found = match self.links.get(&abs) {
            Some(target) => Found::Link { target: target.clone() },
            None => {
                let mode = *self.modes.get(&abs).unwrap_or(&0o644);
                file(self.files.get(&abs).unwrap(), mode)
            }
        };
        self.engine.try_observe(&abs, &found, self.now).unwrap()
    }

    fn observe_delete(&mut self, rel: &str) -> Option<FileRecord> {
        let abs = self.abs(rel);
        self.now += 1;
        self.engine.observe_delete(&abs, self.now)
    }

    /// Index a freshly-written file and return its record and content for handing to a peer.
    fn record_of(&mut self, rel: &str) -> (FileRecord, Vec<u8>) {
        let obs = self.observe(rel);
        let rec = self.engine.index().get(&obs.path).unwrap();
        let bytes = self.engine.store().read(&obs.hash).unwrap();
        (rec, bytes)
    }

    fn perform(&mut self, steps: &Vec<Step>) {
        for step in steps {
            match step {
                Step::Materialize { hash, dest, mode, link } => {
                    let bytes = self.engine.store().materialize(hash).unwrap();
                    self.files.remove(dest);
                    self.modes.remove(dest);
                    self.links.remove(dest);
                    if *link {
                        self.links.insert(dest.clone(), bytes);
                    } else {
                        self.files.insert(dest.clone(), bytes);
                        self.modes.insert(dest.clone(), *mode);
                    }
                }
                Step::Remove { path } => {
                    self.files.remove(path);
                    self.modes.remove(path);
                    self.links.remove(path);
                }
                Step::Upsert(_) => {}
            }
        }
    }

    fn apply(&mut self, rec: &FileRecord) -> Result<ApplyOutcome, EngineError> {
        self.now += 1;
        match self.engine.apply_incoming(rec, self.now) {
            Ok(Plan { outcome, steps }) => {
                self.perform(&steps);
                Ok(outcome)
            }
            Err(failure) => {
                self.perform(&failure.steps);
                Err(failure.error)
            }
        }
    }
}

#[test]
fn observe_stores_indexes_and_bumps_clock() {
    let mut s = Side::open("/tmp/x/tree", "/tmp/x/state", "me");
    s.write("a.txt", b"hello");

    // First observation: new file, clock bumped to 1, blob present.
    let obs = s.observe("a.txt");
    assert!(obs.changed);
    assert_eq!(obs.path, "a.txt");
    assert_eq!(obs.size, 5);
    assert!(s.engine.store().has(&obs.hash));
    let rec = s.engine.index().get("a.txt").unwrap();
    assert_eq!(rec.vclock.get(s.engine.device_id()), 1);

    // Re-observe identical content: no change, clock stays at 1 (idempotent).
    let again = s.observe("a.txt");
    assert!(!again.changed);
    assert_eq!(s.engine.index().get("a.txt").unwrap().vclock.get(s.engine.device_id()), 1);

    // Edit: hash changes, clock advances to 2.
    s.write("a.txt", b"world!!");
    let edited = s.observe("a.txt");
    assert!(edited.changed);
    assert_ne!(edited.hash, obs.hash);
    assert_eq!(s.engine.index().get("a.txt").unwrap().vclock.get(s.engine.device_id()), 2);
}

#[test]
fn materialize_roundtrips() {
    let mut s = Side::open("/tmp/x/tree", "/tmp/x/state", "me");
    s.write("data.bin", b"some bytes here");
    let obs = s.observe("data.bin");

    let dest = "/tmp/x/restored/data.bin".to_string();
    s.perform(&vec![Step::Materialize {
        hash: obs.hash,
        dest: dest.clone(),
        mode: 0o644,
        link: false,
    }]);
    assert_eq!(s.files.get(&dest).unwrap(), b"some bytes here");
}

#[test]
fn delete_propagates_as_tombstone() {
    let mut a = Side::named("A");
    let mut b = Side::named("B");

    // A creates foo.txt; B receives it (the transport would deliver content into B's store).
    a.write("foo.txt", b"hi");
    let (rec, bytes) = a.record_of("foo.txt");
    b.engine.store_mut().put_bytes(&bytes);
    assert_eq!(b.apply(&rec).unwrap(), ApplyOutcome::Applied);
    assert!(b.read("foo.txt").is_some());

    // A deletes it: tombstone; B applies the tombstone: file removed, row marked deleted.
    a.remove("foo.txt");
    let tomb = a.observe_delete("foo.txt").unwrap();
    assert!(tomb.deleted);
    assert_eq!(b.apply(&tomb).unwrap(), ApplyOutcome::Applied);
    assert!(b.read("foo.txt").is_none());
    assert!(b.engine.index().get("foo.txt").unwrap().deleted);

    // Re-applying the tombstone is a no-op.
    assert_eq!(b.apply(&tomb).unwrap(), ApplyOutcome::Skipped);
}

#[test]
fn concurrent_edits_keep_both() {
    let mut a = Side::named("A");
    let mut b = Side::named("B");

    // Both create foo.txt independently with different content (concurrent clocks).
    a.write("foo.txt", b"AAA");
    let (arec, abytes) = a.record_of("foo.txt");
    b.write("foo.txt", b"BBB");
    let (brec, bbytes) = b.record_of("foo.txt");

    // The transport would deliver the other side's content into each store before applying.
    a.engine.store_mut().put_bytes(&bbytes);
    b.engine.store_mut().put_bytes(&abytes);

    // Each applies the other's version: conflict, kept both.
    let out_a = a.apply(&brec).unwrap();
    let out_b = b.apply(&arec).unwrap();
    assert!(matches!(out_a, ApplyOutcome::Conflicted { .. }));
    assert!(matches!(out_b, ApplyOutcome::Conflicted { .. }));

    // Deterministic: both sides converge to the same winner at the canonical path, and the
    // working tree stays clean (no extra files alongside foo.txt).
    assert_eq!(a.read("foo.txt").unwrap(), b.read("foo.txt").unwrap());
    for s in [&a, &b] {
        let state = s.abs(".codrop/");
        let tree: Vec<&String> = s.files.keys().filter(|p| !p.starts_with(&state)).collect();
        assert_eq!(tree, vec![&s.abs("foo.txt")]);
    }

    // The losing version is preserved under .codrop/conflicts/<path> (same name) on each side,
    // and is NOT indexed (it doesn't sync).
    for s in [&a, &b] {
        let backup = s.read(".codrop/conflicts/foo.txt");
        assert!(backup.is_some(), "conflict backup missing under .codrop/conflicts");
        let mut got = vec![s.read("foo.txt").unwrap(), backup.unwrap()];
        got.sort();
        assert_eq!(got, vec![b"AAA".to_vec(), b"BBB".to_vec()]);
        assert_eq!(s.engine.local_records().len(), 1); // only foo.txt is indexed
    }

    // Re-applying converges (identical content: Skip, no new conflict).
    assert_eq!(a.apply(&brec).unwrap(), ApplyOutcome::Skipped);
}

#[test]
fn rejects_unsafe_peer_paths() {
    let mut e = Side::named("E");

    let evil = |path: &str, deleted: bool| FileRecord {
        path: path.into(),
        hash: "00".into(),
        size: 0,
        mode: 0o644,
        link: false,
        vclock: VClock::new(),
        updated_ms: 0,
        deleted,
    };
    // Absolute, parent-traversal, and a traversal tombstone are all rejected before touching
    // files.
    assert!(e.apply(&evil("/etc/pwned", false)).is_err());
    assert!(e.apply(&evil("../escape.txt", false)).is_err());
    assert!(e.apply(&evil("../../.ssh/authorized_keys", true)).is_err());
    assert!(e.apply(&evil("a/../../b", false)).is_err());
}

#[test]
fn concurrent_delete_vs_edit_keeps_edit() {
    let mut a = Side::named("A");
    let mut b = Side::named("B");

    // Both start with foo.txt in sync.
    a.write("foo.txt", b"v1");
    let (rec1, bytes1) = a.record_of("foo.txt");
    b.engine.store_mut().put_bytes(&bytes1);
    b.apply(&rec1).unwrap();

    // A deletes; B edits: concurrent.
    a.remove("foo.txt");
    let tomb = a.observe_delete("foo.txt").unwrap();
    b.write("foo.txt", b"v2-edited");
    let (rec2, bytes2) = b.record_of("foo.txt");

    // B applies A's delete: its edit wins (file kept).
    assert_eq!(b.apply(&tomb).unwrap(), ApplyOutcome::ConflictKeptLocal);
    assert_eq!(b.read("foo.txt").unwrap(), b"v2-edited");

    // A applies B's edit: resurrects over its own delete.
    a.engine.store_mut().put_bytes(&bytes2);
    assert_eq!(a.apply(&rec2).unwrap(), ApplyOutcome::Applied);
    assert_eq!(a.read("foo.txt").unwrap(), b"v2-edited");
}

#[test]
fn concurrent_delete_vs_delete_converges() {
    let mut a = Side::named("A");
    let mut b = Side::named("B");

    a.write("foo.txt", b"v1");
    let (rec1, bytes1) = a.record_of("foo.txt");
    b.engine.store_mut().put_bytes(&bytes1);
    b.apply(&rec1).unwrap();

    // Both delete concurrently, then exchange tombstones.
    a.remove("foo.txt");
    let tomb_a = a.observe_delete("foo.txt").unwrap();
    b.remove("foo.txt");
    let tomb_b = b.observe_delete("foo.txt").unwrap();

    b.apply(&tomb_a).unwrap();
    a.apply(&tomb_b).unwrap();

    // Both converge to "deleted"; no resurrection.
    assert!(a.read("foo.txt").is_none());
    assert!(b.read("foo.txt").is_none());
    assert!(a.engine.index().get("foo.txt").unwrap().deleted);
    assert!(b.engine.index().get("foo.txt").unwrap().deleted);
}

#[test]
fn each_refusal_has_its_reason() {
    let mut e = Side::named("E");
    let rec = |path: &str, hash: &str| FileRecord {
        path: path.into(),
        hash: hash.into(),
        size: 3,
        mode: 0o644,
        link: false,
        vclock: VClock::from_entries(&vec![("other".to_string(), 1)]),
        updated_ms: 0,
        deleted: false,
    };
    assert_eq!(e.apply(&rec("", "x")), Err(EngineError::EmptyPath));
    assert_eq!(
        e.apply(&rec("a/../b", "x")),
        Err(EngineError::UnsafePath { path: "a/../b".into() })
    );
    assert_eq!(
        e.apply(&rec("a", "x")),
        Err(EngineError::ContentMissing { path: "a".into(), hash: "x".into() })
    );
    assert!(e.engine.index().get("a").is_none());

    // A conflict whose remote content is not there.
    e.write("a", b"mine");
    let (mine, _) = e.record_of("a");
    assert_eq!(
        e.apply(&rec("a", "x")),
        Err(EngineError::ConflictContentMissing { path: "a".into() })
    );
    assert_eq!(e.engine.index().get("a").unwrap(), mine);
}

#[test]
fn a_lost_local_copy_stops_after_the_winner() {
    // The local content of a conflict is gone from the store. Where it loses, the winner is
    // settled first; where it wins, nothing happens.
    let mut greater = FileRecord {
        path: "a".into(),
        hash: "f".repeat(64),
        size: 1,
        mode: 0o644,
        link: false,
        vclock: VClock::from_entries(&vec![("gone".to_string(), 1)]),
        updated_ms: 5,
        deleted: false,
    };
    let mut e = Engine::open("/r", "/r/.codrop", &vec![greater.clone()], None, "d".into());
    let hash = e.store_mut().put_bytes(b"theirs");
    let rec = FileRecord {
        path: "a".into(),
        hash: hash.clone(),
        size: 6,
        mode: 0o644,
        link: false,
        vclock: VClock::from_entries(&vec![("other".to_string(), 1)]),
        updated_ms: 0,
        deleted: false,
    };
    let failure = e.apply_incoming(&rec, 9).unwrap_err();
    assert_eq!(failure.error, EngineError::NotInStore { hash: "f".repeat(64) });
    assert!(failure.steps.is_empty());
    assert_eq!(e.index().get("a").unwrap(), greater);

    greater.hash = "0".repeat(64);
    let mut e = Engine::open("/r", "/r/.codrop", &vec![greater], None, "d".into());
    e.store_mut().put_bytes(b"theirs");
    let failure = e.apply_incoming(&rec, 9).unwrap_err();
    assert_eq!(failure.error, EngineError::NotInStore { hash: "0".repeat(64) });
    assert_eq!(
        failure.steps[0],
        Step::Materialize {
            hash: hash.clone(),
            dest: "/r/a".into(),
            mode: 0o644,
            link: false,
        }
    );
    assert_eq!(failure.steps.len(), 2);
    assert_eq!(e.index().get("a").unwrap().hash, hash);
}

#[test]
fn a_tombstone_removes_and_clears_the_row() {
    let mut a = Side::named("A");
    a.write("dir/foo.txt", b"hi");
    let obs = a.observe("dir/foo.txt");
    assert_eq!(obs.path, "dir/foo.txt");
    let mut clock = a.engine.index().get("dir/foo.txt").unwrap().vclock;
    clock.increment("peer");
    let tomb = FileRecord {
        path: "dir/foo.txt".into(),
        hash: "".into(),
        size: 0,
        mode: 0,
        link: false,
        vclock: clock.clone(),
        updated_ms: 1,
        deleted: true,
    };
    let plan = a.engine.apply_incoming(&tomb, 77).unwrap();
    assert_eq!(plan.outcome, ApplyOutcome::Applied);
    assert_eq!(plan.steps[0], Step::Remove { path: "/tmp/A/dir/foo.txt".into() });
    let row = FileRecord { updated_ms: 77, ..tomb };
    assert_eq!(plan.steps[1], Step::Upsert(row.clone()));
    assert_eq!(a.engine.index().get("dir/foo.txt").unwrap(), row);
    assert_eq!(a.engine.file_count(), 0);
    assert_eq!(a.engine.local_records().len(), 1);
    // Deleting what is gone is nothing.
    assert!(a.observe_delete("dir/foo.txt").is_none());
    assert!(a.observe_delete("never").is_none());
}

#[test]
fn evaluate_goes_by_the_clocks() {
    let mut a = Side::named("A");
    a.write("f", b"1");
    let (rec, _) = a.record_of("f");
    let variant = |hash: &str, entries: &Vec<(String, u64)>| FileRecord {
        path: "f".into(),
        hash: hash.into(),
        size: 1,
        mode: 0o644,
        link: false,
        vclock: VClock::from_entries(entries),
        updated_ms: 0,
        deleted: false,
    };
    let me = "device-A".to_string();
    assert_eq!(a.engine.evaluate(&rec), SyncAction::Skip);
    assert_eq!(a.engine.evaluate(&variant("x", &vec![(me.clone(), 2)])), SyncAction::Fetch);
    assert_eq!(a.engine.evaluate(&variant("x", &vec![(me.clone(), 1)])), SyncAction::Skip);
    assert_eq!(a.engine.evaluate(&variant("x", &vec![])), SyncAction::Skip);
    assert_eq!(a.engine.evaluate(&variant("x", &vec![("o".into(), 1)])), SyncAction::Conflict);
    let mut elsewhere = variant("x", &vec![]);
    elsewhere.path = "g".into();
    assert_eq!(a.engine.evaluate(&elsewhere), SyncAction::Fetch);
}

#[test]
fn echo_of_an_applied_change_is_unchanged() {
    let mut a = Side::named("A");
    let mut b = Side::named("B");
    a.write("src/main.rs", b"fn main() {}");
    let (rec, bytes) = a.record_of("src/main.rs");
    b.engine.store_mut().put_bytes(&bytes);
    b.apply(&rec).unwrap();
    let before = b.engine.index().get("src/main.rs").unwrap();
    let obs = b.observe("src/main.rs");
    assert!(!obs.changed);
    assert_eq!(b.engine.index().get("src/main.rs").unwrap(), before);
}

#[test]
fn clocks_merge_when_a_record_is_applied() {
    let mut a = Side::named("A");
    a.write("f", b"1");
    let (rec, _) = a.record_of("f");
    let mut clock = rec.vclock.clone();
    clock.increment("peer");
    let hash = a.engine.store_mut().put_bytes(b"2");
    let newer = FileRecord { hash, size: 1, vclock: clock, ..rec.clone() };
    a.apply(&newer).unwrap();
    let row = a.engine.index().get("f").unwrap();
    assert_eq!(row.vclock.get("device-A"), 1);
    assert_eq!(row.vclock.get("peer"), 1);
    assert_eq!(row.vclock.compare(&rec.vclock), Causality::After);
    assert_eq!(a.read("f").unwrap(), b"2");
}

#[test]
fn a_full_counter_is_not_bumped() {
    let full = FileRecord {
        path: "f".into(),
        hash: "00".into(),
        size: 0,
        mode: 0o644,
        link: false,
        vclock: VClock::from_entries(&vec![("me".to_string(), u64::MAX)]),
        updated_ms: 0,
        deleted: false,
    };
    let mut e = Engine::open("/r", "/r/.codrop", &vec![full.clone()], Some("me".into()), "x".into());
    assert_eq!(e.device_id(), "me");
    assert!(e.try_observe("/r/f", &file(b"new", 0o644), 1).is_none());
    assert_eq!(e.index().get("f").unwrap(), full);
    assert!(e.try_observe("/r/g", &file(b"new", 0o644), 1).unwrap().changed);
}

#[test]
fn paths_are_relative_to_the_root() {
    let e = Engine::open("/r/tree", "/r/state", &Vec::new(), None, "d".into());
    assert_eq!(e.rel("/r/tree/a/b.txt"), "a/b.txt");
    assert_eq!(e.rel("/r/tree/a\\b.txt"), "a/b.txt");
    assert_eq!(e.rel("/elsewhere/x"), "/elsewhere/x");
    assert_eq!(e.store().object_path("abcd"), "/r/state/blobs/objects/ab/cd");
}

#[test]
fn the_loser_of_a_conflict_is_named() {
    let mut a = Side::named("A");
    a.write("d/f", b"AAA");
    let (arec, _) = a.record_of("d/f");
    let hash = a.engine.store_mut().put_bytes(b"BBB");
    let brec = FileRecord {
        path: "d/f".into(),
        hash: hash.clone(),
        size: 3,
        mode: 0o644,
        link: false,
        vclock: VClock::from_entries(&vec![("b".to_string(), 1)]),
        updated_ms: 0,
        deleted: false,
    };
    let out = a.apply(&brec).unwrap();
    assert_eq!(out, ApplyOutcome::Conflicted { copy: "/tmp/A/.codrop/conflicts/d/f".into() });
    let winner = if hash > arec.hash { hash } else { arec.hash };
    assert_eq!(a.engine.index().get("d/f").unwrap().hash, winner);
}

#[test]
fn missing_content_is_not_materialized() {
    let e = Engine::open("/r", "/s", &Vec::new(), None, "d".into());
    assert_eq!(
        e.store().materialize("abc"),
        Err(StoreError::NotInStore { hash: "abc".into() })
    );
}

#[test]
fn time_stamps() {
    assert_eq!(now_ms(None), 0);
    assert_eq!(now_ms(Some(1_700_000_000_123)), 1_700_000_000_123);
    assert_eq!(now_ms(Some(u128::from(u64::MAX))), -1);
}

/// One version of a path: its content (none for a tombstone) and its clock.
type Version = (Option<&'static [u8]>, Vec<(&'static str, u64)>);

fn device(version: &Version, name: &str) -> (Side, FileRecord) {
    let mut s = Side::named(name);
    let clock = version.1.iter().map(|(d, n)| (d.to_string(), *n)).collect();
    let mut rec = FileRecord {
        path: "f".into(),
        hash: "".into(),
        size: 0,
        mode: 0,
        link: false,
        vclock: VClock::from_entries(&clock),
        updated_ms: 1,
        deleted: true,
    };
    if let Some(bytes) = version.0 {
        rec.hash = s.engine.store_mut().put_bytes(bytes);
        rec.size = bytes.len() as u64;
        rec.deleted = false;
        s.write("f", bytes);
    }
    let root = s.root.clone();
    let state = format!("{root}/.codrop");
    let mut engine = Engine::open(&root, &state, &vec![rec.clone()], None, name.to_string());
    if let Some(bytes) = version.0 {
        engine.store_mut().put_bytes(bytes);
    }
    s.engine = engine;
    (s, rec)
}

#[test]
fn two_devices_converge_on_any_two_versions() {
    let contents: [Option<&'static [u8]>; 3] = [Some(b"one"), Some(b"two"), None];
    let clocks: [Vec<(&'static str, u64)>; 4] =
        [vec![("x", 1)], vec![("x", 2)], vec![("y", 1)], vec![("x", 1), ("y", 1)]];
    for ca in &contents {
        for cb in &contents {
            for (i, ka) in clocks.iter().enumerate() {
                for (j, kb) in clocks.iter().enumerate() {
                    if i == j && ca != cb {
                        continue; // equal clocks, different content: each keeps its own
                    }
                    let (mut a, ra) = device(&(*ca, ka.clone()), "A");
                    let (mut b, rb) = device(&(*cb, kb.clone()), "B");
                    if let Some(bytes) = cb {
                        a.engine.store_mut().put_bytes(bytes);
                    }
                    if let Some(bytes) = ca {
                        b.engine.store_mut().put_bytes(bytes);
                    }
                    a.apply(&rb).unwrap();
                    b.apply(&ra).unwrap();
                    let na = a.engine.index().get("f").unwrap();
                    let nb = b.engine.index().get("f").unwrap();
                    assert_eq!(na.hash, nb.hash);
                    assert_eq!(na.deleted, nb.deleted);
                    assert_eq!(a.read("f"), b.read("f"));
                    assert_eq!(a.read("f").is_none(), na.deleted);
                    if ra.hash != rb.hash {
                        assert_eq!(na.size, nb.size);
                        assert_eq!(na.vclock.compare(&nb.vclock), Causality::Equal);
                    }
                    // Once more changes nothing.
                    assert_eq!(a.apply(&nb), Ok(ApplyOutcome::Skipped));
                }
            }
        }
    }
}

#[test]
fn a_record_touches_its_own_row_only() {
    let mut a = Side::named("A");
    a.write("f", b"1");
    a.write("g", b"2");
    a.observe("f");
    a.observe("g");
    let g = a.engine.index().get("g").unwrap();
    let hash = a.engine.store_mut().put_bytes(b"new");
    let rec = FileRecord {
        path: "f".into(),
        hash,
        size: 3,
        mode: 0o644,
        link: false,
        vclock: VClock::from_entries(&vec![("device-A".to_string(), 5)]),
        updated_ms: 0,
        deleted: false,
    };
    a.apply(&rec).unwrap();
    assert_eq!(a.engine.index().get("g").unwrap(), g);
    assert_eq!(a.engine.file_count(), 2);
    assert_eq!(a.read("g").unwrap(), b"2");
}

#[test]
fn a_bare_chmod_travels() {
    let mut a = Side::named("A");
    let mut b = Side::named("B");
    a.write("run.sh", b"#!/bin/sh\n");
    let (rec, bytes) = a.record_of("run.sh");
    assert_eq!(rec.mode, 0o644);
    b.engine.store_mut().put_bytes(&bytes);
    b.apply(&rec).unwrap();
    assert_eq!(b.modes.get("/tmp/B/run.sh"), Some(&0o644));

    // The content is the same, and yet it is a change.
    a.modes.insert("/tmp/A/run.sh".into(), 0o755);
    let obs = a.observe("run.sh");
    assert!(obs.changed);
    assert_eq!(obs.hash, rec.hash);
    let newer = a.engine.index().get("run.sh").unwrap();
    assert_eq!(newer.vclock.get("device-A"), 2);
    assert_eq!(b.engine.evaluate(&newer), SyncAction::Fetch);
    let plan = b.engine.apply_incoming(&newer, 9).unwrap();
    assert_eq!(plan.outcome, ApplyOutcome::Applied);
    assert_eq!(
        plan.steps[0],
        Step::Materialize {
            hash: rec.hash.clone(),
            dest: "/tmp/B/run.sh".into(),
            mode: 0o755,
            link: false,
        }
    );
    b.perform(&plan.steps);
    assert_eq!(b.modes.get("/tmp/B/run.sh"), Some(&0o755));
    // B's own watcher sees what it wrote: no echo.
    assert!(!b.observe("run.sh").changed);
}

#[test]
fn concurrent_chmods_keep_both() {
    let mut a = Side::named("A");
    a.write("f", b"x");
    a.modes.insert("/tmp/A/f".into(), 0o600);
    let (mine, _) = a.record_of("f");
    let theirs = FileRecord {
        mode: 0o755,
        vclock: VClock::from_entries(&vec![("b".to_string(), 1)]),
        ..mine.clone()
    };
    assert_eq!(a.engine.evaluate(&theirs), SyncAction::Conflict);
    let out = a.apply(&theirs).unwrap();
    assert_eq!(out, ApplyOutcome::Conflicted { copy: "/tmp/A/.codrop/conflicts/f".into() });
    // The greater bits win; the others are kept beside the tree.
    assert_eq!(a.modes.get("/tmp/A/f"), Some(&0o755));
    assert_eq!(a.modes.get("/tmp/A/.codrop/conflicts/f"), Some(&0o600));
    let row = a.engine.index().get("f").unwrap();
    assert_eq!(row.mode, 0o755);
    assert_eq!(a.engine.evaluate(&theirs), SyncAction::Skip);
}

#[test]
fn links_sync_as_links() {
    let mut a = Side::named("A");
    let mut b = Side::named("B");
    a.links.insert("/tmp/A/current".into(), b"releases/7".to_vec());
    let (rec, target) = a.record_of("current");
    assert!(rec.link);
    assert_eq!(rec.mode, 0);
    assert_eq!(rec.size, 10);
    assert_eq!(target, b"releases/7");
    assert_eq!(rec.hash, blake3::hash(b"releases/7").to_hex().to_string());
    b.engine.store_mut().put_bytes(&target);
    assert_eq!(b.apply(&rec).unwrap(), ApplyOutcome::Applied);
    assert_eq!(b.links.get("/tmp/B/current").unwrap(), b"releases/7");
    assert!(b.read("current").is_none());
    assert!(!b.observe("current").changed);

    // A regular file with the same bytes is another version.
    a.links.clear();
    a.write("current", b"releases/7");
    assert!(a.observe("current").changed);
    let newer = a.engine.index().get("current").unwrap();
    assert!(!newer.link);
    assert_eq!(newer.hash, rec.hash);
    assert_eq!(b.apply(&newer).unwrap(), ApplyOutcome::Applied);
    assert!(b.links.is_empty());
    assert_eq!(b.read("current").unwrap(), b"releases/7");
}

#[test]
fn no_record_leads_through_a_link() {
    let mut a = Side::named("A");
    a.links.insert("/tmp/A/d".into(), b"/etc".to_vec());
    a.observe("d");
    let hash = a.engine.store_mut().put_bytes(b"x");
    let behind = FileRecord {
        path: "d/passwd".into(),
        hash,
        size: 1,
        mode: 0o644,
        link: false,
        vclock: VClock::from_entries(&vec![("b".to_string(), 1)]),
        updated_ms: 0,
        deleted: false,
    };
    assert_eq!(
        a.apply(&behind),
        Err(EngineError::BehindLink { path: "d/passwd".into() })
    );
    assert!(a.files.is_empty());
    assert!(a.engine.index().get("d/passwd").is_none());

    // That a file behind it is gone is recorded, with nothing removed through the link.
    let gone = FileRecord {
        hash: "".into(),
        size: 0,
        mode: 0,
        deleted: true,
        ..behind.clone()
    };
    let plan = a.engine.apply_incoming(&gone, 5).unwrap();
    assert_eq!(plan.outcome, ApplyOutcome::Applied);
    assert_eq!(plan.steps, vec![Step::Upsert(FileRecord { updated_ms: 5, ..gone })]);
    // A sibling that only begins with the same letters is no matter.
    let sibling = FileRecord { path: "dd".into(), ..behind };
    assert_eq!(a.apply(&sibling).unwrap(), ApplyOutcome::Applied);
}

#[test]
fn what_was_observed_is_held() {
    let mut a = Side::named("A");
    a.write("f", b"some content");
    let obs = a.observe("f");
    assert!(a.engine.store().has(&obs.hash));
    assert_eq!(a.engine.store().read(&obs.hash).unwrap(), b"some content");
}
