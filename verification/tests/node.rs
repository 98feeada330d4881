use codrop::engine::{EngineError, Found, Step};
use codrop::fetch::{Fetch, FetchError, Turn};
use codrop::node::{respond, tally, Pull, PullError, PullTurn, Served};
use codrop::paths::join;
use codrop::proto::{frame, message_length, Req, Resp, TooLarge, MAX_MSG};
use codrop::{ApplyOutcome, BlobStore, Engine, FileRecord, SyncStats, VClock};
use std::collections::BTreeMap;

/// One node: its engine and the files of its tree.
struct Node {
    engine: Engine,
    root: String,
    files: BTreeMap<String, Vec<u8>>,
    chunks_asked: usize,
}

impl Node {
    fn new(name: &str) -> Node {
        let root = format!("/tmp/{name}");
        let state = format!("/tmp/{name}/.codrop");
        let device = format!("device-{name}");
        Node {
            engine: Engine::open(&root, &state, &Vec::new(), None, device),
            root,
            files: BTreeMap::new(),
            chunks_asked: 0,
        }
    }

    fn add(&mut self, rel: &str, bytes: &[u8]) -> FileRecord {
        let abs = join(&self.root, rel);
        self.files.insert(abs.clone(), bytes.to_vec());
        let found = Found::File { bytes: bytes.to_vec(), size: bytes.len() as u64, mode: 0o644 };
        let obs = self.engine.try_observe(&abs, &found, 1).unwrap();
        self.engine.index().get(&obs.path).unwrap()
    }

    fn file(&self, rel: &str) -> Option<&Vec<u8>> {
        self.files.get(&join(&self.root, rel))
    }

    fn perform(&mut self, steps: &Vec<Step>) {
        for step in steps {
            match step {
                Step::Materialize { hash, dest, .. } => {
                    let bytes = self.engine.store().materialize(hash).unwrap();
                    self.files.insert(dest.clone(), bytes);
                }
                Step::Remove { path } => {
                    self.files.remove(path);
                }
                Step::Upsert(_) => {}
            }
        }
    }

    fn answer(&self, req: Req) -> Resp {
        match respond(&self.engine, req) {
            Served::Answer(resp) => resp,
            Served::Take(_) => panic!("not a push"),
        }
    }

    /// Runs a pull to its end against `peer`.
    fn run(&mut self, peer: &Node, mut pull: Pull, mut turn: PullTurn) -> Result<Pull, PullError> {
        loop {
            match turn {
                PullTurn::Ask(req) => {
                    if matches!(req, Req::Chunk { .. }) {
                        self.chunks_asked += 1;
                    }
                    let resp = peer.answer(req);
                    (pull, turn) = pull.answer(&mut self.engine, resp, 2);
                }
                PullTurn::Perform(steps) => {
                    self.perform(&steps);
                    (pull, turn) = pull.done(&mut self.engine, 2);
                }
                PullTurn::Done => return Ok(pull),
                PullTurn::Failed { steps, error } => {
                    self.perform(&steps);
                    return Err(error);
                }
            }
        }
    }

    fn pull_from(&mut self, peer: &Node) -> Result<SyncStats, PullError> {
        let (pull, req) = Pull::start();
        let turn = PullTurn::Ask(req);
        self.run(peer, pull, turn).map(|p| p.stats())
    }

    fn take_push(&mut self, peer: &Node, record: FileRecord) -> Result<Resp, PullError> {
        let record = match respond(&self.engine, Req::Push { record }) {
            Served::Take(record) => record,
            Served::Answer(_) => panic!("a push is taken over"),
        };
        let (pull, turn) = Pull::of_push(&mut self.engine, record, 2);
        self.run(peer, pull, turn).map(|p| p.acknowledgement())
    }
}

#[test]
fn peer_pull_converges() {
    let mut a = Node::new("A");
    a.add("main.rs", b"fn main() {}");
    a.add("nested/util.rs", b"pub fn util() {}");
    let mut b = Node::new("B");

    let stats = b.pull_from(&a).unwrap();
    assert_eq!(stats.total, 2);
    assert_eq!(stats.fetched, 2);
    assert_eq!(stats.conflicts, 0);
    assert_eq!(b.file("main.rs").unwrap(), b"fn main() {}");
    assert_eq!(b.file("nested/util.rs").unwrap(), b"pub fn util() {}");

    // Causal history preserved across the wire.
    let rec = b.engine.index().get("main.rs").unwrap();
    assert_eq!(rec.vclock.get(a.engine.device_id()), 1);

    // Pulling again is a no-op (echo-loop safety).
    let again = b.pull_from(&a).unwrap();
    assert_eq!(again.fetched, 0);
    assert_eq!(again.skipped, 2);
}

#[test]
fn live_push_applies_on_peer() {
    let mut a = Node::new("A");
    let rec = a.add("live.rs", b"// edited live");
    let mut b = Node::new("B");
    assert_eq!(b.take_push(&a, rec.clone()), Ok(Resp::Ack));
    assert_eq!(b.file("live.rs").unwrap(), b"// edited live");
    // A second push of the same is acknowledged and changes nothing.
    let before = b.engine.index().get("live.rs").unwrap();
    assert_eq!(b.take_push(&a, rec), Ok(Resp::Ack));
    assert_eq!(b.engine.index().get("live.rs").unwrap(), before);
}

#[test]
fn only_missing_chunks_move() {
    let mut seed = 7u64;
    let mut big = vec![0u8; 300_000];
    for byte in big.iter_mut() {
        seed = seed.wrapping_mul(6364136223846793005).wrapping_add(1442695040888963407);
        *byte = (seed >> 33) as u8;
    }
    let mut a = Node::new("A");
    a.add("big", &big);
    let mut b = Node::new("B");
    b.pull_from(&a).unwrap();
    let first = b.chunks_asked;
    assert_eq!(first, a.engine.store().object_count());

    big[100_000] ^= 1;
    a.add("big", &big);
    b.pull_from(&a).unwrap();
    let second = b.chunks_asked - first;
    assert!((1..5).contains(&second), "asked for {second} chunks");
    assert_eq!(b.file("big").unwrap(), &big);
}

#[test]
fn deletes_and_conflicts_are_pulled() {
    let mut a = Node::new("A");
    let mut b = Node::new("B");
    a.add("gone", b"x");
    b.pull_from(&a).unwrap();
    a.engine.observe_delete("/tmp/A/gone", 3).unwrap();
    a.add("both", b"from a");
    b.add("both", b"from b");
    let stats = b.pull_from(&a).unwrap();
    assert_eq!(stats, SyncStats { total: 2, fetched: 1, skipped: 0, conflicts: 1 });
    assert!(b.file("gone").is_none());
    assert!(b.file(".codrop/conflicts/both").is_some());
    // The other side comes to the same.
    let stats = a.pull_from(&b).unwrap();
    assert_eq!(stats.total, 2);
    assert_eq!(a.file("both"), b.file("both"));
}

#[test]
fn a_peer_without_the_content_is_passed_over() {
    let mut a = Node::new("A");
    let mut b = Node::new("B");
    let rec = a.add("f", b"content");
    let empty = Node::new("C");
    // Pushed by one who cannot deliver.
    assert_eq!(b.take_push(&empty, rec.clone()), Ok(Resp::NotFound));
    assert!(b.engine.index().get("f").is_none());
    // A pull goes on with the next record.
    let mut one = rec.clone();
    one.path = "absent".into();
    one.hash = "e".repeat(64);
    let (pull, req) = Pull::start();
    assert_eq!(req, Req::Index);
    let resp = Resp::Index { records: vec![one, rec] };
    let (pull, turn) = pull.answer(&mut b.engine, resp, 2);
    let pull = b.run(&a, pull, turn).unwrap();
    assert_eq!(pull.stats(), SyncStats { total: 2, fetched: 1, skipped: 0, conflicts: 0 });
    assert_eq!(b.file("f").unwrap(), b"content");
}

#[test]
fn a_peer_that_lies_is_refused() {
    let mut a = Node::new("A");
    let rec = a.add("f", b"content");
    let chunk = a.engine.store().get_manifest(&rec.hash).unwrap()[0].clone();

    // Wrong bytes for a chunk.
    let mut store = BlobStore::open("/s");
    let (fetch, turn) = Fetch::start(&mut store, &rec);
    assert_eq!(turn, Turn::Ask(Req::Manifest { hash: rec.hash.clone() }));
    let (fetch, turn) = fetch.feed(&mut store, Resp::Manifest { chunks: vec![chunk.clone()] });
    assert_eq!(turn, Turn::Ask(Req::Chunk { hash: chunk.clone() }));
    let (_, turn) = fetch.feed(&mut store, Resp::Chunk { bytes: b"other".to_vec() });
    match turn {
        Turn::Refused(FetchError::Chunk { expected, actual }) => {
            assert_eq!(expected, chunk);
            assert_ne!(actual, chunk);
        }
        other => panic!("{other:?}"),
    }

    // Genuine chunks of something else.
    let mut store = BlobStore::open("/s");
    let other = store.put_bytes(b"something else");
    let (fetch, _) = Fetch::start(&mut store, &rec);
    let (_, turn) = fetch.feed(&mut store, Resp::Manifest { chunks: vec![other] });
    assert_eq!(turn, Turn::Refused(FetchError::Content { hash: rec.hash.clone() }));
    assert!(store.get_manifest(&rec.hash).is_none());

    // A pull ends there, and a push is not acknowledged.
    let mut b = Node::new("B");
    let (pull, turn) = Pull::of_push(&mut b.engine, rec.clone(), 2);
    assert!(matches!(turn, PullTurn::Ask(Req::Manifest { .. })));
    let (pull, _) = pull.answer(&mut b.engine, Resp::Manifest { chunks: vec![chunk] }, 2);
    let (_, turn) = pull.answer(&mut b.engine, Resp::Chunk { bytes: vec![1, 2, 3] }, 2);
    assert!(matches!(
        turn,
        PullTurn::Failed { error: PullError::Fetch(FetchError::Chunk { .. }), .. }
    ));
    assert!(b.engine.index().get("f").is_none());
}

#[test]
fn an_unsafe_record_ends_the_pull() {
    let mut b = Node::new("B");
    let evil = FileRecord {
        path: "../x".into(),
        hash: "".into(),
        size: 0,
        mode: 0,
        link: false,
        vclock: VClock::new(),
        updated_ms: 0,
        deleted: true,
    };
    let (_, turn) = Pull::of_push(&mut b.engine, evil, 2);
    match turn {
        PullTurn::Failed { steps, error } => {
            assert!(steps.is_empty());
            assert_eq!(error, PullError::Apply(EngineError::UnsafePath { path: "../x".into() }));
        }
        other => panic!("{other:?}"),
    }
}

#[test]
fn answers_out_of_turn_end_the_pull() {
    let mut b = Node::new("B");
    let (pull, _) = Pull::start();
    let (_, turn) = pull.answer(&mut b.engine, Resp::NotFound, 2);
    assert!(matches!(turn, PullTurn::Failed { error: PullError::NotAnIndex, .. }));
    let (pull, _) = Pull::start();
    let (pull, turn) = pull.done(&mut b.engine, 2);
    assert!(matches!(turn, PullTurn::Failed { error: PullError::OutOfTurn, .. }));
    let (_, turn) = pull.answer(&mut b.engine, Resp::Ack, 2);
    assert!(matches!(turn, PullTurn::Failed { error: PullError::OutOfTurn, .. }));
}

#[test]
fn content_that_is_here_is_not_asked_for() {
    let mut a = Node::new("A");
    let rec = a.add("f", b"content");
    let mut store = BlobStore::open("/s");
    store.put_bytes(b"content");
    let (_, turn) = Fetch::start(&mut store, &rec);
    assert_eq!(turn, Turn::Ready);
    let tomb = FileRecord { deleted: true, hash: "".into(), ..rec.clone() };
    let (_, turn) = Fetch::start(&mut BlobStore::open("/s"), &tomb);
    assert_eq!(turn, Turn::Ready);
    // A manifest without its chunks: only the chunks are asked for.
    let mut store = BlobStore::open("/s");
    store.put_manifest(&rec.hash, &vec![rec.hash.clone()]);
    let (fetch, turn) = Fetch::start(&mut store, &rec);
    assert_eq!(turn, Turn::Ask(Req::Chunk { hash: rec.hash.clone() }));
    let (_, turn) = fetch.feed(&mut store, Resp::NotFound);
    assert_eq!(turn, Turn::Absent);
}

#[test]
fn requests_are_answered_from_index_and_store() {
    let mut a = Node::new("A");
    let rec = a.add("f", b"content");
    assert_eq!(a.answer(Req::Index), Resp::Index { records: vec![rec.clone()] });
    let chunks = a.engine.store().get_manifest(&rec.hash).unwrap();
    assert_eq!(
        a.answer(Req::Manifest { hash: rec.hash.clone() }),
        Resp::Manifest { chunks: chunks.clone() }
    );
    assert_eq!(
        a.answer(Req::Chunk { hash: chunks[0].clone() }),
        Resp::Chunk { bytes: b"content".to_vec() }
    );
    assert_eq!(a.answer(Req::Manifest { hash: "x".into() }), Resp::NotFound);
    assert_eq!(a.answer(Req::Chunk { hash: "x".into() }), Resp::NotFound);
}

#[test]
fn outcomes_are_tallied() {
    let mut s = SyncStats::default();
    tally(&mut s, &ApplyOutcome::Skipped);
    tally(&mut s, &ApplyOutcome::Applied);
    tally(&mut s, &ApplyOutcome::Applied);
    tally(&mut s, &ApplyOutcome::ConflictKeptLocal);
    tally(&mut s, &ApplyOutcome::Conflicted { copy: "x".into() });
    assert_eq!(s, SyncStats { total: 0, fetched: 2, skipped: 1, conflicts: 2 });
}

#[test]
fn messages_are_framed() {
    assert_eq!(frame(&vec![7, 8, 9]), vec![0, 0, 0, 3, 7, 8, 9]);
    let body = vec![1u8; 70_000];
    let framed = frame(&body);
    assert_eq!(framed[..4].to_vec(), 70_000u32.to_be_bytes().to_vec());
    let prefix = [framed[0], framed[1], framed[2], framed[3]];
    assert_eq!(message_length(prefix), Ok(70_000));
    assert_eq!(framed[4..].to_vec(), body);
    assert_eq!(message_length([0x10, 0, 0, 0]), Ok(MAX_MSG));
    assert_eq!(message_length([0x10, 0, 0, 1]), Err(TooLarge { len: MAX_MSG + 1 }));
    assert_eq!(message_length([255; 4]), Err(TooLarge { len: 4_294_967_295 }));
}

#[test]
fn an_honest_peer_is_pulled_whole() {
    let mut a = Node::new("A");
    let mut b = Node::new("B");
    // A file that only B has, one that B takes over, one that both have, one that A deleted, and
    // one that both changed.
    b.add("mine", b"b's own");
    a.add("new", b"from a");
    a.add("same", b"same");
    b.add("same", b"same");
    let old = a.add("gone", b"for now");
    b.take_push(&a, old).unwrap();
    assert!(b.file("gone").is_some());
    a.engine.observe_delete("/tmp/A/gone", 1).unwrap();
    a.add("both", b"a's");
    b.add("both", b"b's");

    let stats = b.pull_from(&a).unwrap();
    assert_eq!(stats, SyncStats { total: 4, fetched: 2, skipped: 1, conflicts: 1 });
    assert_eq!(b.file("new").unwrap(), b"from a");
    assert_eq!(b.file("mine").unwrap(), b"b's own");
    assert!(b.file("gone").is_none());
    // Nothing is new any more.
    let again = b.pull_from(&a).unwrap();
    assert_eq!(again, SyncStats { total: 4, fetched: 0, skipped: 4, conflicts: 0 });
}

#[test]
fn a_started_download_goes_on() {
    let mut a = Node::new("A");
    let big: Vec<u8> = (0..600_000u32).map(|i| (i.wrapping_mul(2654435761) >> 13) as u8).collect();
    let rec = a.add("big", &big);
    let chunks = a.engine.store().get_manifest(&rec.hash).unwrap();
    assert!(chunks.len() > 1);
    // B has the manifest and one of the chunks.
    let mut b = Node::new("B");
    b.engine.store_mut().put_manifest(&rec.hash, &chunks);
    let first = a.engine.store().read_chunk(&chunks[0]).unwrap();
    b.engine.store_mut().put_chunk(&chunks[0], &first).unwrap();
    let stats = b.pull_from(&a).unwrap();
    assert_eq!(stats.fetched, 1);
    assert_eq!(b.file("big").unwrap(), &big);
    let distinct: std::collections::BTreeSet<&String> = chunks.iter().collect();
    assert_eq!(b.chunks_asked, distinct.len() - 1);
}

#[test]
fn a_record_behind_a_link_keeps_no_other_back() {
    let mut a = Node::new("A");
    a.add("d/x", b"behind");
    a.add("e", b"beside");
    let mut b = Node::new("B");
    let link = Found::Link { target: b"/elsewhere".to_vec() };
    b.engine.try_observe("/tmp/B/d", &link, 1).unwrap();
    let stats = b.pull_from(&a).unwrap();
    assert_eq!(stats, SyncStats { total: 2, fetched: 1, skipped: 0, conflicts: 0 });
    assert_eq!(b.file("e").unwrap(), b"beside");
    assert!(b.file("d/x").is_none());
    assert!(b.engine.index().get("d/x").is_none());
    // Pushed by itself it is not acknowledged, and nothing is fetched for it.
    let rec = a.engine.index().get("d/x").unwrap();
    assert!(b.engine.is_blocked(&rec));
    assert_eq!(b.take_push(&a, rec).unwrap(), Resp::NotFound);
    assert!(!b.engine.is_blocked(&a.engine.index().get("e").unwrap()));
}

#[test]
fn a_pull_tells_what_it_deals_with() {
    let mut a = Node::new("A");
    let rec = a.add("f", b"content");
    let mut b = Node::new("B");
    let (pull, _) = Pull::start();
    assert!(pull.at_hand().is_none());
    let index = Resp::Index { records: vec![rec.clone()] };
    let (pull, turn) = pull.answer(&mut b.engine, index, 2);
    assert!(matches!(turn, PullTurn::Ask(Req::Manifest { .. })));
    assert_eq!(pull.at_hand(), Some(&rec));
    assert!(pull.outcome().is_none());
    let mut state = (pull, turn);
    while let PullTurn::Ask(req) = state.1 {
        state = state.0.answer(&mut b.engine, a.answer(req), 2);
    }
    assert_eq!(state.0.at_hand(), Some(&rec));
    assert_eq!(state.0.outcome(), Some(&ApplyOutcome::Applied));
    let (pull, turn) = state.0.done(&mut b.engine, 2);
    assert!(matches!(turn, PullTurn::Done));
    assert!(pull.at_hand().is_none());
    assert!(pull.outcome().is_none());
}
