//! Getting a record's content from the peer that has it: its manifest, then only the chunks that
//! are missing here. Every chunk is checked against its digest as it comes in, and the whole
//! against the record's hash before the store lists it.

use crate::digest::{blake3_hex, content_hash};
use crate::index::{FileRecord, Record};
use crate::proto::{Ask, Reply, Req, Resp};
use crate::store::{
    all_held, assembled, chunks_of, content, filed, fits_line, holds, is_genuine,
    manifest_round_trip, stocked_one, well_named, BlobStore, Shelves, StoreError,
};
use crate::text::{same, texts};
use vstd::prelude::*;

verus! {

// ---- model ---------------------------------------------------------------------------------
/// How far the content of a record has come.
pub enum Progress {
    /// Nothing to wait for.
    Settled,
    /// The manifest was asked for.
    Listing,
    /// The chunk at `at` of the list was asked for.
    Collecting { list: Seq<Seq<char>>, at: int },
}

/// Why content from a peer was refused.
pub enum Blame {
    /// A chunk does not have the digest that it was asked for under.
    Chunk { actual: Seq<char>, expected: Seq<char> },
    /// The chunks do not make up the content that the record names.
    Content { hash: Seq<char> },
}

/// What is to happen next.
pub enum Move {
    Ask(Ask),
    Ready,
    Absent,
    Refused(Blame),
}

/// A step of getting content: the store, how far it has come, and what is to happen next.
pub struct Fetched {
    pub shelves: Shelves,
    pub progress: Progress,
    pub next: Move,
}

/// The first chunk of the list, from `from` on, that is not held.
pub open spec fn first_missing(
    objects: Map<Seq<char>, Seq<u8>>,
    list: Seq<Seq<char>>,
    from: int,
) -> int
    decreases list.len() - from,
{
    if from >= list.len() {
        list.len() as int
    } else if !objects.contains_key(list[from]) {
        from
    } else {
        first_missing(objects, list, from + 1)
    }
}

/// The chunks of the list are held, and make up the content that has that digest.
pub open spec fn makes_up(s: Shelves, hash: Seq<char>, list: Seq<Seq<char>>) -> bool {
    all_held(s.objects, list) && blake3_hex(assembled(s.objects, list)) == hash
}

/// On with the list from `from`: ask for the next chunk that is missing or, where none is, file
/// the manifest if its chunks make up the content.
pub open spec fn collected(
    s: Shelves,
    hash: Seq<char>,
    list: Seq<Seq<char>>,
    from: int,
) -> Fetched {
    let at = first_missing(s.objects, list, from);
    if at < list.len() {
        Fetched {
            shelves: s,
            progress: Progress::Collecting { list, at },
            next: Move::Ask(Ask::Chunk { hash: list[at] }),
        }
    } else if makes_up(s, hash, list) {
        let after = Shelves { manifests: filed(s.manifests, hash, list), ..s };
        Fetched {
            shelves: after,
            progress: Progress::Settled,
            next: if is_genuine(after, hash) {
                Move::Ready
            } else {
                Move::Refused(Blame::Content { hash })
            },
        }
    } else {
        Fetched {
            shelves: s,
            progress: Progress::Settled,
            next: Move::Refused(Blame::Content { hash }),
        }
    }
}

/// The beginning: a tombstone needs no content, and content that is there and genuine is not
/// asked for again.
pub open spec fn begun(s: Shelves, record: Record) -> Fetched {
    if record.deleted || is_genuine(s, record.hash) {
        Fetched { shelves: s, progress: Progress::Settled, next: Move::Ready }
    } else if s.manifests.contains_key(record.hash) {
        collected(s, record.hash, chunks_of(s, record.hash), 0)
    } else {
        Fetched {
            shelves: s,
            progress: Progress::Listing,
            next: Move::Ask(Ask::Manifest { hash: record.hash }),
        }
    }
}

/// What the peer's reply leads to.
pub open spec fn fed(s: Shelves, hash: Seq<char>, progress: Progress, reply: Reply) -> Fetched {
    match (progress, reply) {
        (Progress::Listing, Reply::Manifest { chunks }) => collected(s, hash, chunks, 0),
        (Progress::Collecting { list, at }, Reply::Chunk { bytes }) => {
            if blake3_hex(bytes) == list[at] {
                collected(
                    Shelves { objects: stocked_one(s.objects, list[at], bytes), ..s },
                    hash,
                    list,
                    at + 1,
                )
            } else {
                Fetched {
                    shelves: s,
                    progress: Progress::Settled,
                    next: Move::Refused(
                        Blame::Chunk { actual: blake3_hex(bytes), expected: list[at] },
                    ),
                }
            }
        },
        _ => Fetched { shelves: s, progress: Progress::Settled, next: Move::Absent },
    }
}

// ---- the exchange --------------------------------------------------------------------------
/// Why content from a peer was refused.
#[derive(Debug, PartialEq, Eq)]
pub enum FetchError {
    /// A chunk does not have the digest that it was asked for under.
    Chunk { actual: String, expected: String },
    /// The chunks do not make up the content that the record names.
    Content { hash: String },
}

impl View for FetchError {
    type V = Blame;

    open spec fn view(&self) -> Blame {
        match *self {
            FetchError::Chunk { actual, expected } => Blame::Chunk {
                actual: actual@,
                expected: expected@,
            },
            FetchError::Content { hash } => Blame::Content { hash: hash@ },
        }
    }
}

/// What is to happen next.
#[derive(Debug, PartialEq, Eq)]
pub enum Turn {
    /// Send the request and feed the response in.
    Ask(Req),
    /// The content is in the store.
    Ready,
    /// The peer does not have it.
    Absent,
    /// The peer sent something else.
    Refused(FetchError),
}

impl View for Turn {
    type V = Move;

    open spec fn view(&self) -> Move {
        match *self {
            Turn::Ask(req) => Move::Ask(req@),
            Turn::Ready => Move::Ready,
            Turn::Absent => Move::Absent,
            Turn::Refused(e) => Move::Refused(e@),
        }
    }
}

/// How far it has come.
#[derive(Debug)]
enum Phase {
    Settled,
    Listing,
    Collecting { list: Vec<String>, at: usize },
}

/// One record's content on its way in.
#[derive(Debug)]
pub struct Fetch {
    hash: String,
    phase: Phase,
}

impl Fetch {
    #[verifier::type_invariant]
    spec fn in_range(self) -> bool {
        self.phase matches Phase::Collecting { list, at } ==> at < list@.len()
    }

    /// The hash of the content.
    pub closed spec fn hash(self) -> Seq<char> {
        self.hash@
    }

    /// How far it has come.
    pub closed spec fn progress(self) -> Progress {
        match self.phase {
            Phase::Settled => Progress::Settled,
            Phase::Listing => Progress::Listing,
            Phase::Collecting { list, at } => Progress::Collecting {
                list: texts(list@),
                at: at as int,
            },
        }
    }

    /// Begins to get a record's content.
    pub fn start(store: &mut BlobStore, record: &FileRecord) -> (r: (Fetch, Turn))
        ensures
            ({
                let f = begun(old(store)@, record@);
                &&& r.0.hash() == record@.hash
                &&& r.0.progress() == f.progress
                &&& r.1@ == f.next
                &&& final(store)@ == f.shelves
            }),
            final(store).root() == old(store).root(),
            r.1 is Ready ==> record@.deleted || is_genuine(final(store)@, record@.hash),
    {
        let hash = record.hash.clone();
        if record.deleted || store.verify_content(record.hash.as_str()) {
            return (Fetch { hash, phase: Phase::Settled }, Turn::Ready);
        }
        match store.get_manifest(record.hash.as_str()) {
            Some(list) => collect(store, hash, list, 0),
            None => {
                let ask = Req::Manifest { hash: record.hash.clone() };
                (Fetch { hash, phase: Phase::Listing }, Turn::Ask(ask))
            },
        }
    }

    /// Takes the peer's response in.
    pub fn feed(self, store: &mut BlobStore, resp: Resp) -> (r: (Fetch, Turn))
        ensures
            ({
                let f = fed(old(store)@, self.hash(), self.progress(), resp@);
                &&& r.0.hash() == self.hash()
                &&& r.0.progress() == f.progress
                &&& r.1@ == f.next
                &&& final(store)@ == f.shelves
            }),
            final(store).root() == old(store).root(),
            r.1 is Ready ==> is_genuine(final(store)@, self.hash()),
    {
        proof {
            use_type_invariant(&self);
        }
        let hash = self.hash;
        match (self.phase, resp) {
            (Phase::Listing, Resp::Manifest { chunks }) => collect(store, hash, chunks, 0),
            (Phase::Collecting { list, at }, Resp::Chunk { bytes }) => {
                proof {
                    assert(texts(list@)[at as int] == list@[at as int]@);
                    assert(list.len() <= usize::MAX);
                }
                match store.put_chunk(list[at].as_str(), bytes.as_slice()) {
                    Ok(()) => collect(store, hash, list, at + 1),
                    Err(StoreError::ChunkMismatch { actual, expected }) => {
                        let e = FetchError::Chunk { actual, expected };
                        (Fetch { hash, phase: Phase::Settled }, Turn::Refused(e))
                    },
                    Err(_) => (Fetch { hash, phase: Phase::Settled }, Turn::Absent),
                }
            },
            _ => (Fetch { hash, phase: Phase::Settled }, Turn::Absent),
        }
    }
}

/// On with the list from `from`.
fn collect(store: &mut BlobStore, hash: String, list: Vec<String>, from: usize) -> (r: (Fetch, Turn))
    requires
        from <= list@.len(),
    ensures
        ({
            let f = collected(old(store)@, hash@, texts(list@), from as int);
            &&& r.0.hash() == hash@
            &&& r.0.progress() == f.progress
            &&& r.1@ == f.next
            &&& final(store)@ == f.shelves
        }),
        final(store).root() == old(store).root(),
        r.1 is Ready ==> is_genuine(final(store)@, hash@),
{
    let ghost was = store@;
    let ghost names = texts(list@);
    let mut at: usize = from;
    while at < list.len() && store.has_chunk(list[at].as_str())
        invariant
            at <= list@.len(),
            store@ == was,
            names == texts(list@),
            first_missing(was.objects, names, from as int) == first_missing(
                was.objects,
                names,
                at as int,
            ),
        decreases list@.len() - at,
    {
        proof {
            assert(names[at as int] == list@[at as int]@);
        }
        at += 1;
    }
    if at < list.len() {
        proof {
            assert(names[at as int] == list@[at as int]@);
        }
        let ask = Req::Chunk { hash: list[at].clone() };
        return (Fetch { hash, phase: Phase::Collecting { list, at } }, Turn::Ask(ask));
    }
    let whole = match store.assemble(&list) {
        Some(bytes) => {
            let actual = content_hash(bytes.as_slice());
            same(actual.as_str(), hash.as_str())
        },
        None => false,
    };
    if whole {
        store.put_manifest(hash.as_str(), &list);
        if store.verify_content(hash.as_str()) {
            return (Fetch { hash, phase: Phase::Settled }, Turn::Ready);
        }
    }
    let e = FetchError::Content { hash: hash.clone() };
    (Fetch { hash, phase: Phase::Settled }, Turn::Refused(e))
}

// ---- laws ----------------------------------------------------------------------------------
/// A chunk is asked for only if it is missing.
pub proof fn only_missing_chunks_are_asked_for(
    s: Shelves,
    hash: Seq<char>,
    list: Seq<Seq<char>>,
    from: int,
)
    ensures
        collected(s, hash, list, from).next matches Move::Ask(Ask::Chunk { hash: h })
            ==> !s.objects.contains_key(h),
    decreases list.len() - from,
{
    if from < list.len() && s.objects.contains_key(list[from]) {
        only_missing_chunks_are_asked_for(s, hash, list, from + 1);
    }
}

/// Content is ready only if it is there and has the digest that the record names.
pub proof fn only_genuine_content_is_ready(
    s: Shelves,
    record: Record,
    progress: Progress,
    reply: Reply,
)
    ensures
        begun(s, record).next is Ready ==> record.deleted || is_genuine(
            begun(s, record).shelves,
            record.hash,
        ),
        fed(s, record.hash, progress, reply).next is Ready ==> is_genuine(
            fed(s, record.hash, progress, reply).shelves,
            record.hash,
        ),
{
}

/// What a store answers a request for content with.
pub open spec fn served(p: Shelves, ask: Ask) -> Reply {
    match ask {
        Ask::Manifest { hash } => if p.manifests.contains_key(hash) {
            Reply::Manifest { chunks: chunks_of(p, hash) }
        } else {
            Reply::NotFound
        },
        Ask::Chunk { hash } => if p.objects.contains_key(hash) {
            Reply::Chunk { bytes: p.objects[hash] }
        } else {
            Reply::NotFound
        },
        _ => Reply::NotFound,
    }
}

/// Up to `turns` requests, each answered by the peer's store.
pub open spec fn talked(f: Fetched, hash: Seq<char>, p: Shelves, turns: nat) -> Fetched
    decreases turns,
{
    match f.next {
        Move::Ask(ask) if turns > 0 => talked(
            fed(f.shelves, hash, f.progress, served(p, ask)),
            hash,
            p,
            (turns - 1) as nat,
        ),
        _ => f,
    }
}

/// How many of the requests are asked before it is settled, or the turns run out.
pub open spec fn asks(f: Fetched, hash: Seq<char>, p: Shelves, turns: nat) -> nat
    decreases turns,
{
    match f.next {
        Move::Ask(ask) if turns > 0 => 1 + asks(
            fed(f.shelves, hash, f.progress, served(p, ask)),
            hash,
            p,
            (turns - 1) as nat,
        ),
        _ => 0,
    }
}

/// The two stores hold the same under the names that both have.
pub open spec fn agree(s: Shelves, p: Shelves) -> bool {
    forall|h: Seq<char>|
        #[trigger] s.objects.contains_key(h) && p.objects.contains_key(h) ==> s.objects[h]
            == p.objects[h]
}

/// The store can give the content away: it is genuine, and so is each of its chunks.
pub open spec fn offers(p: Shelves, hash: Seq<char>) -> bool {
    &&& is_genuine(p, hash)
    &&& forall|i: int|
        0 <= i < chunks_of(p, hash).len() ==> blake3_hex(
            p.objects[#[trigger] chunks_of(p, hash)[i]],
        ) == chunks_of(p, hash)[i]
}

/// Nothing here stands in the way of taking the content over: it is here, there is no manifest
/// for it, or the manifest lists the chunks that the peer has.
pub open spec fn can_receive(s: Shelves, p: Shelves, hash: Seq<char>) -> bool {
    ||| is_genuine(s, hash)
    ||| !s.manifests.contains_key(hash)
    ||| chunks_of(s, hash) == chunks_of(p, hash)
}

/// What was in the store is in it still.
pub open spec fn keeps(s: Shelves, t: Shelves) -> bool {
    &&& forall|h: Seq<char>| #[trigger]
        s.objects.contains_key(h) ==> t.objects.contains_key(h) && t.objects[h] == s.objects[h]
    &&& forall|h: Seq<char>| #[trigger]
        s.manifests.contains_key(h) ==> t.manifests.contains_key(h) && t.manifests[h]
            == s.manifests[h]
}

/// What came into the store are objects of the peer's, and a manifest for `hash`.
pub open spec fn came_over(s: Shelves, t: Shelves, p: Shelves, hash: Seq<char>) -> bool {
    &&& forall|h: Seq<char>| #[trigger]
        t.objects.contains_key(h) ==> s.objects.contains_key(h) || (p.objects.contains_key(h)
            && t.objects[h] == p.objects[h])
    &&& forall|h: Seq<char>| #[trigger]
        t.manifests.contains_key(h) ==> s.manifests.contains_key(h) || h == hash
}

proof fn first_missing_is(objects: Map<Seq<char>, Seq<u8>>, list: Seq<Seq<char>>, from: int)
    requires
        0 <= from <= list.len(),
    ensures
        ({
            let at = first_missing(objects, list, from);
            &&& from <= at <= list.len()
            &&& at < list.len() ==> !objects.contains_key(list[at])
            &&& forall|i: int| from <= i < at ==> objects.contains_key(#[trigger] list[i])
        }),
    decreases list.len() - from,
{
    if from < list.len() && objects.contains_key(list[from]) {
        first_missing_is(objects, list, from + 1);
    }
}

/// The rest of a list comes over, chunk by chunk.
proof fn rest_comes_over(s: Shelves, p: Shelves, hash: Seq<char>, from: int, turns: nat)
    requires
        offers(p, hash),
        well_named(s),
        well_named(p),
        !s.manifests.contains_key(hash) || chunks_of(s, hash) == chunks_of(p, hash),
        agree(s, p),
        0 <= from <= chunks_of(p, hash).len(),
        forall|i: int| 0 <= i < from ==> s.objects.contains_key(#[trigger] chunks_of(p, hash)[i]),
        turns >= chunks_of(p, hash).len() - from,
    ensures
        ({
            let f = talked(collected(s, hash, chunks_of(p, hash), from), hash, p, turns);
            &&& f.next is Ready
            &&& content(f.shelves, hash) == content(p, hash)
            &&& chunks_of(f.shelves, hash) == chunks_of(p, hash)
            &&& keeps(s, f.shelves)
            &&& came_over(s, f.shelves, p, hash)
        }),
    decreases chunks_of(p, hash).len() - from,
{
    let list = chunks_of(p, hash);
    first_missing_is(s.objects, list, from);
    let at = first_missing(s.objects, list, from);
    let f = collected(s, hash, list, from);
    if at < list.len() {
        let h = list[at];
        assert(p.objects.contains_key(h));
        let bytes = p.objects[h];
        assert(blake3_hex(bytes) == h);
        let s1 = Shelves { objects: stocked_one(s.objects, h, bytes), ..s };
        assert(well_named(s1));
        assert(agree(s1, p));
        assert(fed(s, hash, f.progress, served(p, Ask::Chunk { hash: h })) == collected(
            s1,
            hash,
            list,
            at + 1,
        ));
        rest_comes_over(s1, p, hash, at + 1, (turns - 1) as nat);
        let end = talked(f, hash, p, turns).shelves;
        assert(keeps(s1, end));
        assert forall|k: Seq<char>| #[trigger] s.objects.contains_key(k) implies (
        end.objects.contains_key(k) && end.objects[k] == s.objects[k]) by {
            assert(s1.objects.contains_key(k));
        }
        assert forall|k: Seq<char>| #[trigger] end.objects.contains_key(k) implies (
        s.objects.contains_key(k) || (p.objects.contains_key(k) && end.objects[k]
            == p.objects[k])) by {
            assert(s1.objects.contains_key(h));
        }
    } else {
        assert forall|i: int| 0 <= i < list.len() implies s.objects[#[trigger] list[i]]
            == p.objects[list[i]] by {
            assert(s.objects.contains_key(list[i]));
            assert(p.objects.contains_key(list[i]));
        }
        crate::store::assembled_same(s.objects, p.objects, list);
        named_chunks_fit(s, list);
        manifest_round_trip(list);
        let after = f.shelves;
        assert(chunks_of(after, hash) == list);
        assert(content(after, hash) == content(p, hash));
    }
}

/// A peer that has genuine content delivers it: as many turns after the manifest as it has
/// chunks, at most, and the content is genuine here too; where it was not here already, the store
/// gives the same bytes that the peer's gives. Nothing goes away, and nothing comes in but objects
/// of the peer's and the manifest.
///
/// Both stores keep their objects under digests and hold the same under the names that both have,
/// the peer's chunks are genuine, and no manifest of other chunks is in the way.
pub proof fn honest_peer_delivers(s: Shelves, p: Shelves, record: Record)
    requires
        !record.deleted,
        can_receive(s, p, record.hash),
        offers(p, record.hash),
        well_named(s),
        well_named(p),
        agree(s, p),
    ensures
        ({
            let f = talked(
                begun(s, record),
                record.hash,
                p,
                (chunks_of(p, record.hash).len() + 1) as nat,
            );
            &&& f.next is Ready
            &&& is_genuine(f.shelves, record.hash)
            &&& !is_genuine(s, record.hash) ==> content(f.shelves, record.hash) == content(
                p,
                record.hash,
            )
            &&& is_genuine(s, record.hash) || chunks_of(f.shelves, record.hash) == chunks_of(
                p,
                record.hash,
            )
            &&& keeps(s, f.shelves)
            &&& came_over(s, f.shelves, p, record.hash)
        }),
{
    let list = chunks_of(p, record.hash);
    if !is_genuine(s, record.hash) {
        rest_comes_over(s, p, record.hash, 0, list.len());
        rest_comes_over(s, p, record.hash, 0, list.len() + 1);
    }
}

/// Content that is genuine stays so while the store only grows.
pub proof fn genuine_content_stays(s: Shelves, t: Shelves, hash: Seq<char>)
    requires
        keeps(s, t),
    ensures
        holds(s, hash) ==> holds(t, hash) && content(t, hash) == content(s, hash),
        is_genuine(s, hash) ==> is_genuine(t, hash),
{
    if holds(s, hash) {
        let list = chunks_of(s, hash);
        assert forall|i: int| 0 <= i < list.len() implies s.objects[#[trigger] list[i]]
            == t.objects[list[i]] by {
            assert(s.objects.contains_key(list[i]));
        }
        crate::store::assembled_same(s.objects, t.objects, list);
        assert(chunks_of(t, hash) == list);
    }
}

/// Whatever a peer sends, objects and manifests that were there stay, and each new object has
/// the digest that it is kept under.
pub proof fn feeding_only_adds(
    s: Shelves,
    hash: Seq<char>,
    progress: Progress,
    reply: Reply,
    name: Seq<char>,
)
    ensures
        ({
            let after = fed(s, hash, progress, reply).shelves;
            &&& s.objects.contains_key(name) ==> after.objects.contains_key(name)
                && after.objects[name] == s.objects[name]
            &&& after.objects.contains_key(name) && !s.objects.contains_key(name) ==> blake3_hex(
                after.objects[name],
            ) == name
            &&& s.manifests.contains_key(name) ==> after.manifests.contains_key(name)
                && after.manifests[name] == s.manifests[name]
        }),
{
}

/// Chunks that are held in a well-named store have names that a manifest keeps.
proof fn named_chunks_fit(s: Shelves, names: Seq<Seq<char>>)
    requires
        well_named(s),
        all_held(s.objects, names),
    ensures
        forall|i: int| 0 <= i < names.len() ==> fits_line(#[trigger] names[i]),
{
    assert forall|i: int| 0 <= i < names.len() implies fits_line(#[trigger] names[i]) by {
        assert(s.objects.contains_key(names[i]));
        crate::store::digest_fits_line(names[i]);
    }
}

// ---- the turns of a fetch ------------------------------------------------------------------
/// Getting content begins with the manifest, unless there is one. Nothing is asked for of a
/// tombstone, or if the content is here and genuine.
pub proof fn fetch_begins_with_the_manifest(s: Shelves, record: Record)
    ensures
        record.deleted || is_genuine(s, record.hash) ==> begun(s, record).next is Ready && begun(
            s,
            record,
        ).shelves == s,
        !record.deleted && !s.manifests.contains_key(record.hash) ==> begun(s, record).next
            == Move::Ask(Ask::Manifest { hash: record.hash }) && begun(s, record).shelves == s
            && begun(s, record).progress is Listing,
        !record.deleted && s.manifests.contains_key(record.hash) && !is_genuine(s, record.hash)
            ==> begun(s, record) == collected(s, record.hash, chunks_of(s, record.hash), 0),
{
    if is_genuine(s, record.hash) {
        assert(s.manifests.contains_key(record.hash));
    }
}

/// The next chunk to be asked for is the first that is not held.
pub proof fn next_chunk_is_the_first_missing(
    s: Shelves,
    hash: Seq<char>,
    list: Seq<Seq<char>>,
    from: int,
    at: int,
)
    requires
        0 <= from <= at < list.len(),
        !s.objects.contains_key(list[at]),
        forall|i: int| from <= i < at ==> s.objects.contains_key(#[trigger] list[i]),
    ensures
        collected(s, hash, list, from) == (Fetched {
            shelves: s,
            progress: Progress::Collecting { list, at },
            next: Move::Ask(Ask::Chunk { hash: list[at] }),
        }),
    decreases at - from,
{
    if from < at {
        assert(s.objects.contains_key(list[from]));
        next_chunk_is_the_first_missing(s, hash, list, from + 1, at);
    }
}

/// Once no chunk is missing, the manifest is filed and the content is ready if the chunks make up
/// what the digest names; otherwise it is refused and nothing is filed.
pub proof fn content_is_ready_if_it_adds_up(s: Shelves, hash: Seq<char>, list: Seq<Seq<char>>)
    requires
        forall|i: int| 0 <= i < list.len() ==> s.objects.contains_key(#[trigger] list[i]),
    ensures
        ({
            let f = collected(s, hash, list, 0);
            let whole = blake3_hex(assembled(s.objects, list)) == hash;
            &&& whole ==> f.shelves.objects == s.objects
            &&& whole && s.manifests.contains_key(hash) ==> f.shelves.manifests == s.manifests
            &&& whole && !s.manifests.contains_key(hash) ==> f.shelves.manifests
                == s.manifests.insert(hash, crate::store::manifest_text(list))
            &&& f.next is Ready <==> whole && is_genuine(f.shelves, hash)
            &&& !(f.next is Ready) ==> f.next == Move::Refused(Blame::Content { hash })
            &&& !whole ==> f.shelves == s
        }),
{
    first_missing_is(s.objects, list, 0);
    assert(all_held(s.objects, list));
}

/// A chunk that does not have the digest that it was asked for under is refused and not kept; one
/// that does is kept, and the next is asked for; and where the peer has not got it, or answers
/// something else, nothing is kept.
pub proof fn only_the_chunk_asked_for_is_kept(
    s: Shelves,
    hash: Seq<char>,
    list: Seq<Seq<char>>,
    at: int,
    bytes: Seq<u8>,
    chunks: Seq<Seq<char>>,
)
    requires
        0 <= at < list.len(),
    ensures
        ({
            let waiting = Progress::Collecting { list, at };
            let f = fed(s, hash, waiting, Reply::Chunk { bytes });
            &&& blake3_hex(bytes) != list[at] ==> f.shelves == s && f.next == Move::Refused(
                Blame::Chunk { actual: blake3_hex(bytes), expected: list[at] },
            )
            &&& blake3_hex(bytes) == list[at] ==> f == collected(
                Shelves {
                    objects: if s.objects.contains_key(list[at]) {
                        s.objects
                    } else {
                        s.objects.insert(list[at], bytes)
                    },
                    manifests: s.manifests,
                },
                hash,
                list,
                at + 1,
            )
            &&& fed(s, hash, waiting, Reply::NotFound).next is Absent
            &&& fed(s, hash, waiting, Reply::NotFound).shelves == s
            &&& fed(s, hash, waiting, Reply::Manifest { chunks }).next is Absent
            &&& fed(s, hash, waiting, Reply::Manifest { chunks }).shelves == s
            &&& fed(s, hash, Progress::Listing, Reply::NotFound).next is Absent
            &&& fed(s, hash, Progress::Listing, Reply::NotFound).shelves == s
            &&& fed(s, hash, Progress::Listing, Reply::Chunk { bytes }).next is Absent
            &&& fed(s, hash, Progress::Listing, Reply::Chunk { bytes }).shelves == s
            &&& fed(s, hash, Progress::Listing, Reply::Manifest { chunks }) == collected(
                s,
                hash,
                chunks,
                0,
            )
        }),
{
}

/// A request for a manifest or a chunk is answered with what the store has under that name, or
/// that there is nothing.
pub proof fn requests_are_served_by_name(p: Shelves, hash: Seq<char>)
    ensures
        p.manifests.contains_key(hash) ==> served(p, Ask::Manifest { hash }) == (Reply::Manifest {
            chunks: crate::store::manifest_lines(p.manifests[hash]),
        }),
        !p.manifests.contains_key(hash) ==> served(p, Ask::Manifest { hash }) == Reply::NotFound,
        p.objects.contains_key(hash) ==> served(p, Ask::Chunk { hash }) == (Reply::Chunk {
            bytes: p.objects[hash],
        }),
        !p.objects.contains_key(hash) ==> served(p, Ask::Chunk { hash }) == Reply::NotFound,
{
}

/// A turn says what is asked for, or how the fetch ended.
pub proof fn turns_say_their_fields(req: Req, a: String, b: String)
    ensures
        Turn::Ask(req)@ == Move::Ask(req@),
        Turn::Ready@ is Ready,
        Turn::Absent@ is Absent,
        Turn::Refused(FetchError::Chunk { actual: a, expected: b })@ == Move::Refused(
            Blame::Chunk { actual: a@, expected: b@ },
        ),
        Turn::Refused(FetchError::Content { hash: a })@ == Move::Refused(
            Blame::Content { hash: a@ },
        ),
{
}

} // verus!
