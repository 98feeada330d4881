//! Content-addressed, chunked blob store.
//!
//! Content is split into content-defined chunks that are each kept under their own digest. A
//! file's full content is represented by a manifest, the ordered list of its chunk digests, kept
//! under the digest of the full content.
//!
//! Identical chunks are kept once, across files and across versions of a file, and a peer only
//! needs the chunks that it lacks: a small edit to a large file moves just the changed chunks.
//!
//! A [`BlobStore`] holds objects and manifests as they stand in the files of the store's
//! directory; [`BlobStore::object_path`] and [`BlobStore::manifest_path`] say where those files
//! are.

use crate::chunker::{cut_points, fastcdc_cuts, tiles, CHUNK_AVG, CHUNK_MAX, CHUNK_MIN};
use crate::digest::{blake3_hex, content_hash, is_digest, is_hex};
use crate::paths::{body, inside, is_safe, join, joined, parts, safe_path_stays_inside, Part};
use crate::strmap::StrMap;
use crate::text::{
    chars_of, find_is, find_unique, lines, replace, replaced, same, split_lines, text_of, texts,
    texts_push, without_cr,
};
use vstd::prelude::*;

verus! {

// ---- model ---------------------------------------------------------------------------------
/// What a store holds: objects by digest, and manifest texts by the digest of the full content.
#[verifier::ext_equal]
pub struct Shelves {
    pub objects: Map<Seq<char>, Seq<u8>>,
    pub manifests: Map<Seq<char>, Seq<char>>,
}

/// The entries of `ls` that are not empty.
pub open spec fn nonempty(ls: Seq<Seq<char>>) -> Seq<Seq<char>>
    decreases ls.len(),
{
    if ls.len() == 0 {
        Seq::empty()
    } else if ls.last().len() > 0 {
        nonempty(ls.drop_last()).push(ls.last())
    } else {
        nonempty(ls.drop_last())
    }
}

/// The chunk digests that a manifest text lists: one on each line that is not empty.
pub open spec fn manifest_lines(text: Seq<char>) -> Seq<Seq<char>> {
    nonempty(lines(text))
}

/// The manifest text for a list of chunk digests: one on each line, no newline at the end.
pub open spec fn manifest_text(chunks: Seq<Seq<char>>) -> Seq<char>
    decreases chunks.len(),
{
    if chunks.len() == 0 {
        Seq::empty()
    } else if chunks.len() == 1 {
        chunks[0]
    } else {
        chunks[0].push('\n') + manifest_text(chunks.skip(1))
    }
}

/// The objects that hold every one of `chunks`.
pub open spec fn all_held(objects: Map<Seq<char>, Seq<u8>>, chunks: Seq<Seq<char>>) -> bool {
    forall|i: int| 0 <= i < chunks.len() ==> objects.contains_key(#[trigger] chunks[i])
}

/// The bytes of `chunks`, one behind the other.
pub open spec fn assembled(objects: Map<Seq<char>, Seq<u8>>, chunks: Seq<Seq<char>>) -> Seq<u8>
    decreases chunks.len(),
{
    if chunks.len() == 0 {
        Seq::empty()
    } else {
        assembled(objects, chunks.drop_last()) + objects[chunks.last()]
    }
}

/// The chunk digests that the store's manifest of `full` lists.
pub open spec fn chunks_of(s: Shelves, full: Seq<char>) -> Seq<Seq<char>> {
    manifest_lines(s.manifests[full])
}

/// The store has the full content: its manifest, and every chunk that it lists.
pub open spec fn holds(s: Shelves, full: Seq<char>) -> bool {
    s.manifests.contains_key(full) && all_held(s.objects, chunks_of(s, full))
}

/// The full content that the store gives for a digest.
pub open spec fn content(s: Shelves, full: Seq<char>) -> Option<Seq<u8>> {
    if holds(s, full) {
        Some(assembled(s.objects, chunks_of(s, full)))
    } else {
        None
    }
}

/// The full content is held and its digest is the one it is kept under.
pub open spec fn is_genuine(s: Shelves, full: Seq<char>) -> bool {
    content(s, full) matches Some(bytes) && blake3_hex(bytes) == full
}

/// Where content is cut.
pub open spec fn cuts_of(bytes: Seq<u8>) -> Seq<(usize, usize)> {
    if bytes.len() == 0 {
        Seq::empty()
    } else {
        fastcdc_cuts(bytes, CHUNK_MIN, CHUNK_AVG, CHUNK_MAX)
    }
}

/// The pieces that a list of cuts makes of `bytes`.
pub open spec fn pieces_at(bytes: Seq<u8>, cuts: Seq<(usize, usize)>) -> Seq<Seq<u8>> {
    Seq::new(cuts.len(), |i: int| bytes.subrange(cuts[i].0 as int, cuts[i].0 + cuts[i].1))
}

/// The chunks of content.
pub open spec fn pieces_of(bytes: Seq<u8>) -> Seq<Seq<u8>> {
    pieces_at(bytes, cuts_of(bytes))
}

/// The chunks are of the sizes aimed at: none is larger than the largest, none but the last
/// smaller than the smallest, and content up to that size is one chunk.
pub open spec fn is_cut_to_size(bytes: Seq<u8>) -> bool {
    let pieces = pieces_of(bytes);
    &&& forall|i: int| 0 <= i < pieces.len() ==> 0 < (#[trigger] pieces[i]).len() <= CHUNK_MAX
    &&& forall|i: int| 0 <= i < pieces.len() - 1 ==> (#[trigger] pieces[i]).len() >= CHUNK_MIN
    &&& 0 < bytes.len() <= CHUNK_MIN ==> pieces =~= seq![bytes]
}

/// The digests of a list of chunks.
pub open spec fn digests_of(pieces: Seq<Seq<u8>>) -> Seq<Seq<char>> {
    Seq::new(pieces.len(), |i: int| blake3_hex(pieces[i]))
}

/// An object put in where its digest is not held yet.
pub open spec fn stocked_one(
    objects: Map<Seq<char>, Seq<u8>>,
    hash: Seq<char>,
    bytes: Seq<u8>,
) -> Map<Seq<char>, Seq<u8>> {
    if objects.contains_key(hash) {
        objects
    } else {
        objects.insert(hash, bytes)
    }
}

/// Chunks put in one after the other, each where its digest is not held yet.
pub open spec fn stocked(objects: Map<Seq<char>, Seq<u8>>, pieces: Seq<Seq<u8>>) -> Map<
    Seq<char>,
    Seq<u8>,
>
    decreases pieces.len(),
{
    if pieces.len() == 0 {
        objects
    } else {
        stocked_one(
            stocked(objects, pieces.drop_last()),
            blake3_hex(pieces.last()),
            pieces.last(),
        )
    }
}

/// A manifest put in where there is none for that digest.
pub open spec fn filed(
    manifests: Map<Seq<char>, Seq<char>>,
    full: Seq<char>,
    chunks: Seq<Seq<char>>,
) -> Map<Seq<char>, Seq<char>> {
    if manifests.contains_key(full) {
        manifests
    } else {
        manifests.insert(full, manifest_text(chunks))
    }
}

/// The store after content was put in.
pub open spec fn stored(s: Shelves, bytes: Seq<u8>) -> Shelves {
    if holds(s, blake3_hex(bytes)) {
        s
    } else {
        Shelves {
            objects: stocked(s.objects, pieces_of(bytes)),
            manifests: filed(s.manifests, blake3_hex(bytes), digests_of(pieces_of(bytes))),
        }
    }
}

/// Every object has the digest that it is kept under.
pub open spec fn is_sound(s: Shelves) -> bool {
    forall|h: Seq<char>| #[trigger] s.objects.contains_key(h) ==> blake3_hex(s.objects[h]) == h
}

/// Every object is kept under a name that has the form of a digest.
pub open spec fn well_named(s: Shelves) -> bool {
    forall|h: Seq<char>| #[trigger] s.objects.contains_key(h) ==> is_digest(h)
}

/// Every chunk of the content stands in `objects` under its digest.
pub open spec fn has_pieces(objects: Map<Seq<char>, Seq<u8>>, bytes: Seq<u8>) -> bool {
    forall|i: int|
        0 <= i < pieces_of(bytes).len() ==> objects[blake3_hex(#[trigger] pieces_of(bytes)[i])]
            == pieces_of(bytes)[i]
}

/// Content put into the store comes back from it. Two things can be in the way: a manifest that
/// was already there for the digest and lists something else, and an object that was already
/// there for the digest of a chunk and is something else (two byte strings with one digest).
pub open spec fn comes_back(s: Shelves, bytes: Seq<u8>) -> bool {
    let objects = stocked(s.objects, pieces_of(bytes));
    let full = blake3_hex(bytes);
    if s.manifests.contains_key(full) {
        ||| chunks_of(s, full) == digests_of(pieces_of(bytes)) && has_pieces(objects, bytes)
        ||| all_held(objects, chunks_of(s, full)) && assembled(objects, chunks_of(s, full)) == bytes
    } else {
        has_pieces(objects, bytes)
    }
}

/// No chunk of the content shares its digest with another chunk of it, or with another object of
/// the store.
pub open spec fn no_collision(s: Shelves, bytes: Seq<u8>) -> bool {
    let pieces = pieces_of(bytes);
    &&& forall|i: int, h: Seq<char>|
        0 <= i < pieces.len() && #[trigger] s.objects.contains_key(h) && blake3_hex(s.objects[h])
            == blake3_hex(#[trigger] pieces[i]) ==> s.objects[h] == pieces[i]
    &&& forall|i: int, j: int|
        0 <= i < pieces.len() && 0 <= j < pieces.len() && blake3_hex(#[trigger] pieces[i])
            == blake3_hex(#[trigger] pieces[j]) ==> pieces[i] == pieces[j]
}

// ---- lemmas --------------------------------------------------------------------------------
/// A list without empty entries is its own list of entries that are not empty.
proof fn nonempty_of_nonempty(ls: Seq<Seq<char>>)
    requires
        forall|i: int| 0 <= i < ls.len() ==> (#[trigger] ls[i]).len() > 0,
    ensures
        nonempty(ls) == ls,
    decreases ls.len(),
{
    if ls.len() > 0 {
        assert forall|i: int| 0 <= i < ls.drop_last().len() implies (
        #[trigger] ls.drop_last()[i]).len() > 0 by {
            assert(ls[i].len() > 0);
        }
        nonempty_of_nonempty(ls.drop_last());
        assert(ls.drop_last().push(ls.last()) =~= ls);
    } else {
        assert(nonempty(ls) =~= ls);
    }
}

/// A name that a manifest line keeps as it is.
pub open spec fn fits_line(name: Seq<char>) -> bool {
    name.len() > 0 && !name.contains('\n') && name.last() != '\r'
}

/// Names that fit a line come back from a manifest text as they went in.
proof fn lines_of_manifest_text(chunks: Seq<Seq<char>>)
    requires
        forall|i: int| 0 <= i < chunks.len() ==> fits_line(#[trigger] chunks[i]),
    ensures
        lines(manifest_text(chunks)) == chunks,
    decreases chunks.len(),
{
    let t = manifest_text(chunks);
    if chunks.len() == 0 {
        assert(lines(t) =~= chunks);
    } else {
        let c = chunks[0];
        assert(fits_line(c));
        if chunks.len() == 1 {
            find_is(c, '\n');
            assert(lines(t) =~= chunks);
        } else {
            let rest = chunks.skip(1);
            assert forall|i: int| 0 <= i < rest.len() implies fits_line(#[trigger] rest[i]) by {
                assert(fits_line(chunks[i + 1]));
            }
            lines_of_manifest_text(rest);
            let k = c.len() as int;
            assert forall|i: int| 0 <= i < k implies t[i] != '\n' by {
                assert(t[i] == c[i]);
                assert(c.contains(c[i]));
            }
            assert(t[k] == '\n');
            find_unique(t, '\n', k);
            assert(t.take(k) =~= c);
            assert(without_cr(c) == c);
            assert(t.skip(k + 1) =~= manifest_text(rest));
            assert(seq![c] + rest =~= chunks);
        }
    }
}

/// Digests come back from a manifest text as they went in.
pub proof fn manifest_round_trip(chunks: Seq<Seq<char>>)
    requires
        forall|i: int| 0 <= i < chunks.len() ==> fits_line(#[trigger] chunks[i]),
    ensures
        manifest_lines(manifest_text(chunks)) == chunks,
{
    lines_of_manifest_text(chunks);
    assert forall|i: int| 0 <= i < chunks.len() implies (#[trigger] chunks[i]).len() > 0 by {
        assert(fits_line(chunks[i]));
    }
    nonempty_of_nonempty(chunks);
}

/// A digest is a name that a manifest line keeps.
pub proof fn digest_fits_line(h: Seq<char>)
    requires
        is_digest(h),
    ensures
        fits_line(h),
{
    assert(is_hex(h[63]));
    if h.contains('\n') {
        let i = h.index_of('\n');
        assert(is_hex(h[i]));
    }
}

/// The text of a list with one more name.
proof fn manifest_text_push(chunks: Seq<Seq<char>>, c: Seq<char>)
    requires
        chunks.len() > 0,
    ensures
        manifest_text(chunks.push(c)) == manifest_text(chunks).push('\n') + c,
    decreases chunks.len(),
{
    let more = chunks.push(c);
    if chunks.len() == 1 {
        assert(more.skip(1) =~= seq![c]);
        assert(manifest_text(seq![c]) == c);
        assert(manifest_text(more) =~= chunks[0].push('\n') + c);
    } else {
        assert(more.skip(1) =~= chunks.skip(1).push(c));
        manifest_text_push(chunks.skip(1), c);
        assert(manifest_text(more) =~= manifest_text(chunks).push('\n') + c);
    }
}

/// Objects only get added, and what was there stays.
proof fn stocked_keeps(objects: Map<Seq<char>, Seq<u8>>, pieces: Seq<Seq<u8>>)
    ensures
        forall|h: Seq<char>| #[trigger]
            objects.contains_key(h) ==> stocked(objects, pieces).contains_key(h) && stocked(
                objects,
                pieces,
            )[h] == objects[h],
        forall|i: int|
            0 <= i < pieces.len() ==> stocked(objects, pieces).contains_key(
                blake3_hex(#[trigger] pieces[i]),
            ),
        forall|h: Seq<char>| #[trigger]
            stocked(objects, pieces).contains_key(h) && !objects.contains_key(h) ==> blake3_hex(
                stocked(objects, pieces)[h],
            ) == h,
    decreases pieces.len(),
{
    if pieces.len() > 0 {
        let p = pieces.drop_last();
        stocked_keeps(objects, p);
        assert forall|i: int| 0 <= i < pieces.len() implies stocked(objects, pieces).contains_key(
            blake3_hex(#[trigger] pieces[i]),
        ) by {
            if i < p.len() {
                assert(stocked(objects, p).contains_key(blake3_hex(p[i])));
            }
        }
        assert forall|h: Seq<char>| #[trigger]
            stocked(objects, pieces).contains_key(h) && !objects.contains_key(
                h,
            ) implies blake3_hex(stocked(objects, pieces)[h]) == h by {
            if stocked(objects, p).contains_key(h) {
                assert(blake3_hex(stocked(objects, p)[h]) == h);
            }
        }
    }
}

/// Putting in what is there already changes nothing.
proof fn stocked_again(objects: Map<Seq<char>, Seq<u8>>, pieces: Seq<Seq<u8>>)
    requires
        forall|i: int|
            0 <= i < pieces.len() ==> objects.contains_key(blake3_hex(#[trigger] pieces[i])),
    ensures
        stocked(objects, pieces) == objects,
    decreases pieces.len(),
{
    if pieces.len() > 0 {
        let p = pieces.drop_last();
        assert forall|i: int| 0 <= i < p.len() implies objects.contains_key(
            blake3_hex(#[trigger] p[i]),
        ) by {
            assert(objects.contains_key(blake3_hex(pieces[i])));
        }
        stocked_again(objects, p);
        assert(objects.contains_key(blake3_hex(pieces[pieces.len() - 1])));
    }
}

/// The pieces of a tiling make up the bytes again.
proof fn pieces_make_up(
    bytes: Seq<u8>,
    cuts: Seq<(usize, usize)>,
    objects: Map<Seq<char>, Seq<u8>>,
    n: int,
)
    requires
        tiles(cuts, bytes.len() as int),
        0 <= n <= cuts.len(),
        forall|i: int|
            0 <= i < cuts.len() ==> objects[blake3_hex(#[trigger] pieces_at(bytes, cuts)[i])]
                == pieces_at(bytes, cuts)[i],
    ensures
        ({
            let end = if n == 0 {
                0
            } else {
                cuts[n - 1].0 + cuts[n - 1].1
            };
            &&& 0 <= end <= bytes.len()
            &&& assembled(objects, digests_of(pieces_at(bytes, cuts)).take(n)) == bytes.take(end)
        }),
    decreases n,
{
    let names = digests_of(pieces_at(bytes, cuts));
    cuts_within(cuts, bytes.len() as int, n);
    if n == 0 {
        assert(names.take(0).len() == 0);
        assert(bytes.take(0) =~= Seq::<u8>::empty());
    } else {
        pieces_make_up(bytes, cuts, objects, n - 1);
        assert(names.take(n).drop_last() =~= names.take(n - 1));
        let piece = pieces_at(bytes, cuts)[n - 1];
        assert(names.take(n).last() == blake3_hex(piece));
        let start = cuts[n - 1].0 as int;
        let end = cuts[n - 1].0 + cuts[n - 1].1;
        if n > 1 {
            assert(cuts[n - 2].0 + cuts[n - 2].1 == cuts[n - 1].0);
        }
        assert(bytes.take(start) + bytes.subrange(start, end) =~= bytes.take(end));
    }
}

/// Every cut of a tiling ends within the bytes.
proof fn cuts_within(cuts: Seq<(usize, usize)>, len: int, n: int)
    requires
        tiles(cuts, len),
        0 <= n <= cuts.len(),
    ensures
        n > 0 ==> cuts[n - 1].0 + cuts[n - 1].1 <= len,
    decreases cuts.len() - n,
{
    if 0 < n < cuts.len() {
        cuts_within(cuts, len, n + 1);
        assert(cuts[n - 1].0 + cuts[n - 1].1 == cuts[n].0);
    }
}

/// Cuts of the right sizes make chunks of the right sizes.
proof fn cuts_are_to_size(bytes: Seq<u8>)
    requires
        tiles(cuts_of(bytes), bytes.len() as int),
        forall|i: int|
            0 <= i < cuts_of(bytes).len() ==> (#[trigger] cuts_of(bytes)[i]).1 <= CHUNK_MAX,
        forall|i: int|
            0 <= i < cuts_of(bytes).len() - 1 ==> (#[trigger] cuts_of(bytes)[i]).1 >= CHUNK_MIN,
    ensures
        is_cut_to_size(bytes),
{
    let cuts = cuts_of(bytes);
    let pieces = pieces_of(bytes);
    assert forall|i: int| 0 <= i < pieces.len() implies (#[trigger] pieces[i]).len()
        == cuts[i].1 by {
        cuts_within(cuts, bytes.len() as int, i + 1);
    }
    if 0 < bytes.len() <= CHUNK_MIN {
        if cuts.len() > 1 {
            cuts_within(cuts, bytes.len() as int, 2);
            assert(cuts[0].0 + cuts[0].1 == cuts[1].0);
            assert(cuts[1].1 > 0);
        }
        assert(cuts.len() == 1);
        assert(cuts[0] == cuts.last());
        assert(pieces[0] =~= bytes);
        assert(pieces =~= seq![bytes]);
    }
}

/// Stores that agree on the names give the same bytes for them.
pub(crate) proof fn assembled_same(
    a: Map<Seq<char>, Seq<u8>>,
    b: Map<Seq<char>, Seq<u8>>,
    names: Seq<Seq<char>>,
)
    requires
        forall|i: int| 0 <= i < names.len() ==> a[#[trigger] names[i]] == b[names[i]],
    ensures
        assembled(a, names) == assembled(b, names),
    decreases names.len(),
{
    if names.len() > 0 {
        let d = names.drop_last();
        assert forall|i: int| 0 <= i < d.len() implies a[#[trigger] d[i]] == b[d[i]] by {
            assert(a[names[i]] == b[names[i]]);
        }
        assembled_same(a, b, d);
        assert(a[names[names.len() - 1]] == b[names[names.len() - 1]]);
    }
}

/// Content that there was no manifest for is held once it was put in.
proof fn stored_is_held(s: Shelves, bytes: Seq<u8>)
    requires
        !s.manifests.contains_key(blake3_hex(bytes)),
        forall|i: int|
            0 <= i < pieces_of(bytes).len() ==> is_digest(blake3_hex(#[trigger] pieces_of(bytes)[i])),
    ensures
        holds(stored(s, bytes), blake3_hex(bytes)),
        chunks_of(stored(s, bytes), blake3_hex(bytes)) == digests_of(pieces_of(bytes)),
{
    let pieces = pieces_of(bytes);
    let objects = stocked(s.objects, pieces);
    let names = digests_of(pieces);
    stocked_keeps(s.objects, pieces);
    assert forall|i: int| 0 <= i < names.len() implies fits_line(#[trigger] names[i])
        && objects.contains_key(names[i]) by {
        assert(is_digest(blake3_hex(pieces[i])));
        digest_fits_line(names[i]);
        assert(objects.contains_key(blake3_hex(pieces[i])));
    }
    manifest_round_trip(names);
}

/// What `comes_back` is for.
proof fn stored_content(s: Shelves, bytes: Seq<u8>)
    requires
        comes_back(s, bytes),
        tiles(cuts_of(bytes), bytes.len() as int),
        forall|i: int|
            0 <= i < pieces_of(bytes).len() ==> is_digest(blake3_hex(#[trigger] pieces_of(bytes)[i])),
    ensures
        content(stored(s, bytes), blake3_hex(bytes)) == Some(bytes),
{
    let full = blake3_hex(bytes);
    let pieces = pieces_of(bytes);
    let objects = stocked(s.objects, pieces);
    let after = stored(s, bytes);
    stocked_keeps(s.objects, pieces);
    if holds(s, full) {
        let names = chunks_of(s, full);
        assert forall|i: int| 0 <= i < names.len() implies objects[#[trigger] names[i]]
            == s.objects[names[i]] by {
            assert(s.objects.contains_key(names[i]));
        }
        assembled_same(objects, s.objects, names);
    }
    if has_pieces(objects, bytes) {
        let names = digests_of(pieces);
        assert forall|i: int| 0 <= i < names.len() implies fits_line(#[trigger] names[i]) by {
            assert(is_digest(blake3_hex(pieces[i])));
            digest_fits_line(names[i]);
        }
        manifest_round_trip(names);
        assert forall|i: int| 0 <= i < names.len() implies objects.contains_key(
            #[trigger] names[i],
        ) by {
            assert(objects.contains_key(blake3_hex(pieces[i])));
        }
        let n = names.len() as int;
        pieces_make_up(bytes, cuts_of(bytes), objects, n);
        assert(names.take(n) =~= names);
        assert(bytes.take(bytes.len() as int) =~= bytes);
        assert(bytes.len() == 0 ==> n == 0);
    }
    assert(content(after, full) == Some(bytes));
}

// ---- the store -----------------------------------------------------------------------------
/// Why the store refused.
#[derive(Debug, PartialEq, Eq)]
pub enum StoreError {
    /// A chunk's bytes do not have the digest that it was sent under.
    ChunkMismatch { actual: String, expected: String },
    /// The full content is not there: no manifest, or a chunk is missing.
    NotInStore { hash: String },
}

/// The store's objects and manifests.
#[derive(Debug)]
pub struct BlobStore {
    root: String,
    objects: StrMap<Vec<u8>>,
    manifests: StrMap<String>,
}

impl View for BlobStore {
    type V = Shelves;

    closed spec fn view(&self) -> Shelves {
        Shelves {
            objects: Map::new(
                |h: Seq<char>| self.objects@.contains_key(h),
                |h: Seq<char>| self.objects@[h]@,
            ),
            manifests: Map::new(
                |h: Seq<char>| self.manifests@.contains_key(h),
                |h: Seq<char>| self.manifests@[h]@,
            ),
        }
    }
}

/// How many bytes of UTF-8 a character takes, up to three.
pub open spec fn width(c: char) -> int {
    if (c as u32) < 0x80 {
        1
    } else if (c as u32) < 0x800 {
        2
    } else {
        3
    }
}

fn byte_width(c: char) -> (n: u8)
    ensures
        n == width(c),
{
    let code: u32 = c as u32;
    if code < 0x80 {
        1
    } else if code < 0x800 {
        2
    } else {
        3
    }
}

/// A digest that is too short to be split: less than two bytes of UTF-8.
pub open spec fn too_short(hash: Seq<char>) -> bool {
    hash.len() == 0 || (hash.len() == 1 && width(hash[0]) == 1)
}

/// How many characters the first two bytes of UTF-8 are, where a character ends there.
pub open spec fn two_bytes(hash: Seq<char>) -> Option<int> {
    if hash.len() >= 2 && width(hash[0]) == 1 && width(hash[1]) == 1 {
        Some(2)
    } else if hash.len() >= 1 && width(hash[0]) == 2 {
        Some(1)
    } else {
        None
    }
}

/// The name is `..`.
pub open spec fn is_parent(name: Seq<char>) -> bool {
    name.len() == 2 && name[0] == '.' && name[1] == '.'
}

/// How many characters of a name go before the slash, where it can be split into two file names:
/// the first two bytes of UTF-8.
pub open spec fn split_of(hash: Seq<char>) -> Option<int> {
    match two_bytes(hash) {
        Some(n) => if hash.contains('/') || is_parent(hash.take(n)) || is_parent(hash.skip(n)) {
            None
        } else {
            Some(n)
        },
        None => None,
    }
}

/// Where the file of a name stands below its kind: `<first two>/<rest>`. Names that are too short
/// for that, and names that cannot be split into two file names (which no digest is), go to a
/// directory of their own.
pub open spec fn place(hash: Seq<char>) -> Seq<char> {
    if too_short(hash) {
        "__invalid__/"@ + hash
    } else {
        match split_of(hash) {
            Some(n) => hash.take(n).push('/') + hash.skip(n),
            None => "__invalid__/_"@ + replaced(hash, '/', '_'),
        }
    }
}

/// Where the file of a name stands: `<root>/<kind>/<first two>/<rest>`.
pub open spec fn shard(root: Seq<char>, kind: Seq<char>, hash: Seq<char>) -> Seq<char> {
    joined(joined(root, kind), place(hash))
}

/// A name with no slash in it has one component, or none.
proof fn body_of_name(y: Seq<char>)
    requires
        !y.contains('/'),
        !is_parent(y),
    ensures
        body(y).len() <= 1,
        forall|i: int| 0 <= i < body(y).len() ==> #[trigger] body(y)[i] is Name,
{
    assert forall|i: int| 0 <= i < y.len() implies y[i] != '/' by {
        assert(y.contains(y[i]));
    }
    find_unique(y, '/', y.len() as int);
    assert(crate::paths::segment(y) =~= y);
    assert(crate::paths::beyond(y) =~= Seq::<char>::empty());
    assert(body(Seq::<char>::empty()).len() == 0);
}

/// Two names with a slash between them stay below the directory they are put in.
proof fn pair_is_safe(x: Seq<char>, y: Seq<char>)
    requires
        !x.contains('/'),
        !crate::paths::is_blank(x),
        !is_parent(x),
        forall|i: int| 0 <= i < body(y).len() ==> #[trigger] body(y)[i] is Name,
    ensures
        is_safe(x.push('/') + y),
{
    let p = x.push('/') + y;
    let k = x.len() as int;
    assert forall|i: int| 0 <= i < k implies p[i] != '/' by {
        assert(p[i] == x[i]);
        assert(x.contains(x[i]));
    }
    assert(p[0] == x[0]);
    assert(p[k] == '/');
    if k > 1 {
        assert(p[1] == x[1]);
        assert(x.contains(x[1]));
    }
    assert(crate::paths::head(p).len() == 0);
    find_unique(p, '/', k);
    assert(crate::paths::segment(p) =~= x);
    assert(crate::paths::beyond(p) =~= y);
    assert(p.skip(0) =~= p);
    assert(parts(p) =~= seq![Part::Name(x)] + body(y));
}

/// Whatever the name, its file stands below its kind.
proof fn place_is_safe(hash: Seq<char>)
    ensures
        is_safe(place(hash)),
{
    reveal_strlit("__invalid__/");
    reveal_strlit("__invalid__/_");
    reveal_strlit("__invalid__");
    let dir = "__invalid__"@;
    assert("__invalid__/"@ =~= dir.push('/'));
    assert("__invalid__/_"@ =~= dir.push('/').push('_'));
    assert(dir.len() == 11);
    if too_short(hash) {
        if hash.contains('/') {
            assert(hash[0] == '/');
            find_unique(hash, '/', 0);
            assert(crate::paths::segment(hash).len() == 0);
            assert(crate::paths::beyond(hash) =~= Seq::<char>::empty());
            assert(body(Seq::<char>::empty()).len() == 0);
            assert(body(hash).len() == 0);
        } else {
            body_of_name(hash);
        }
        pair_is_safe(dir, hash);
        assert(place(hash) == dir.push('/') + hash);
    } else {
        match split_of(hash) {
            Some(n) => {
                let x = hash.take(n);
                let y = hash.skip(n);
                assert(!x.contains('/')) by {
                    if x.contains('/') {
                        let i = x.index_of('/');
                        assert(hash[i] == '/');
                    }
                }
                assert(!y.contains('/')) by {
                    if y.contains('/') {
                        let i = y.index_of('/');
                        assert(hash[i + n] == '/');
                    }
                }
                assert(!crate::paths::is_blank(x)) by {
                    if n == 1 {
                        assert(x[0] == hash[0]);
                        assert(width('.') == 1);
                    }
                }
                body_of_name(y);
                pair_is_safe(x, y);
            },
            None => {
                let y = seq!['_'] + replaced(hash, '/', '_');
                assert(!y.contains('/')) by {
                    if y.contains('/') {
                        let i = y.index_of('/');
                        if i > 0 {
                            assert(y[i] == replaced(hash, '/', '_')[i - 1]);
                        }
                    }
                }
                assert(y[0] == '_');
                body_of_name(y);
                pair_is_safe(dir, y);
                assert(place(hash) =~= dir.push('/') + y);
            },
        }
    }
}

impl BlobStore {
    /// The directory that the store's files stand in.
    pub closed spec fn root(self) -> Seq<char> {
        self.root@
    }

    /// An empty store whose files stand in `root`.
    pub fn open(root: &str) -> (r: BlobStore)
        ensures
            r.root() == root@,
            r@.objects == Map::<Seq<char>, Seq<u8>>::empty(),
            r@.manifests == Map::<Seq<char>, Seq<char>>::empty(),
    {
        let r = BlobStore {
            root: root.to_owned(),
            objects: StrMap::new(),
            manifests: StrMap::new(),
        };
        proof {
            assert(r@.objects =~= Map::<Seq<char>, Seq<u8>>::empty());
            assert(r@.manifests =~= Map::<Seq<char>, Seq<char>>::empty());
        }
        r
    }

    // ---- paths -----------------------------------------------------------------------------
    /// `<kind>/<first two>/<rest>`: sharded to avoid one giant flat directory. Whatever the name,
    /// and peers choose names, the path stays below `<root>/<kind>`.
    pub fn shard_path(&self, kind: &str, hash: &str) -> (r: String)
        ensures
            r@ == shard(self.root(), kind@, hash@),
            inside(joined(self.root(), kind@), r@),
    {
        let dir = join(self.root.as_str(), kind);
        let place = place_of(hash);
        proof {
            place_is_safe(hash@);
            safe_path_stays_inside(dir@, place@);
        }
        join(dir.as_str(), place.as_str())
    }

    /// Where the file of an object stands.
    pub fn object_path(&self, hash: &str) -> (r: String)
        ensures
            r@ == shard(self.root(), "objects"@, hash@),
            inside(joined(self.root(), "objects"@), r@),
    {
        self.shard_path("objects", hash)
    }

    /// Where the file of a manifest stands.
    pub fn manifest_path(&self, hash: &str) -> (r: String)
        ensures
            r@ == shard(self.root(), "manifests"@, hash@),
            inside(joined(self.root(), "manifests"@), r@),
    {
        self.shard_path("manifests", hash)
    }

    // ---- chunk level (used by the transport) -----------------------------------------------
    /// Whether a chunk is there.
    pub fn has_chunk(&self, hash: &str) -> (r: bool)
        ensures
            r == self@.objects.contains_key(hash@),
    {
        self.objects.get(hash).is_some()
    }

    /// The bytes of a chunk, if it is there.
    pub fn read_chunk(&self, hash: &str) -> (r: Option<Vec<u8>>)
        ensures
            match r {
                Some(b) => self@.objects.contains_key(hash@) && b@ == self@.objects[hash@],
                None => !self@.objects.contains_key(hash@),
            },
    {
        match self.objects.get(hash) {
            Some(b) => Some(vstd::slice::slice_to_vec(b.as_slice())),
            None => None,
        }
    }

    /// Store a chunk after verifying that its digest matches (a peer could send anything).
    pub fn put_chunk(&mut self, hash: &str, bytes: &[u8]) -> (r: Result<(), StoreError>)
        ensures
            final(self).root() == old(self).root(),
            r is Ok <==> blake3_hex(bytes@) == hash@,
            r is Ok ==> is_digest(hash@) && final(self)@ == (Shelves {
                objects: stocked_one(old(self)@.objects, hash@, bytes@),
                ..old(self)@
            }),
            r is Ok ==> final(self)@.objects == (if old(self)@.objects.contains_key(hash@) {
                old(self)@.objects
            } else {
                old(self)@.objects.insert(hash@, bytes@)
            }) && final(self)@.manifests == old(self)@.manifests,
            r matches Err(e) ==> final(self)@ == old(self)@
                && (e matches StoreError::ChunkMismatch { actual, expected } && actual@
                == blake3_hex(bytes@) && expected@ == hash@),
    {
        let actual = content_hash(bytes);
        if !same(actual.as_str(), hash) {
            return Err(StoreError::ChunkMismatch { actual, expected: hash.to_owned() });
        }
        self.write_object(hash, bytes);
        Ok(())
    }

    /// The chunk manifest for a full-content digest, if there is one.
    pub fn get_manifest(&self, full_hash: &str) -> (r: Option<Vec<String>>)
        ensures
            match r {
                Some(chunks) => self@.manifests.contains_key(full_hash@) && texts(chunks@)
                    == chunks_of(self@, full_hash@),
                None => !self@.manifests.contains_key(full_hash@),
            },
    {
        match self.manifests.get(full_hash) {
            Some(text) => Some(parse_manifest(text.as_str())),
            None => None,
        }
    }

    /// Store a manifest (list of chunk digests) for a full-content digest, unless there is one.
    pub fn put_manifest(&mut self, full_hash: &str, chunks: &Vec<String>)
        ensures
            final(self).root() == old(self).root(),
            final(self)@ == (Shelves {
                manifests: filed(old(self)@.manifests, full_hash@, texts(chunks@)),
                ..old(self)@
            }),
    {
        let ghost was = self@;
        if self.manifests.get(full_hash).is_some() {
            return;
        }
        let text = render_manifest(chunks);
        self.manifests.insert(full_hash.to_owned(), text);
        proof {
            assert(self@.objects =~= was.objects);
            assert(self@.manifests =~= filed(was.manifests, full_hash@, texts(chunks@)));
        }
    }

    // ---- whole-file level ------------------------------------------------------------------
    /// Is the full content there (manifest present and every chunk it lists)?
    pub fn has(&self, full_hash: &str) -> (r: bool)
        ensures
            r == holds(self@, full_hash@),
    {
        match self.get_manifest(full_hash) {
            Some(chunks) => self.has_all(&chunks),
            None => false,
        }
    }

    fn has_all(&self, chunks: &Vec<String>) -> (r: bool)
        ensures
            r == all_held(self@.objects, texts(chunks@)),
    {
        let mut i: usize = 0;
        while i < chunks.len()
            invariant
                i <= chunks@.len(),
                forall|j: int|
                    0 <= j < i ==> self@.objects.contains_key(#[trigger] texts(chunks@)[j]),
            decreases chunks@.len() - i,
        {
            if !self.has_chunk(chunks[i].as_str()) {
                proof {
                    assert(texts(chunks@)[i as int] == chunks@[i as int]@);
                }
                return false;
            }
            i += 1;
        }
        true
    }

    /// Chunk `bytes`, store the chunks and the manifest, and return the full-content digest.
    /// Idempotent.
    pub fn put_bytes(&mut self, bytes: &[u8]) -> (full: String)
        ensures
            full@ == blake3_hex(bytes@),
            is_digest(full@),
            final(self).root() == old(self).root(),
            final(self)@ == stored(old(self)@, bytes@),
            !old(self)@.manifests.contains_key(full@) ==> holds(final(self)@, full@),
            comes_back(old(self)@, bytes@) ==> content(final(self)@, full@) == Some(bytes@),
            is_cut_to_size(bytes@),
            bytes@.len() > 0 && !old(self)@.manifests.contains_key(full@) ==> ({
                let cuts = fastcdc_cuts(bytes@, 2048, 8192, 65536);
                &&& chunks_of(final(self)@, full@).len() == cuts.len()
                &&& forall|i: int|
                    0 <= i < cuts.len() ==> #[trigger] chunks_of(final(self)@, full@)[i]
                        == blake3_hex(
                        bytes@.subrange(cuts[i].0 as int, cuts[i].0 + cuts[i].1),
                    )
                &&& forall|i: int|
                    0 <= i < cuts.len() ==> final(self)@.objects.contains_key(
                        blake3_hex(
                            bytes@.subrange((#[trigger] cuts[i]).0 as int, cuts[i].0 + cuts[i].1),
                        ),
                    )
            }),
    {
        let full = content_hash(bytes);
        let ghost was = self@;
        let ghost pieces = pieces_of(bytes@);
        let cuts: Vec<(usize, usize)> = if bytes.len() == 0 {
            Vec::new()
        } else {
            cut_points(bytes, CHUNK_MIN, CHUNK_AVG, CHUNK_MAX)
        };
        proof {
            assert(cuts@ =~= cuts_of(bytes@));
        }
        let names = chunk_names(bytes, &cuts);
        let total: usize = bytes.len();
        proof {
            cuts_are_to_size(bytes@);
        }
        if self.has(full.as_str()) {
            proof {
                if comes_back(was, bytes@) {
                    stored_content(was, bytes@);
                }
            }
            return full;
        }
        let mut i: usize = 0;
        proof {
            assert(pieces.take(0).len() == 0);
            assert(texts(names@).len() == cuts@.len());
        }
        while i < cuts.len()
            invariant
                i <= cuts@.len(),
                total == bytes@.len(),
                cuts@ == cuts_of(bytes@),
                tiles(cuts@, bytes@.len() as int),
                pieces == pieces_of(bytes@),
                names@.len() == cuts@.len(),
                texts(names@) == digests_of(pieces),
                self.root() == old(self).root(),
                self@.objects == stocked(was.objects, pieces.take(i as int)),
                self@.manifests == was.manifests,
            decreases cuts@.len() - i,
        {
            let (offset, length) = cuts[i];
            proof {
                cuts_within(cuts@, bytes@.len() as int, i + 1);
                assert(pieces[i as int] == bytes@.subrange(offset as int, offset + length));
                assert(texts(names@)[i as int] == blake3_hex(pieces[i as int]));
                assert(pieces.take(i + 1).drop_last() =~= pieces.take(i as int));
            }
            let slice = vstd::slice::slice_subrange(bytes, offset, offset + length);
            self.write_object(names[i].as_str(), slice);
            i += 1;
        }
        proof {
            assert(pieces.take(cuts@.len() as int) =~= pieces);
        }
        self.put_manifest(full.as_str(), &names);
        proof {
            assert(self@ =~= stored(was, bytes@));
            if !was.manifests.contains_key(full@) {
                stored_is_held(was, bytes@);
                let listed = chunks_of(self@, full@);
                if bytes@.len() > 0 {
                    let all = fastcdc_cuts(bytes@, 2048, 8192, 65536);
                    assert(listed == digests_of(pieces));
                    assert(all == cuts@);
                    assert forall|i: int| 0 <= i < all.len() implies #[trigger] listed[i]
                        == blake3_hex(
                        bytes@.subrange(all[i].0 as int, all[i].0 + all[i].1),
                    ) by {
                        assert(pieces[i] == bytes@.subrange(all[i].0 as int, all[i].0 + all[i].1));
                    }
                    assert forall|i: int| 0 <= i < all.len() implies self@.objects.contains_key(
                        blake3_hex(
                            bytes@.subrange((#[trigger] all[i]).0 as int, all[i].0 + all[i].1),
                        ),
                    ) by {
                        assert(self@.objects.contains_key(listed[i]));
                    }
                }
            }
            if comes_back(was, bytes@) {
                stored_content(was, bytes@);
            }
        }
        full
    }

    /// Reassemble full content from its chunks, if all of them are there.
    pub fn read(&self, full_hash: &str) -> (r: Option<Vec<u8>>)
        ensures
            match r {
                Some(b) => content(self@, full_hash@) == Some(b@),
                None => content(self@, full_hash@) is None,
            },
    {
        let chunks = match self.get_manifest(full_hash) {
            Some(c) => c,
            None => {
                return None;
            },
        };
        self.assemble(&chunks)
    }

    /// The bytes of `chunks`, one behind the other, if all of them are there.
    pub fn assemble(&self, chunks: &Vec<String>) -> (r: Option<Vec<u8>>)
        ensures
            match r {
                Some(b) => all_held(self@.objects, texts(chunks@)) && b@ == assembled(
                    self@.objects,
                    texts(chunks@),
                ),
                None => !all_held(self@.objects, texts(chunks@)),
            },
    {
        let mut out: Vec<u8> = Vec::new();
        let ghost names = texts(chunks@);
        let mut i: usize = 0;
        proof {
            assert(names.take(0).len() == 0);
        }
        while i < chunks.len()
            invariant
                i <= chunks@.len(),
                names == texts(chunks@),
                forall|j: int| 0 <= j < i ==> self@.objects.contains_key(#[trigger] names[j]),
                out@ == assembled(self@.objects, names.take(i as int)),
            decreases chunks@.len() - i,
        {
            proof {
                assert(names[i as int] == chunks@[i as int]@);
            }
            match self.objects.get(chunks[i].as_str()) {
                Some(bytes) => {
                    append_bytes(&mut out, bytes);
                    proof {
                        assert(names.take(i + 1).drop_last() =~= names.take(i as int));
                        assert(names.take(i + 1).last() == names[i as int]);
                    }
                },
                None => {
                    return None;
                },
            }
            i += 1;
        }
        proof {
            assert(names.take(chunks@.len() as int) =~= names);
        }
        Some(out)
    }

    /// Whether the full content is there and really has the digest that it is kept under. A
    /// manifest can point any digest at chunks that are each genuine.
    pub fn verify_content(&self, full_hash: &str) -> (r: bool)
        ensures
            r == is_genuine(self@, full_hash@),
    {
        match self.read(full_hash) {
            Some(bytes) => {
                let actual = content_hash(bytes.as_slice());
                same(actual.as_str(), full_hash)
            },
            None => false,
        }
    }

    /// The full content that a file is to be written with.
    pub fn materialize(&self, full_hash: &str) -> (r: Result<Vec<u8>, StoreError>)
        ensures
            match r {
                Ok(b) => content(self@, full_hash@) == Some(b@),
                Err(e) => content(self@, full_hash@) is None && (e matches StoreError::NotInStore {
                    hash,
                } && hash@ == full_hash@),
            },
    {
        match self.read(full_hash) {
            Some(bytes) => Ok(bytes),
            None => Err(StoreError::NotInStore { hash: full_hash.to_owned() }),
        }
    }

    // ---- the files behind it ---------------------------------------------------------------
    /// Takes in an object as its file holds it.
    pub fn restore_object(&mut self, hash: &str, bytes: Vec<u8>)
        ensures
            final(self).root() == old(self).root(),
            final(self)@ == (Shelves {
                objects: old(self)@.objects.insert(hash@, bytes@),
                ..old(self)@
            }),
    {
        let ghost was = self@;
        let ghost b = bytes@;
        self.objects.insert(hash.to_owned(), bytes);
        proof {
            assert(self@.objects =~= was.objects.insert(hash@, b));
            assert(self@.manifests =~= was.manifests);
        }
    }

    /// Takes in a manifest as its file holds it.
    pub fn restore_manifest(&mut self, full_hash: &str, text: String)
        ensures
            final(self).root() == old(self).root(),
            final(self)@ == (Shelves {
                manifests: old(self)@.manifests.insert(full_hash@, text@),
                ..old(self)@
            }),
    {
        let ghost was = self@;
        let ghost t = text@;
        self.manifests.insert(full_hash.to_owned(), text);
        proof {
            assert(self@.objects =~= was.objects);
            assert(self@.manifests =~= was.manifests.insert(full_hash@, t));
        }
    }

    /// How many objects there are.
    pub fn object_count(&self) -> (n: usize)
        ensures
            n == self.object_names().len(),
            crate::strmap::ascending(self.object_names()),
            forall|h: Seq<char>|
                self@.objects.contains_key(h) <==> self.object_names().contains(h),
    {
        let n = self.objects.len();
        proof {
            assert forall|h: Seq<char>|
                self@.objects.contains_key(h) == self.object_names().contains(h) by {
                assert(self.objects@.contains_key(h) == self.objects.keys().contains(h));
            }
        }
        n
    }

    /// The digests of the objects, in order.
    pub closed spec fn object_names(self) -> Seq<Seq<char>> {
        self.objects.keys()
    }

    /// The object at a place in the order of digests.
    pub fn object_at(&self, i: usize) -> (r: (&str, &Vec<u8>))
        requires
            i < self.object_names().len(),
        ensures
            r.0@ == self.object_names()[i as int],
            self@.objects.contains_key(r.0@),
            r.1@ == self@.objects[r.0@],
    {
        self.objects.entry(i)
    }

    /// The digests that there is a manifest for, in order.
    pub closed spec fn manifest_names(self) -> Seq<Seq<char>> {
        self.manifests.keys()
    }

    /// How many manifests there are.
    pub fn manifest_count(&self) -> (n: usize)
        ensures
            n == self.manifest_names().len(),
            crate::strmap::ascending(self.manifest_names()),
            forall|h: Seq<char>|
                self@.manifests.contains_key(h) <==> self.manifest_names().contains(h),
    {
        let n = self.manifests.len();
        proof {
            assert forall|h: Seq<char>|
                self@.manifests.contains_key(h) == self.manifest_names().contains(h) by {
                assert(self.manifests@.contains_key(h) == self.manifests.keys().contains(h));
            }
        }
        n
    }

    /// The manifest text at a place in the order of digests.
    pub fn manifest_at(&self, i: usize) -> (r: (&str, &String))
        requires
            i < self.manifest_names().len(),
        ensures
            r.0@ == self.manifest_names()[i as int],
            self@.manifests.contains_key(r.0@),
            r.1@ == self@.manifests[r.0@],
    {
        self.manifests.entry(i)
    }

    // ---- internals -------------------------------------------------------------------------
    /// Keep a chunk under `hash`, if there is none yet.
    fn write_object(&mut self, hash: &str, bytes: &[u8])
        ensures
            final(self).root() == old(self).root(),
            final(self)@ == (Shelves {
                objects: stocked_one(old(self)@.objects, hash@, bytes@),
                ..old(self)@
            }),
    {
        let ghost was = self@;
        if self.objects.get(hash).is_some() {
            return;
        }
        self.objects.insert(hash.to_owned(), vstd::slice::slice_to_vec(bytes));
        proof {
            assert(self@.objects =~= stocked_one(was.objects, hash@, bytes@));
            assert(self@.manifests =~= was.manifests);
        }
    }
}

/// Where the file of a name stands below its kind.
fn place_of(hash: &str) -> (r: String)
    ensures
        r@ == place(hash@),
{
    let v = chars_of(hash);
    if v.len() == 0 || (v.len() == 1 && byte_width(v[0]) == 1) {
        let mut r = "__invalid__/".to_owned();
        vstd::string::StringExecFns::append(&mut r, hash);
        return r;
    }
    let n: usize = if byte_width(v[0]) == 2 {
        1
    } else if byte_width(v[0]) == 1 && byte_width(v[1]) == 1 {
        2
    } else {
        0
    };
    let mut splits = n > 0 && !(n == 2 && v[0] == '.' && v[1] == '.') && !(v.len() == n + 2 && v[n]
        == '.' && v[n + 1] == '.');
    let mut i: usize = 0;
    let ghost split = splits;
    while i < v.len()
        invariant
            i <= v@.len(),
            splits == (split && forall|j: int| 0 <= j < i ==> #[trigger] v@[j] != '/'),
        decreases v@.len() - i,
    {
        if v[i] == '/' {
            splits = false;
        }
        i += 1;
    }
    proof {
        assert((forall|j: int| 0 <= j < v@.len() ==> #[trigger] v@[j] != '/') == !v@.contains('/'));
        if n > 0 {
            let x = hash@.take(n as int);
            let y = hash@.skip(n as int);
            assert(two_bytes(hash@) == Some(n as int));
            assert(n == 2 ==> x[0] == v@[0] && x[1] == v@[1]);
            assert(is_parent(x) == (n == 2 && v@[0] == '.' && v@[1] == '.'));
            assert(y.len() == 2 ==> y[0] == v@[n as int] && y[1] == v@[n + 1]);
        } else {
            assert(two_bytes(hash@) is None);
        }
        assert(splits == (split_of(hash@) is Some));
    }
    if !splits {
        let mut r = "__invalid__/_".to_owned();
        let name = replace(hash, '/', '_');
        vstd::string::StringExecFns::append(&mut r, name.as_str());
        return r;
    }
    let mut r = text_of(&v, 0, n);
    let rest = text_of(&v, n, v.len());
    proof {
        assert(r@ =~= hash@.take(n as int));
        assert(rest@ =~= hash@.skip(n as int));
    }
    r.push('/');
    vstd::string::StringExecFns::append(&mut r, rest.as_str());
    r
}

/// The digests of the chunks that `cuts` makes of `bytes`.
fn chunk_names(bytes: &[u8], cuts: &Vec<(usize, usize)>) -> (names: Vec<String>)
    requires
        tiles(cuts@, bytes@.len() as int),
    ensures
        texts(names@) == digests_of(pieces_at(bytes@, cuts@)),
        forall|i: int|
            0 <= i < cuts@.len() ==> is_digest(blake3_hex(#[trigger] pieces_at(bytes@, cuts@)[i])),
{
    let ghost pieces = pieces_at(bytes@, cuts@);
    let total: usize = bytes.len();
    let mut names: Vec<String> = Vec::new();
    let mut i: usize = 0;
    while i < cuts.len()
        invariant
            i <= cuts@.len(),
            total == bytes@.len(),
            tiles(cuts@, bytes@.len() as int),
            pieces == pieces_at(bytes@, cuts@),
            names@.len() == i,
            forall|j: int| 0 <= j < i ==> (#[trigger] names@[j])@ == blake3_hex(pieces[j]),
            forall|j: int| 0 <= j < i ==> is_digest(blake3_hex(#[trigger] pieces[j])),
        decreases cuts@.len() - i,
    {
        let (offset, length) = cuts[i];
        proof {
            cuts_within(cuts@, bytes@.len() as int, i + 1);
        }
        let slice = vstd::slice::slice_subrange(bytes, offset, offset + length);
        proof {
            assert(slice@ =~= pieces[i as int]);
        }
        names.push(content_hash(slice));
        i += 1;
    }
    proof {
        assert(texts(names@) =~= digests_of(pieces));
    }
    names
}

fn append_bytes(out: &mut Vec<u8>, bytes: &Vec<u8>)
    ensures
        final(out)@ == old(out)@ + bytes@,
{
    let ghost was = out@;
    out.extend_from_slice(bytes.as_slice());
    proof {
        assert(out@ =~= was + bytes@);
    }
}

/// Reads the chunk digests off a manifest text.
pub fn parse_manifest(text: &str) -> (out: Vec<String>)
    ensures
        texts(out@) == manifest_lines(text@),
{
    let all = split_lines(text);
    let ghost ls = texts(all@);
    let mut out: Vec<String> = Vec::new();
    let mut i: usize = 0;
    proof {
        assert(texts(out@) =~= nonempty(ls.take(0)));
    }
    while i < all.len()
        invariant
            i <= all@.len(),
            ls == texts(all@),
            texts(out@) == nonempty(ls.take(i as int)),
        decreases all@.len() - i,
    {
        proof {
            assert(ls.take(i + 1).drop_last() =~= ls.take(i as int));
            assert(ls.take(i + 1).last() == all@[i as int]@);
        }
        if !all[i].as_str().is_empty() {
            let line = all[i].clone();
            proof {
                texts_push(out@, line);
            }
            out.push(line);
        }
        i += 1;
    }
    proof {
        assert(ls.take(all@.len() as int) =~= ls);
    }
    out
}

/// Writes a list of chunk digests as a manifest text.
pub fn render_manifest(chunks: &Vec<String>) -> (text: String)
    ensures
        text@ == manifest_text(texts(chunks@)),
{
    let ghost names = texts(chunks@);
    let mut text = String::new();
    let mut i: usize = 0;
    proof {
        assert(names.take(0).len() == 0);
    }
    while i < chunks.len()
        invariant
            i <= chunks@.len(),
            names == texts(chunks@),
            text@ == manifest_text(names.take(i as int)),
        decreases chunks@.len() - i,
    {
        proof {
            assert(names.take(i + 1) =~= names.take(i as int).push(names[i as int]));
            if i > 0 {
                manifest_text_push(names.take(i as int), names[i as int]);
            }
        }
        if i > 0 {
            text.push('\n');
        }
        vstd::string::StringExecFns::append(&mut text, chunks[i].as_str());
        proof {
            assert(text@ =~= manifest_text(names.take(i + 1)));
        }
        i += 1;
    }
    proof {
        assert(names.take(chunks@.len() as int) =~= names);
    }
    text
}

// ---- laws ----------------------------------------------------------------------------------
/// Names of three or more hex digits stand at `<root>/<kind>/<first two>/<rest>`, and different
/// names at different paths.
pub proof fn hex_names_have_their_own_files(
    root: Seq<char>,
    kind: Seq<char>,
    a: Seq<char>,
    b: Seq<char>,
)
    requires
        a.len() >= 3,
        b.len() >= 3,
        forall|i: int| 0 <= i < a.len() ==> is_hex(#[trigger] a[i]),
        forall|i: int| 0 <= i < b.len() ==> is_hex(#[trigger] b[i]),
    ensures
        shard(root, kind, a) == joined(joined(joined(root, kind), a.take(2)), a.skip(2)),
        shard(root, kind, a) == shard(root, kind, b) ==> a == b,
{
    hex_name_splits(a);
    hex_name_splits(b);
    let base = joined(root, kind);
    let pa = place(a);
    let pb = place(b);
    assert(is_hex(a[0]) && is_hex(a[1]) && is_hex(a[2]));
    assert(is_hex(b[0]));
    assert(pa[0] == a[0]);
    assert(pb[0] == b[0]);
    assert(a.take(2)[0] == a[0]);
    assert(a.skip(2)[0] == a[2]);
    assert(joined(base, a.take(2)).last() == a[1]);
    assert(shard(root, kind, a) =~= joined(joined(base, a.take(2)), a.skip(2)));
    if shard(root, kind, a) == shard(root, kind, b) {
        let sa = shard(root, kind, a);
        let n = sa.len() - pa.len();
        assert(pa =~= sa.skip(n as int));
        assert(pb =~= sa.skip(n as int));
        assert(a.len() == b.len());
        assert forall|i: int| 0 <= i < a.len() implies a[i] == b[i] by {
            if i < 2 {
                assert(pa[i] == a[i] && pb[i] == b[i]);
            } else {
                assert(pa[i + 1] == a[i] && pb[i + 1] == b[i]);
            }
        }
        assert(a =~= b);
    }
}

proof fn hex_name_splits(a: Seq<char>)
    requires
        a.len() >= 3,
        forall|i: int| 0 <= i < a.len() ==> is_hex(#[trigger] a[i]),
    ensures
        place(a) == a.take(2).push('/') + a.skip(2),
{
    assert(is_hex(a[0]) && is_hex(a[1]) && is_hex(a[2]));
    assert(!a.contains('/')) by {
        if a.contains('/') {
            let i = a.index_of('/');
            assert(is_hex(a[i]));
        }
    }
    assert(a.take(2)[0] == a[0]);
    assert(a.skip(2)[0] == a[2]);
}

/// Putting the same content in again changes nothing.
pub proof fn storing_again_changes_nothing(s: Shelves, bytes: Seq<u8>)
    ensures
        stored(stored(s, bytes), bytes) == stored(s, bytes),
{
    let once = stored(s, bytes);
    if !holds(s, blake3_hex(bytes)) {
        stocked_keeps(s.objects, pieces_of(bytes));
        stocked_again(once.objects, pieces_of(bytes));
        assert(stored(once, bytes) =~= once);
    }
}

/// Putting content in removes and changes nothing that the store had.
pub proof fn storing_keeps_everything(s: Shelves, bytes: Seq<u8>, hash: Seq<char>)
    ensures
        s.objects.contains_key(hash) ==> stored(s, bytes).objects.contains_key(hash) && stored(
            s,
            bytes,
        ).objects[hash] == s.objects[hash],
        s.manifests.contains_key(hash) ==> stored(s, bytes).manifests.contains_key(hash) && stored(
            s,
            bytes,
        ).manifests[hash] == s.manifests[hash],
        content(s, hash) is Some ==> content(stored(s, bytes), hash) == content(s, hash),
{
    stocked_keeps(s.objects, pieces_of(bytes));
    let t = stored(s, bytes);
    if content(s, hash) is Some {
        let names = chunks_of(s, hash);
        assert(chunks_of(t, hash) == names);
        assert forall|i: int| 0 <= i < names.len() implies t.objects.contains_key(
            #[trigger] names[i],
        ) && t.objects[names[i]] == s.objects[names[i]] by {
            assert(s.objects.contains_key(names[i]));
        }
        assembled_same(s.objects, t.objects, names);
    }
}

/// In a store whose objects are genuine, and whose manifest of the content, if it has one, lists
/// the content's chunks, what was put in comes back, unless two byte strings share a digest.
pub proof fn sound_store_gives_content_back(s: Shelves, bytes: Seq<u8>)
    requires
        is_sound(s),
        no_collision(s, bytes),
        s.manifests.contains_key(blake3_hex(bytes)) ==> chunks_of(s, blake3_hex(bytes))
            == digests_of(pieces_of(bytes)),
    ensures
        comes_back(s, bytes),
{
    let pieces = pieces_of(bytes);
    let objects = stocked(s.objects, pieces);
    stocked_keeps(s.objects, pieces);
    assert forall|i: int| 0 <= i < pieces.len() implies objects[blake3_hex(#[trigger] pieces[i])]
        == pieces[i] by {
        let h = blake3_hex(pieces[i]);
        assert(objects.contains_key(h));
        if s.objects.contains_key(h) {
            assert(blake3_hex(s.objects[h]) == h);
        } else {
            stocked_adds(s.objects, pieces, h);
            let j = pieces.index_of(objects[h]);
            assert(blake3_hex(pieces[j]) == h);
        }
    }
}

/// Only chunks that were missing are added: an object that is new is a chunk of the content.
pub proof fn storing_adds_only_missing_chunks(s: Shelves, bytes: Seq<u8>, hash: Seq<char>)
    requires
        stored(s, bytes).objects.contains_key(hash),
        !s.objects.contains_key(hash),
    ensures
        pieces_of(bytes).contains(stored(s, bytes).objects[hash]),
        blake3_hex(stored(s, bytes).objects[hash]) == hash,
{
    stocked_keeps(s.objects, pieces_of(bytes));
    stocked_adds(s.objects, pieces_of(bytes), hash);
}

proof fn stocked_adds(objects: Map<Seq<char>, Seq<u8>>, pieces: Seq<Seq<u8>>, hash: Seq<char>)
    requires
        stocked(objects, pieces).contains_key(hash),
        !objects.contains_key(hash),
    ensures
        pieces.contains(stocked(objects, pieces)[hash]),
    decreases pieces.len(),
{
    if pieces.len() > 0 {
        let p = pieces.drop_last();
        if stocked(objects, p).contains_key(hash) {
            stocked_adds(objects, p, hash);
            let b = stocked(objects, p)[hash];
            let i = p.index_of(b);
            assert(pieces[i] == b);
        } else {
            assert(pieces[pieces.len() - 1] == stocked(objects, pieces)[hash]);
        }
    }
}

/// Putting content in keeps every object under its own digest.
pub proof fn storing_keeps_the_store_sound(s: Shelves, bytes: Seq<u8>)
    requires
        is_sound(s),
    ensures
        is_sound(stored(s, bytes)),
{
    stocked_keeps(s.objects, pieces_of(bytes));
}

/// A chunk that was accepted keeps every object under its own digest.
pub proof fn accepted_chunk_keeps_the_store_sound(s: Shelves, bytes: Seq<u8>)
    requires
        is_sound(s),
    ensures
        is_sound(
            Shelves { objects: stocked_one(s.objects, blake3_hex(bytes), bytes), ..s },
        ),
{
}

/// A manifest that lists chunks of other content is found out: if its chunks make up `bytes`,
/// it is genuine only under the digest of `bytes`.
pub proof fn lying_manifest_is_found_out(s: Shelves, full: Seq<char>, bytes: Seq<u8>)
    requires
        content(s, full) == Some(bytes),
        blake3_hex(bytes) != full,
    ensures
        !is_genuine(s, full),
{
}

// ---- what the store's parts say ------------------------------------------------------------
/// Content is cut where FastCDC cuts it with the sizes 2048, 8192 and 65536; nothing is cut of no
/// content.
pub proof fn content_is_cut_by_fastcdc(bytes: Seq<u8>, i: int)
    ensures
        bytes.len() == 0 ==> pieces_of(bytes).len() == 0,
        bytes.len() > 0 ==> pieces_of(bytes).len() == fastcdc_cuts(bytes, 2048, 8192, 65536).len(),
        bytes.len() > 0 && 0 <= i < pieces_of(bytes).len() ==> ({
            let cut = fastcdc_cuts(bytes, 2048, 8192, 65536)[i];
            pieces_of(bytes)[i] == bytes.subrange(cut.0 as int, cut.0 + cut.1)
        }),
{
}

/// A manifest names the chunks one behind the other, with a newline between any two.
pub proof fn manifest_has_a_line_for_each_chunk(one: Seq<char>, chunks: Seq<Seq<char>>)
    ensures
        manifest_text(Seq::<Seq<char>>::empty()).len() == 0,
        manifest_text(seq![one]) == one,
        chunks.len() > 0 ==> manifest_text(seq![one] + chunks) == one + seq!['\n'] + manifest_text(
            chunks,
        ),
{
    let all = seq![one] + chunks;
    assert(all.skip(1) =~= chunks);
    assert(all[0] == one);
    assert(one.push('\n') =~= one + seq!['\n']);
}

/// A manifest lists its lines in order, but for those that are empty.
pub proof fn manifest_lists_its_lines(line: Seq<char>, rest: Seq<char>)
    requires
        !line.contains('\n'),
        line.len() > 0 ==> line.last() != '\r',
    ensures
        manifest_lines(Seq::<char>::empty()).len() == 0,
        line.len() > 0 ==> manifest_lines(line) == seq![line],
        line.len() > 0 ==> manifest_lines(line + seq!['\n'] + rest) == seq![line] + manifest_lines(
            rest,
        ),
        line.len() == 0 ==> manifest_lines(line + seq!['\n'] + rest) == manifest_lines(rest),
{
    crate::text::lines_end_at_newlines(line, rest);
    crate::text::lines_end_at_newlines(Seq::<char>::empty(), rest);
    assert(line.push('\n') + rest =~= line + seq!['\n'] + rest);
    let one = seq![line];
    assert(one.drop_last() =~= Seq::<Seq<char>>::empty());
    assert(nonempty(Seq::<Seq<char>>::empty()) =~= Seq::<Seq<char>>::empty());
    assert(nonempty(one) =~= if line.len() > 0 {
        one
    } else {
        Seq::<Seq<char>>::empty()
    });
    nonempty_of_both(one, lines(rest));
    assert(Seq::<Seq<char>>::empty() + nonempty(lines(rest)) =~= nonempty(lines(rest)));
}

proof fn nonempty_of_both(a: Seq<Seq<char>>, b: Seq<Seq<char>>)
    ensures
        nonempty(a + b) == nonempty(a) + nonempty(b),
    decreases b.len(),
{
    if b.len() == 0 {
        assert(a + b =~= a);
        assert(nonempty(a) + nonempty(b) =~= nonempty(a));
    } else {
        assert((a + b).drop_last() =~= a + b.drop_last());
        assert((a + b).last() == b.last());
        nonempty_of_both(a, b.drop_last());
        assert(nonempty(a + b) =~= nonempty(a) + nonempty(b));
    }
}

/// Content is put together from the bytes of its chunks, in order.
pub proof fn chunks_are_put_together_in_order(
    objects: Map<Seq<char>, Seq<u8>>,
    a: Seq<Seq<char>>,
    b: Seq<Seq<char>>,
    one: Seq<char>,
)
    ensures
        assembled(objects, Seq::<Seq<char>>::empty()).len() == 0,
        assembled(objects, seq![one]) == objects[one],
        assembled(objects, a + b) == assembled(objects, a) + assembled(objects, b),
    decreases b.len(),
{
    let s = seq![one];
    assert(s.drop_last() =~= Seq::<Seq<char>>::empty());
    assert(assembled(objects, s.drop_last()) =~= Seq::<u8>::empty());
    assert(Seq::<u8>::empty() + objects[one] =~= objects[one]);
    if b.len() == 0 {
        assert(a + b =~= a);
        assert(assembled(objects, a) + assembled(objects, b) =~= assembled(objects, a));
    } else {
        chunks_are_put_together_in_order(objects, a, b.drop_last(), one);
        assert((a + b).drop_last() =~= a + b.drop_last());
        assert((a + b).last() == b.last());
        assert(assembled(objects, a + b) =~= assembled(objects, a) + assembled(objects, b));
    }
}

/// The store gives content exactly if it has the manifest and every chunk that it lists, and then
/// gives the chunks' bytes; the content is genuine if they have the digest that was asked for.
pub proof fn content_is_what_the_manifest_lists(s: Shelves, full: Seq<char>)
    ensures
        ({
            let listed = manifest_lines(s.manifests[full]);
            let there = s.manifests.contains_key(full) && forall|i: int|
                0 <= i < listed.len() ==> s.objects.contains_key(#[trigger] listed[i]);
            &&& chunks_of(s, full) == listed
            &&& holds(s, full) <==> there
            &&& there ==> content(s, full) == Some(assembled(s.objects, listed))
            &&& !there ==> content(s, full) is None
            &&& is_genuine(s, full) <==> there && blake3_hex(assembled(s.objects, listed)) == full
        }),
{
}

/// A chunk goes in under its digest where there is none yet, and nothing else changes; so does a
/// manifest.
pub proof fn what_is_there_stays(
    s: Shelves,
    pieces: Seq<Seq<u8>>,
    piece: Seq<u8>,
    full: Seq<char>,
    chunks: Seq<Seq<char>>,
)
    ensures
        stocked(s.objects, Seq::<Seq<u8>>::empty()) == s.objects,
        stocked(s.objects, pieces).contains_key(blake3_hex(piece)) ==> stocked(
            s.objects,
            pieces.push(piece),
        ) == stocked(s.objects, pieces),
        !stocked(s.objects, pieces).contains_key(blake3_hex(piece)) ==> stocked(
            s.objects,
            pieces.push(piece),
        ) == stocked(s.objects, pieces).insert(blake3_hex(piece), piece),
        s.manifests.contains_key(full) ==> filed(s.manifests, full, chunks) == s.manifests,
        !s.manifests.contains_key(full) ==> filed(s.manifests, full, chunks)
            == s.manifests.insert(full, manifest_text(chunks)),
{
    assert(pieces.push(piece).drop_last() =~= pieces);
}

/// Putting content in that is there changes nothing. Otherwise its chunks go in and, unless there
/// is a manifest for its digest, one that lists the digests of its chunks.
pub proof fn content_goes_in_once(s: Shelves, bytes: Seq<u8>)
    ensures
        holds(s, blake3_hex(bytes)) ==> stored(s, bytes) == s,
        !holds(s, blake3_hex(bytes)) ==> stored(s, bytes).objects == stocked(
            s.objects,
            pieces_of(bytes),
        ),
        !s.manifests.contains_key(blake3_hex(bytes)) ==> stored(s, bytes).manifests
            == s.manifests.insert(
            blake3_hex(bytes),
            manifest_text(
                Seq::new(pieces_of(bytes).len(), |i: int| blake3_hex(pieces_of(bytes)[i])),
            ),
        ),
        s.manifests.contains_key(blake3_hex(bytes)) ==> stored(s, bytes).manifests == s.manifests,
{
    assert(digests_of(pieces_of(bytes)) =~= Seq::new(
        pieces_of(bytes).len(),
        |i: int| blake3_hex(pieces_of(bytes)[i]),
    ));
}

/// A name of less than two bytes has its file in a directory of its own.
pub proof fn short_names_are_set_aside(root: Seq<char>, kind: Seq<char>, c: char)
    ensures
        shard(root, kind, Seq::<char>::empty()) == joined(joined(root, kind), "__invalid__/"@),
        c <= '\u{7f}' ==> shard(root, kind, seq![c]) == joined(
            joined(root, kind),
            "__invalid__/"@ + seq![c],
        ),
{
    assert("__invalid__/"@ + Seq::<char>::empty() =~= "__invalid__/"@);
}

/// Characters up to U+007F take one byte, those up to U+07FF two.
proof fn width_is(c: char)
    ensures
        (width(c) == 1) == (c <= '\u{7f}'),
        (width(c) == 2) == ('\u{80}' <= c <= '\u{7ff}'),
{
}

/// The file of a name stands in a directory that is called by the name's first two bytes: two
/// characters of one byte, or one of two. A name that cannot be cut there, that has a slash, or of
/// which a part would lead upwards, is set aside.
pub proof fn names_are_cut_behind_two_bytes(hash: Seq<char>, i: int)
    requires
        hash.len() >= 2,
        0 <= i < hash.len(),
    ensures
        ({
            let pair = hash[0] <= '\u{7f}' && hash[1] <= '\u{7f}';
            let wide = '\u{80}' <= hash[0] <= '\u{7ff}';
            let n: int = if pair {
                2
            } else {
                1
            };
            let up = seq!['.', '.'];
            let fits = (pair || wide) && !hash.contains('/') && hash.take(n) != up && hash.skip(n)
                != up;
            &&& fits ==> place(hash) == hash.take(n) + seq!['/'] + hash.skip(n)
            &&& !fits ==> place(hash).len() == "__invalid__/_"@.len() + hash.len() && place(
                hash,
            ).take("__invalid__/_"@.len() as int) == "__invalid__/_"@ && place(
                hash,
            )["__invalid__/_"@.len() + i] == (if hash[i] == '/' {
                '_'
            } else {
                hash[i]
            })
        }),
{
    let pair = hash[0] <= '\u{7f}' && hash[1] <= '\u{7f}';
    let n: int = if pair {
        2
    } else {
        1
    };
    let up = seq!['.', '.'];
    let a = hash.take(n);
    let b = hash.skip(n);
    if is_parent(a) {
        assert(a =~= up);
    }
    if is_parent(b) {
        assert(b =~= up);
    }
    assert(a.push('/') + b =~= a + seq!['/'] + b);
    let wide = '\u{80}' <= hash[0] <= '\u{7ff}';
    width_is(hash[0]);
    width_is(hash[1]);
    assert(two_bytes(hash) == if pair || wide {
        Some(n)
    } else {
        None
    });
    assert(a == up ==> is_parent(a));
    assert(b == up ==> is_parent(b));
    let aside = "__invalid__/_"@ + replaced(hash, '/', '_');
    assert(aside.take("__invalid__/_"@.len() as int) =~= "__invalid__/_"@);
}

} // verus!
