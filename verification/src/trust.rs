//! Device keys, and the peers that a synced folder is paired with.
//!
//! A peer is addressed and authenticated by its endpoint id, a public key. The ids that a folder
//! is paired with are kept in `<dir>/.codrop/peers`, one on each line.

use crate::digest::is_digest;
use crate::linefile::{line_of_entry, lines_of_both, trimmed_ends};
use crate::paths::{join, joined};
use crate::text::{any_same, lines, split_lines, texts, texts_push, trim, trimmed, without_cr};
use vstd::prelude::*;

verus! {

// ---- keys and ids --------------------------------------------------------------------------
/// The text of the public key, in lower-case hex, of the secret key with these bytes: what
/// `iroh::SecretKey::public` and its `Display` give.
pub uninterp spec fn public_id(key: Seq<u8>) -> Seq<char>;

/// The endpoint id that a text names, in lower-case hex, if it names one: what
/// `iroh::EndpointId`'s `FromStr` and its `Display` give.
pub uninterp spec fn parsed_id(s: Seq<char>) -> Option<Seq<char>>;

/// An endpoint id in the form that it is written in: 64 lower-case hex digits that name
/// themselves.
pub open spec fn is_id(s: Seq<char>) -> bool {
    is_digest(s) && parsed_id(s) == Some(s)
}

/// Trusted: `iroh::SecretKey::from_bytes` takes any 32 bytes; its `public` key is written by
/// `Display` as 64 lower-case hex digits, which parse as that key again.
#[verifier::external_body]
fn id_of_key(key: &Vec<u8>) -> (r: String)
    requires
        key@.len() == 32,
    ensures
        r@ == public_id(key@),
        is_id(r@),
{
    let mut bytes = [0u8; 32];
    bytes.copy_from_slice(key.as_slice());
    iroh::SecretKey::from_bytes(&bytes).public().to_string()
}

/// Trusted: `iroh::EndpointId` is parsed by its `FromStr` from 64 lower-case hex digits or from
/// base32, if the bytes are a public key, and written by `Display` as 64 lower-case hex digits,
/// which parse as that key again.
#[verifier::external_body]
fn parse_id(s: &str) -> (r: Option<String>)
    ensures
        r matches Some(id) ==> parsed_id(s@) == Some(id@) && is_id(id@),
        r is None ==> parsed_id(s@) is None,
{
    s.parse::<iroh::EndpointId>().ok().map(|id| id.to_string())
}

/// The endpoint id that a text names, in the form that it is written in.
pub fn endpoint_id(s: &str) -> (r: Option<String>)
    ensures
        match r {
            Some(id) => parsed_id(s@) == Some(id@) && is_id(id@),
            None => parsed_id(s@) is None,
        },
{
    parse_id(s)
}

/// The device key in a key file: it has 32 bytes, anything else is no key. A stable key means a
/// stable endpoint id (device identity) across restarts.
pub fn stored_key(file: Option<Vec<u8>>) -> (r: Option<Vec<u8>>)
    ensures
        match file {
            Some(bytes) => if bytes@.len() == 32 {
                r == Some(bytes)
            } else {
                r is None
            },
            None => r is None,
        },
{
    match file {
        Some(bytes) => if bytes.len() == 32 {
            Some(bytes)
        } else {
            None
        },
        None => None,
    }
}

/// The endpoint id of a device key.
pub fn device_endpoint_id(key: &Vec<u8>) -> (id: String)
    requires
        key@.len() == 32,
    ensures
        id@ == public_id(key@),
        is_id(id@),
{
    id_of_key(key)
}

// ---- the paired peers ----------------------------------------------------------------------
/// The file that lists the paired peers.
pub fn peers_file(dir: &str) -> (r: String)
    ensures
        r@ == joined(dir@, ".codrop/peers"@),
        dir@.len() > 0 && dir@[dir@.len() - 1] != '/' ==> r@ == dir@ + "/.codrop/peers"@,
{
    proof {
        reveal_strlit(".codrop/peers");
        reveal_strlit("/.codrop/peers");
        assert(dir@ + seq!['/'] + ".codrop/peers"@ =~= dir@ + "/.codrop/peers"@);
    }
    join(dir, ".codrop/peers")
}

/// The ids that lines name, in order; lines that name none are passed over.
pub open spec fn ids_in(ls: Seq<Seq<char>>) -> Seq<Seq<char>>
    decreases ls.len(),
{
    if ls.len() == 0 {
        Seq::empty()
    } else {
        match parsed_id(trimmed(ls.last())) {
            Some(id) => ids_in(ls.drop_last()).push(id),
            None => ids_in(ls.drop_last()),
        }
    }
}

/// The ids that a peers file lists.
pub open spec fn trusted(text: Seq<char>) -> Seq<Seq<char>> {
    ids_in(lines(text))
}

/// A peers file with these ids.
pub open spec fn peers_text(ids: Seq<Seq<char>>) -> Seq<char>
    decreases ids.len(),
{
    if ids.len() == 0 {
        Seq::empty()
    } else {
        peers_text(ids.drop_last()) + ids.last().push('\n')
    }
}

/// The trusted endpoint ids (unknown and garbage lines are ignored).
pub fn load_trusted(text: &str) -> (r: Vec<String>)
    ensures
        texts(r@) == trusted(text@),
        forall|i: int| 0 <= i < r@.len() ==> is_id((#[trigger] r@[i])@),
{
    let all = split_lines(text);
    let ghost ls = texts(all@);
    let mut out: Vec<String> = Vec::new();
    let mut i: usize = 0;
    proof {
        assert(texts(out@) =~= ids_in(ls.take(0)));
    }
    while i < all.len()
        invariant
            i <= all@.len(),
            ls == texts(all@),
            texts(out@) == ids_in(ls.take(i as int)),
            forall|j: int| 0 <= j < out@.len() ==> is_id((#[trigger] out@[j])@),
        decreases all@.len() - i,
    {
        proof {
            assert(ls.take(i + 1).drop_last() =~= ls.take(i as int));
            assert(ls.take(i + 1).last() == all@[i as int]@);
        }
        let line = trim(all[i].as_str());
        if let Some(id) = endpoint_id(line.as_str()) {
            proof {
                texts_push(out@, id);
            }
            out.push(id);
        }
        i += 1;
    }
    proof {
        assert(ls.take(all@.len() as int) =~= ls);
    }
    out
}

/// Whether a connecting peer is let in: only one that is trusted is.
pub fn admits(ids: &Vec<String>, id: &str) -> (r: bool)
    ensures
        r == texts(ids@).contains(id@),
{
    any_same(ids, id)
}

/// The new text of the peers file with `id` added; `None` if it lists it already.
pub fn trust_peer(text: &str, id: &str) -> (r: Option<String>)
    ensures
        match r {
            Some(new) => !trusted(text@).contains(id@) && new@ == peers_text(
                trusted(text@).push(id@),
            ),
            None => trusted(text@).contains(id@),
        },
{
    let mut ids = load_trusted(text);
    if any_same(&ids, id) {
        return None;
    }
    let id = id.to_owned();
    proof {
        texts_push(ids@, id);
    }
    ids.push(id);
    let ghost names = texts(ids@);
    let mut body = String::new();
    let mut i: usize = 0;
    proof {
        assert(names.take(0).len() == 0);
    }
    while i < ids.len()
        invariant
            i <= ids@.len(),
            names == texts(ids@),
            body@ == peers_text(names.take(i as int)),
        decreases ids@.len() - i,
    {
        vstd::string::StringExecFns::append(&mut body, ids[i].as_str());
        body.push('\n');
        proof {
            assert(names.take(i + 1).drop_last() =~= names.take(i as int));
            assert(names.take(i + 1).last() == ids@[i as int]@);
            assert(body@ =~= peers_text(names.take(i + 1)));
        }
        i += 1;
    }
    proof {
        assert(names.take(ids@.len() as int) =~= names);
    }
    Some(body)
}

/// What came of pairing.
#[derive(Debug, PartialEq, Eq)]
pub enum Pairing {
    /// The text names no endpoint id.
    Invalid,
    /// The peer was paired already.
    Known { id: String },
    /// The peer is new: `text` is the peers file with it.
    Added { id: String, text: String },
}

/// Pair with the peer that `arg` names; `text` is the peers file as it is. Pairing trusts the
/// peer, and from then on it is dialed.
pub fn pair(text: &str, arg: &str) -> (r: Pairing)
    ensures
        match parsed_id(arg@) {
            None => r is Invalid,
            Some(id) => if trusted(text@).contains(id) {
                r matches Pairing::Known { id: known } && known@ == id
            } else {
                r matches Pairing::Added { id: new, text: t } && new@ == id && t@ == peers_text(
                    trusted(text@).push(id),
                ) && trusted(t@) == trusted(text@).push(id)
            },
        },
{
    let id = match endpoint_id(arg) {
        Some(id) => id,
        None => {
            return Pairing::Invalid;
        },
    };
    let known = load_trusted(text);
    match trust_peer(text, id.as_str()) {
        None => Pairing::Known { id },
        Some(new) => {
            proof {
                assert forall|i: int| 0 <= i < trusted(text@).len() implies is_id(
                    #[trigger] trusted(text@)[i],
                ) by {
                    assert(texts(known@)[i] == known@[i]@);
                }
                trust_persists(text@, id@);
            }
            Pairing::Added { id, text: new }
        },
    }
}

/// Every paired peer is dialed that there is no live connection to.
#[verifier::spinoff_prover]
pub fn to_dial(paired: &Vec<String>, live: &Vec<String>) -> (out: Vec<String>)
    ensures
        texts(out@) == not_in(texts(paired@), texts(live@)),
        forall|id: Seq<char>|
            texts(out@).contains(id) <==> #[trigger] texts(paired@).contains(id) && !texts(
                live@,
            ).contains(id),
{
    let ghost p = texts(paired@);
    let ghost l = texts(live@);
    let mut out: Vec<String> = Vec::new();
    let mut i: usize = 0;
    proof {
        assert(texts(out@) =~= not_in(p.take(0), l));
    }
    while i < paired.len()
        invariant
            i <= paired@.len(),
            p == texts(paired@),
            l == texts(live@),
            texts(out@) == not_in(p.take(i as int), l),
        decreases paired@.len() - i,
    {
        proof {
            assert(p.take(i + 1).drop_last() =~= p.take(i as int));
            assert(p.take(i + 1).last() == paired@[i as int]@);
        }
        if !any_same(live, paired[i].as_str()) {
            let id = paired[i].clone();
            proof {
                texts_push(out@, id);
            }
            out.push(id);
        }
        i += 1;
    }
    proof {
        assert(p.take(paired@.len() as int) =~= p);
        assert(texts(out@) == not_in(texts(paired@), texts(live@)));
        assert forall|id: Seq<char>|
            texts(out@).contains(id) <==> #[trigger] texts(paired@).contains(id) && !texts(
                live@,
            ).contains(id) by {
            exactly_the_others_are_left(texts(paired@), texts(live@), id);
        }
    }
    out
}

/// The entries of one list that are not in another, in order.
pub open spec fn not_in(list: Seq<Seq<char>>, other: Seq<Seq<char>>) -> Seq<Seq<char>>
    decreases list.len(),
{
    if list.len() == 0 {
        Seq::empty()
    } else if other.contains(list.last()) {
        not_in(list.drop_last(), other)
    } else {
        not_in(list.drop_last(), other).push(list.last())
    }
}

// ---- laws ----------------------------------------------------------------------------------
proof fn ids_in_both(a: Seq<Seq<char>>, b: Seq<Seq<char>>)
    ensures
        ids_in(a + b) == ids_in(a) + ids_in(b),
    decreases b.len(),
{
    if b.len() == 0 {
        assert(a + b =~= a);
        assert(ids_in(a) + ids_in(b) =~= ids_in(a));
    } else {
        assert((a + b).drop_last() =~= a + b.drop_last());
        assert((a + b).last() == b.last());
        ids_in_both(a, b.drop_last());
        assert(ids_in(a + b) =~= ids_in(a) + ids_in(b));
    }
}

proof fn peers_text_ends(ids: Seq<Seq<char>>)
    ensures
        crate::linefile::ends_line(peers_text(ids)),
    decreases ids.len(),
{
    if ids.len() > 0 {
        assert(peers_text(ids).last() == '\n');
    }
}

/// A peers file lists the ids that it was written with.
pub proof fn peers_file_round_trip(ids: Seq<Seq<char>>)
    requires
        forall|i: int| 0 <= i < ids.len() ==> is_id(#[trigger] ids[i]),
    ensures
        trusted(peers_text(ids)) == ids,
    decreases ids.len(),
{
    if ids.len() == 0 {
        assert(lines(peers_text(ids)) =~= Seq::<Seq<char>>::empty());
        assert(trusted(peers_text(ids)) =~= ids);
    } else {
        let d = ids.drop_last();
        let id = ids.last();
        assert forall|i: int| 0 <= i < d.len() implies is_id(#[trigger] d[i]) by {
            assert(is_id(ids[i]));
        }
        peers_file_round_trip(d);
        assert(is_id(ids[ids.len() - 1]));
        crate::store::digest_fits_line(id);
        assert(crate::digest::is_hex(id[0]));
        assert(crate::digest::is_hex(id[63]));
        trimmed_ends(id);
        assert(trimmed(id) == id);
        peers_text_ends(d);
        lines_of_both(peers_text(d), id.push('\n'));
        line_of_entry(id);
        let one = seq![without_cr(id)];
        ids_in_both(lines(peers_text(d)), one);
        assert(one.drop_last().len() == 0);
        assert(ids_in(one.drop_last()) =~= Seq::<Seq<char>>::empty());
        assert(one.last() == id);
        assert(ids_in(one) =~= seq![id]);
        assert(d + seq![id] =~= ids);
    }
}

/// A peer that was trusted stays trusted, with all the others, and trusting it again writes
/// nothing.
pub proof fn trust_persists(text: Seq<char>, id: Seq<char>)
    requires
        is_id(id),
        forall|i: int| 0 <= i < trusted(text).len() ==> is_id(#[trigger] trusted(text)[i]),
    ensures
        trusted(peers_text(trusted(text).push(id))) == trusted(text).push(id),
        trusted(peers_text(trusted(text).push(id))).contains(id),
        forall|other: Seq<char>| #[trigger]
            trusted(text).contains(other) ==> trusted(
                peers_text(trusted(text).push(id)),
            ).contains(other),
{
    let ids = trusted(text).push(id);
    assert forall|i: int| 0 <= i < ids.len() implies is_id(#[trigger] ids[i]) by {
        if i < trusted(text).len() {
            assert(is_id(trusted(text)[i]));
        }
    }
    peers_file_round_trip(ids);
    assert(ids[ids.len() - 1] == id);
    assert forall|other: Seq<char>| #[trigger] trusted(text).contains(other) implies ids.contains(
        other,
    ) by {
        let i = trusted(text).index_of(other);
        assert(ids[i] == other);
    }
}

/// A peer is trusted exactly if a line of the peers file names it, white space at its ends aside;
/// a line that names none is passed over, and the order is that of the lines.
pub proof fn lines_name_the_trusted(text: Seq<char>, line: Seq<char>, id: Seq<char>)
    requires
        !line.contains('\n'),
        line.len() > 0 ==> line.last() != '\r',
    ensures
        trusted(Seq::<char>::empty()).len() == 0,
        parsed_id(trimmed(line)) matches Some(named) ==> trusted(line + seq!['\n'] + text) == seq![
            named,
        ] + trusted(text),
        parsed_id(trimmed(line)) is None ==> trusted(line + seq!['\n'] + text) == trusted(text),
        trusted(text).contains(id) <==> exists|i: int|
            0 <= i < lines(text).len() && parsed_id(trimmed(#[trigger] lines(text)[i])) == Some(id),
{
    crate::text::lines_end_at_newlines(line, text);
    crate::text::lines_end_at_newlines(Seq::<char>::empty(), text);
    assert(line.push('\n') + text =~= line + seq!['\n'] + text);
    let one = seq![line];
    ids_in_both(one, lines(text));
    assert(one.drop_last() =~= Seq::<Seq<char>>::empty());
    assert(ids_in(Seq::<Seq<char>>::empty()) =~= Seq::<Seq<char>>::empty());
    assert(one.last() == line);
    match parsed_id(trimmed(line)) {
        Some(named) => {
            assert(ids_in(one) =~= seq![named]);
        },
        None => {
            assert(ids_in(one) =~= Seq::<Seq<char>>::empty());
            assert(ids_in(one) + ids_in(lines(text)) =~= ids_in(lines(text)));
        },
    }
    named_lines(lines(text), id);
}

proof fn named_lines(ls: Seq<Seq<char>>, id: Seq<char>)
    ensures
        ids_in(ls).contains(id) <==> exists|i: int|
            0 <= i < ls.len() && parsed_id(trimmed(#[trigger] ls[i])) == Some(id),
    decreases ls.len(),
{
    if ls.len() > 0 {
        let d = ls.drop_last();
        named_lines(d, id);
        let all = ids_in(ls);
        if all.contains(id) {
            let k = all.index_of(id);
            if k < ids_in(d).len() {
                assert(ids_in(d)[k] == id);
                assert(ids_in(d).contains(id));
                let i = choose|i: int|
                    0 <= i < d.len() && parsed_id(trimmed(#[trigger] d[i])) == Some(id);
                assert(ls[i] == d[i]);
            } else {
                assert(ls[ls.len() - 1] == ls.last());
            }
        }
        if exists|i: int| 0 <= i < ls.len() && parsed_id(trimmed(#[trigger] ls[i])) == Some(id) {
            let i = choose|i: int|
                0 <= i < ls.len() && parsed_id(trimmed(#[trigger] ls[i])) == Some(id);
            if i < d.len() {
                assert(d[i] == ls[i]);
                assert(ids_in(d).contains(id));
                let k = ids_in(d).index_of(id);
                assert(all[k] == id);
            } else {
                assert(all[all.len() - 1] == id);
            }
        }
    }
}

/// A peers file has each id on a line of its own, in order.
pub proof fn each_id_has_a_line(ids: Seq<Seq<char>>, id: Seq<char>)
    ensures
        peers_text(Seq::<Seq<char>>::empty()).len() == 0,
        peers_text(ids.push(id)) == peers_text(ids) + id + seq!['\n'],
{
    assert(ids.push(id).drop_last() =~= ids);
    assert(peers_text(ids) + id.push('\n') =~= peers_text(ids) + id + seq!['\n']);
}

/// The peers to dial are those that are paired and not connected, in the order of the pairings.
pub proof fn exactly_the_others_are_left(
    list: Seq<Seq<char>>,
    other: Seq<Seq<char>>,
    id: Seq<char>,
)
    ensures
        not_in(list, other).contains(id) <==> list.contains(id) && !other.contains(id),
        !other.contains(id) ==> not_in(list.push(id), other) == not_in(list, other).push(id),
        other.contains(id) ==> not_in(list.push(id), other) == not_in(list, other),
    decreases list.len(),
{
    assert(list.push(id).drop_last() =~= list);
    if list.len() > 0 {
        let d = list.drop_last();
        exactly_the_others_are_left(d, other, id);
        let left = not_in(list, other);
        if left.contains(id) {
            let k = left.index_of(id);
            if k < not_in(d, other).len() {
                assert(not_in(d, other)[k] == id);
                assert(not_in(d, other).contains(id));
                let i = d.index_of(id);
                assert(list[i] == id);
            } else {
                assert(list[list.len() - 1] == id);
            }
        }
        if list.contains(id) && !other.contains(id) {
            let i = list.index_of(id);
            if i < d.len() {
                assert(d[i] == id);
                assert(d.contains(id));
                let k = not_in(d, other).index_of(id);
                assert(left[k] == id);
            } else {
                assert(left[left.len() - 1] == id);
            }
        }
    }
}

} // verus!
