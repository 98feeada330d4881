//! Wire protocol: length-prefixed JSON messages, one request and one response per stream.
//!
//! Content moves as manifests and chunks, so that only missing chunks transfer. The JSON bodies
//! are made and read outside; here stand the messages and the framing of their bytes.

use crate::index::{records_of, FileRecord, Record};
use crate::text::texts;
use vstd::prelude::*;

verus! {

/// One peer to another.
#[derive(Debug, PartialEq, Eq)]
pub enum Req {
    /// "Send me your whole index."
    Index,
    /// "Send me the chunk manifest for this full-content hash."
    Manifest { hash: String },
    /// "Send me the bytes for this chunk hash."
    Chunk { hash: String },
    /// "I have a new version of this path: pull the chunks you're missing and apply it."
    Push { record: FileRecord },
}

/// What a [`Req`] says.
pub enum Ask {
    Index,
    Manifest { hash: Seq<char> },
    Chunk { hash: Seq<char> },
    Push { record: Record },
}

impl View for Req {
    type V = Ask;

    open spec fn view(&self) -> Ask {
        match *self {
            Req::Index => Ask::Index,
            Req::Manifest { hash } => Ask::Manifest { hash: hash@ },
            Req::Chunk { hash } => Ask::Chunk { hash: hash@ },
            Req::Push { record } => Ask::Push { record: record@ },
        }
    }
}

/// Response to a [`Req`].
#[derive(Debug, PartialEq, Eq)]
pub enum Resp {
    Index { records: Vec<FileRecord> },
    Manifest { chunks: Vec<String> },
    Chunk { bytes: Vec<u8> },
    NotFound,
    /// Acknowledges a `Push` (sent after the pushed change has been fetched and applied).
    Ack,
}

/// What a [`Resp`] says.
pub enum Reply {
    Index { records: Seq<Record> },
    Manifest { chunks: Seq<Seq<char>> },
    Chunk { bytes: Seq<u8> },
    NotFound,
    Ack,
}

impl View for Resp {
    type V = Reply;

    open spec fn view(&self) -> Reply {
        match *self {
            Resp::Index { records } => Reply::Index { records: records_of(records@) },
            Resp::Manifest { chunks } => Reply::Manifest { chunks: texts(chunks@) },
            Resp::Chunk { bytes } => Reply::Chunk { bytes: bytes@ },
            Resp::NotFound => Reply::NotFound,
            Resp::Ack => Reply::Ack,
        }
    }
}

/// Upper bound on a single framed message, to stop a peer's length prefix from triggering a
/// multi-GiB allocation. Generous headroom over any real index, manifest or chunk message.
pub const MAX_MSG: usize = 268_435_456;

/// A number below 2^32 as four bytes, the most significant first.
pub open spec fn big_endian(n: int) -> Seq<u8> {
    seq![
        ((n / 0x100_0000) % 0x100) as u8,
        ((n / 0x1_0000) % 0x100) as u8,
        ((n / 0x100) % 0x100) as u8,
        (n % 0x100) as u8,
    ]
}

/// The number that four bytes say, the most significant first.
pub open spec fn number_of(prefix: Seq<u8>) -> int {
    prefix[0] * 0x100_0000 + prefix[1] * 0x1_0000 + prefix[2] * 0x100 + prefix[3]
}

/// A message as it goes out: the length of the body, then the body. Of a length that does not
/// fit four bytes, the low four go out.
pub open spec fn framed(body: Seq<u8>) -> Seq<u8> {
    big_endian(body.len() as int % 0x1_0000_0000) + body
}

/// Puts the length of a body before it.
pub fn frame(body: &Vec<u8>) -> (out: Vec<u8>)
    ensures
        out@ == framed(body@),
        out@.len() == 4 + body@.len(),
        out@.skip(4) == body@,
        body@.len() < 0x1_0000_0000 ==> out@[0] * 0x100_0000 + out@[1] * 0x1_0000 + out@[2] * 0x100
            + out@[3] == body@.len(),
{
    let n: u64 = (body.len() as u64) % 0x1_0000_0000;
    let mut out: Vec<u8> = Vec::new();
    out.push(((n / 0x100_0000) % 0x100) as u8);
    out.push(((n / 0x1_0000) % 0x100) as u8);
    out.push(((n / 0x100) % 0x100) as u8);
    out.push((n % 0x100) as u8);
    proof {
        assert(out@ =~= big_endian(body@.len() as int % 0x1_0000_0000));
    }
    out.extend_from_slice(body.as_slice());
    proof {
        assert(out@ =~= framed(body@));
        assert(out@.skip(4) =~= body@);
        if body@.len() < 0x1_0000_0000 {
            length_is_big_endian(body@);
        }
    }
    out
}

/// A peer announced a message that is too large.
#[derive(Debug, PartialEq, Eq)]
pub struct TooLarge {
    pub len: usize,
}

/// The length of the body that four bytes announce.
pub fn message_length(prefix: [u8; 4]) -> (r: Result<usize, TooLarge>)
    ensures
        match r {
            Ok(n) => n == number_of(prefix@) && n <= MAX_MSG,
            Err(e) => e.len == number_of(prefix@) && e.len > MAX_MSG,
        },
        ({
            let n = prefix@[0] * 0x100_0000 + prefix@[1] * 0x1_0000 + prefix@[2] * 0x100
                + prefix@[3];
            match r {
                Ok(len) => len == n && n <= 268_435_456,
                Err(e) => e.len == n && n > 268_435_456,
            }
        }),
{
    let n: usize = prefix[0] as usize * 0x100_0000 + prefix[1] as usize * 0x1_0000
        + prefix[2] as usize * 0x100 + prefix[3] as usize;
    if n <= MAX_MSG {
        Ok(n)
    } else {
        Err(TooLarge { len: n })
    }
}

/// A body that is not too large comes back from its frame: the four bytes announce its length,
/// and that many bytes behind them are the body, whatever follows.
pub proof fn body_comes_back_from_its_frame(body: Seq<u8>, rest: Seq<u8>)
    requires
        body.len() <= MAX_MSG,
    ensures
        ({
            let stream = framed(body) + rest;
            let n = number_of(stream.take(4));
            &&& n == body.len()
            &&& stream.subrange(4, 4 + n) == body
            &&& stream.skip(4 + n) == rest
        }),
{
    let len = body.len() as int;
    let stream = framed(body) + rest;
    assert(len % 0x1_0000_0000 == len);
    assert(stream.take(4) =~= big_endian(len));
    assert(number_of(big_endian(len)) == len) by {
        let a = len / 0x100_0000;
        let b = (len / 0x1_0000) % 0x100;
        let c = (len / 0x100) % 0x100;
        let d = len % 0x100;
        assert(a % 0x100 == a);
        assert(a * 0x100_0000 + b * 0x1_0000 + c * 0x100 + d == len);
    }
    assert(stream.subrange(4, 4 + len) =~= body);
    assert(stream.skip(4 + len) =~= rest);
}

/// The length goes out before the body, its most significant byte first.
pub proof fn length_is_big_endian(body: Seq<u8>)
    requires
        body.len() < 0x1_0000_0000,
    ensures
        ({
            let f = framed(body);
            &&& f.len() == 4 + body.len()
            &&& f.skip(4) == body
            &&& f[0] * 0x100_0000 + f[1] * 0x1_0000 + f[2] * 0x100 + f[3] == body.len()
        }),
{
    let len = body.len() as int;
    let f = framed(body);
    assert(len % 0x1_0000_0000 == len);
    let a = len / 0x100_0000;
    let b = (len / 0x1_0000) % 0x100;
    let c = (len / 0x100) % 0x100;
    let d = len % 0x100;
    assert(a % 0x100 == a);
    assert(f[0] == a && f[1] == b && f[2] == c && f[3] == d);
    assert(a * 0x100_0000 + b * 0x1_0000 + c * 0x100 + d == len);
    assert(f.skip(4) =~= body);
}

/// A message asks for, or brings, what its fields name.
pub proof fn messages_say_their_fields(
    hash: String,
    record: FileRecord,
    records: Vec<FileRecord>,
    chunks: Vec<String>,
    bytes: Vec<u8>,
    i: int,
)
    ensures
        Req::Index@ is Index,
        (Req::Manifest { hash })@ == (Ask::Manifest { hash: hash@ }),
        (Req::Chunk { hash })@ == (Ask::Chunk { hash: hash@ }),
        (Req::Push { record })@ == (Ask::Push { record: record@ }),
        (Resp::Chunk { bytes })@ == (Reply::Chunk { bytes: bytes@ }),
        Resp::NotFound@ is NotFound,
        Resp::Ack@ is Ack,
        (Resp::Index { records })@ matches Reply::Index { records: said } && said.len()
            == records@.len() && (0 <= i < said.len() ==> said[i] == records@[i]@),
        (Resp::Manifest { chunks })@ matches Reply::Manifest { chunks: said } && said.len()
            == chunks@.len() && (0 <= i < said.len() ==> said[i] == chunks@[i]@),
{
}

} // verus!
