//! Content-defined chunking: where a byte string is cut so that an edit moves few boundaries.

use vstd::prelude::*;

verus! {

// Chunking targets (bytes): most source files land in a single chunk; large files split so that
// an edit only rewrites nearby chunks.
/// Smallest chunk, but for the last one.
pub const CHUNK_MIN: u32 = 2048;

/// Chunk size aimed at.
pub const CHUNK_AVG: u32 = 8192;

/// Largest chunk.
pub const CHUNK_MAX: u32 = 65536;

/// The chunks, as offset and length, that FastCDC (2020) cuts `bytes` into with the given
/// smallest, average and largest sizes: what iterating `fastcdc::v2020::FastCDC::new` gives.
pub uninterp spec fn fastcdc_cuts(bytes: Seq<u8>, min: u32, avg: u32, max: u32) -> Seq<
    (usize, usize),
>;

/// The chunks stand one behind the other, none is empty, and they cover `len` bytes.
pub open spec fn tiles(cuts: Seq<(usize, usize)>, len: int) -> bool {
    &&& len == 0 <==> cuts.len() == 0
    &&& cuts.len() > 0 ==> cuts[0].0 == 0 && cuts.last().0 + cuts.last().1 == len
    &&& forall|i: int| 0 <= i < cuts.len() ==> 0 < (#[trigger] cuts[i]).1
    &&& forall|i: int, j: int|
        0 <= i && j == i + 1 && j < cuts.len() ==> (#[trigger] cuts[i]).0 + cuts[i].1 == (
        #[trigger] cuts[j]).0
}

/// Trusted: iterates `fastcdc::v2020::FastCDC::new`, which asserts the ranges of the three
/// sizes. Each `Chunk` starts where the one before it ended, none is empty or larger than the
/// largest size, none but the last is smaller than the smallest size, which is rounded down to an
/// even one, and iteration ends with the source.
#[verifier::external_body]
pub(crate) fn cut_points(bytes: &[u8], min: u32, avg: u32, max: u32) -> (r: Vec<(usize, usize)>)
    requires
        64 <= min <= 1_048_576,
        256 <= avg <= 4_194_304,
        1024 <= max <= 16_777_216,
        min <= avg <= max,
    ensures
        r@ == fastcdc_cuts(bytes@, min, avg, max),
        tiles(r@, bytes@.len() as int),
        forall|i: int| 0 <= i < r@.len() ==> (#[trigger] r@[i]).1 <= max,
        forall|i: int| 0 <= i < r@.len() - 1 ==> (#[trigger] r@[i]).1 >= min - min % 2,
{
    fastcdc::v2020::FastCDC::new(bytes, min, avg, max).map(|c| (c.offset, c.length)).collect()
}

} // verus!
