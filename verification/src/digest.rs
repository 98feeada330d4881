//! Content addresses: the BLAKE3 digest of a byte string in lowercase hexadecimal.

use crate::text::chars_of;
use vstd::prelude::*;

verus! {

/// The BLAKE3 digest of `bytes` in lowercase hexadecimal: what `blake3::hash` and
/// `blake3::Hash::to_hex` give.
pub uninterp spec fn blake3_hex(bytes: Seq<u8>) -> Seq<char>;

/// A lowercase hexadecimal digit.
pub open spec fn is_hex(c: char) -> bool {
    ('0' <= c <= '9') || ('a' <= c <= 'f')
}

/// The form of a digest: 64 lowercase hexadecimal digits.
pub open spec fn is_digest(s: Seq<char>) -> bool {
    s.len() == 64 && forall|i: int| 0 <= i < 64 ==> is_hex(#[trigger] s[i])
}

/// Trusted: calls `blake3::hash` and renders the result with `blake3::Hash::to_hex`. The result
/// depends on the bytes alone, and `to_hex` documents it as lowercase hexadecimal: two digits
/// for each of the 32 bytes.
#[verifier::external_body]
pub(crate) fn content_hash(bytes: &[u8]) -> (r: String)
    ensures
        r@ == blake3_hex(bytes@),
        is_digest(r@),
{
    blake3::hash(bytes).to_hex().to_string()
}

/// Whether a text has the form of a digest.
pub fn digest_form(s: &str) -> (r: bool)
    ensures
        r == is_digest(s@),
        r == (s@.len() == 64 && forall|i: int|
            0 <= i < 64 ==> ('0' <= #[trigger] s@[i] <= '9') || ('a' <= s@[i] <= 'f')),
{
    let v = chars_of(s);
    if v.len() != 64 {
        return false;
    }
    let mut i: usize = 0;
    while i < 64
        invariant
            i <= 64,
            v@.len() == 64,
            v@ == s@,
            forall|j: int| 0 <= j < i ==> is_hex(#[trigger] s@[j]),
        decreases 64 - i,
    {
        let c = v[i];
        if !(('0' <= c && c <= '9') || ('a' <= c && c <= 'f')) {
            proof {
                assert(!is_hex(s@[i as int]));
            }
            return false;
        }
        i += 1;
    }
    true
}

/// The digits are `0` to `9` and `a` to `f`.
pub proof fn hex_digits_are(c: char)
    ensures
        is_hex(c) <==> (48 <= c as u32 <= 57) || (97 <= c as u32 <= 102),
{
}

} // verus!
