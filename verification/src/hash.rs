//! Content identity: the MD5 digest of a text's UTF-8 bytes, in lower-case
//! hexadecimal.

use vstd::prelude::*;
use vstd::utf8::encode_utf8;
use crate::text::to_chars;

verus! {

/// The MD5 digest of a byte sequence.
pub uninterp spec fn md5_digest(bytes: Seq<u8>) -> Seq<u8>;

/// `md5::compute` hashes the bytes it is given and depends on nothing else;
/// the sixteen bytes of its `Digest` are handed out as they are. Nothing is
/// claimed of the digest beyond its being the MD5 of the input.
#[verifier::external_body]
fn md5_compute(data: &[u8]) -> (digest: [u8; 16])
    ensures
        digest@ == md5_digest(data@),
{
    md5::compute(data).0
}

/// The sixteen hexadecimal digits, in order.
pub open spec fn hex_digits() -> Seq<char> {
    "0123456789abcdef"@
}

/// The two lower-case hexadecimal digits of each byte, high nibble first.
pub open spec fn hex_lower(bytes: Seq<u8>) -> Seq<char> {
    Seq::new(
        2 * bytes.len(),
        |i: int|
            if i % 2 == 0 {
                hex_digits()[bytes[i / 2] as int / 16]
            } else {
                hex_digits()[bytes[i / 2] as int % 16]
            },
    )
}

/// The identity of a text: the hexadecimal MD5 digest of its UTF-8 encoding.
pub open spec fn content_hash(content: Seq<char>) -> Seq<char> {
    hex_lower(md5_digest(encode_utf8(content)))
}

/// Writes bytes as lower-case hexadecimal.
pub fn to_hex(bytes: &[u8]) -> (out: String)
    ensures
        out@ == hex_lower(bytes@),
{
    let digits = to_chars("0123456789abcdef");
    proof {
        reveal_strlit("0123456789abcdef");
    }
    let mut out = String::new();
    let mut i: usize = 0;
    while i < bytes.len()
        invariant
            i <= bytes.len(),
            digits@ == hex_digits(),
            digits@.len() == 16,
            out@ == hex_lower(bytes@.take(i as int)),
        decreases bytes.len() - i,
    {
        let b: u8 = bytes[i];
        out.push(digits[(b / 16) as usize]);
        out.push(digits[(b % 16) as usize]);
        i += 1;
        assert(out@ =~= hex_lower(bytes@.take(i as int)));
    }
    assert(bytes@.take(bytes.len() as int) == bytes@);
    out
}

/// Computes the identity of a text: thirty-two hexadecimal digits, whatever
/// the length of the text.
pub fn hash_content(content: &str) -> (hash: String)
    ensures
        hash@ == content_hash(content@),
        hash@.len() == 32,
{
    let digest = md5_compute(content.as_bytes());
    to_hex(digest.as_slice())
}

} // verus!
