//! Hex, and the digests that content is pinned by.

use crate::strings;
use crate::text;
use vstd::prelude::*;

verus! {

/// `bytes` in lowercase hex, two digits each.
pub open spec fn hex_text(bytes: Seq<u8>) -> Seq<char> {
    Seq::new(
        2 * bytes.len(),
        |k: int|
            text::hex_digit(
                (if k % 2 == 0 {
                    bytes[k / 2] / 16
                } else {
                    bytes[k / 2] % 16
                }) as nat,
            ),
    )
}

pub open spec fn all_hex(s: Seq<char>) -> bool {
    forall|i: int| 0 <= i < s.len() ==> text::hex_value(#[trigger] s[i]) is Some
}

/// The bytes that an even number of hex digits spells.
pub open spec fn hex_bytes(s: Seq<char>) -> Option<Seq<u8>> {
    if s.len() % 2 == 0 && all_hex(s) {
        Some(
            Seq::new(
                s.len() / 2,
                |i: int|
                    (16 * text::hex_value(s[2 * i])->0 + text::hex_value(s[2 * i + 1])->0) as u8,
            ),
        )
    } else {
        None
    }
}

/// `hex::encode` writes each byte as two lowercase hex digits.
#[verifier::external_body]
pub(crate) fn encode(bytes: &[u8]) -> (r: String)
    ensures
        r@ == hex_text(bytes@),
{
    hex::encode(bytes)
}

/// `hex::decode` reads pairs of hex digits, of either case, as bytes. It fails on
/// an odd number of them and on any other character.
#[verifier::external_body]
pub(crate) fn decode(s: &str) -> (r: Option<Vec<u8>>)
    ensures
        match r {
            Some(bytes) => hex_bytes(s@) == Some(bytes@),
            None => hex_bytes(s@) is None,
        },
{
    hex::decode(s).ok()
}

/// The SHA-256 hash of `data`.
pub uninterp spec fn sha256(data: Seq<u8>) -> Seq<u8>;

/// `sha2::Sha256::digest` hashes the bytes it is given into 32 bytes that depend on
/// them alone. What the hash of given bytes is, is not stated.
#[verifier::external_body]
fn hash(data: &[u8]) -> (r: Vec<u8>)
    ensures
        r@ == sha256(data@),
        r@.len() == 32,
{
    <sha2::Sha256 as sha2::Digest>::digest(data).to_vec()
}

/// How a registry names content: `sha256:` and the hash in hex.
pub open spec fn digest(data: Seq<u8>) -> Seq<char> {
    "sha256:"@ + hex_text(sha256(data))
}

pub fn digest_of(data: &[u8]) -> (r: String)
    ensures
        r@ == digest(data@),
        r@.len() == 71,
{
    proof {
        reveal_strlit("sha256:");
    }
    strings::concat("sha256:", encode(hash(data).as_slice()).as_str())
}

// ---------------------------------------------------------------------------
// Laws

/// What bytes are written as reads back as those bytes.
pub proof fn law_hex_reads_back(bytes: Seq<u8>)
    ensures
        hex_bytes(hex_text(bytes)) == Some(bytes),
{
    let s = hex_text(bytes);
    assert(s.len() == 2 * bytes.len());
    assert forall|i: int| 0 <= i < s.len() implies text::hex_value(#[trigger] s[i]) is Some by {}
    assert forall|i: int| 0 <= i < bytes.len() implies #[trigger] bytes[i] == (16 * text::hex_value(
        s[2 * i],
    )->0 + text::hex_value(s[2 * i + 1])->0) as u8 by {
        assert((2 * i) % 2 == 0 && (2 * i) / 2 == i);
        assert((2 * i + 1) % 2 == 1 && (2 * i + 1) / 2 == i);
    }
    assert(hex_bytes(s)->0 =~= bytes);
}

/// A digest is written in lowercase.
pub proof fn law_digests_are_lowercase(data: Seq<u8>)
    ensures
        text::to_lower(digest(data)) == digest(data),
{
    reveal_strlit("sha256:");
    let d = digest(data);
    let h = hex_text(sha256(data));
    assert forall|i: int| 0 <= i < d.len() implies text::lower(#[trigger] d[i]) == d[i] by {
        if i >= 7 {
            assert(d[i] == h[i - 7]);
        } else {
            assert(d[i] == "sha256:"@[i]);
        }
    }
    assert(text::to_lower(d) =~= d);
}

} // verus!
