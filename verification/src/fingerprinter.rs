//! Anonymous identity derivation: a connection fingerprint (network address
//! plus client-agent string) maps to a stable display name `user_<prefix>`,
//! where the prefix is the first six hexadecimal digits of the SHA-256
//! digest of the fingerprint.

use sha2::Digest;
use vstd::prelude::*;
use vstd::string::StrSliceExecFns;
use vstd::string::StringExecFns;
use vstd::utf8::encode_utf8;

use crate::message::hex_digit;

verus! {

/// The SHA-256 digest of a byte sequence: a pure function of the bytes
/// alone, named here and computed only by the outside hash implementation.
pub uninterp spec fn sha256_of(bytes: Seq<u8>) -> Seq<u8>;

/// Relies on sha2's `Sha256::digest`: a deterministic function of the
/// input bytes producing a 32-byte digest.
#[verifier::external_body]
fn sha256(data: &[u8]) -> (r: Vec<u8>)
    ensures
        r@ == sha256_of(data@),
        r@.len() == 32,
{
    sha2::Sha256::digest(data).to_vec()
}

/// The lowercase hexadecimal rendering of a byte sequence, high nibble
/// first.
pub open spec fn hex_of(bytes: Seq<u8>) -> Seq<char>
    decreases bytes.len(),
{
    if bytes.len() == 0 {
        Seq::empty()
    } else {
        hex_of(bytes.drop_last()) + seq![
            hex_digit((bytes.last() / 16) as u32),
            hex_digit((bytes.last() % 16) as u32),
        ]
    }
}

/// Hexadecimal rendering writes two digits per byte.
pub proof fn lemma_hex_of_len(bytes: Seq<u8>)
    ensures
        hex_of(bytes).len() == 2 * bytes.len(),
    decreases bytes.len(),
{
    if bytes.len() > 0 {
        lemma_hex_of_len(bytes.drop_last());
    }
}

/// Relies on hex::encode: two lowercase hexadecimal digits per byte, high
/// nibble first.
#[verifier::external_body]
fn to_hex(bytes: &Vec<u8>) -> (r: String)
    ensures
        r@ == hex_of(bytes@),
{
    hex::encode(bytes.as_slice())
}

/// The display name derived from a fingerprint: `user_` followed by the
/// first six hexadecimal digits of the fingerprint's SHA-256 digest.
pub open spec fn username_of(fp: Seq<char>) -> Seq<char> {
    "user_"@ + hex_of(sha256_of(encode_utf8(fp))).take(6)
}

/// Maps a connection fingerprint to its stable anonymous display name.
/// Deterministic: the result is a function of the fingerprint alone, and
/// always eleven single-byte characters.
pub fn username_from_fingerprint(fingerprint: &str) -> (r: String)
    ensures
        r@ == username_of(fingerprint@),
        r@.len() == 11,
        encode_utf8(r@).len() == 11,
{
    let digest = sha256(fingerprint.as_bytes());
    let hexstr = to_hex(&digest);
    proof {
        lemma_hex_of_len(digest@);
        lemma_hex_of_ascii(digest@);
    }
    let mut out = "user_".to_owned();
    let prefix = hexstr.as_str().substring_char(0, 6);
    out.append(prefix);
    proof {
        reveal_strlit("user_");
        assert(out@ =~= username_of(fingerprint@));
        assert forall|i: int| 0 <= i < out@.len() implies (#[trigger] out@[i] as u32) < 128 by {
            if i >= 5 {
                assert(out@[i] == hexstr@.subrange(0, 6)[i - 5]);
            }
        }
        crate::message::lemma_ascii_u32_bytes(out@);
    }
    out
}

/// Every hexadecimal rendering consists of characters below 128.
proof fn lemma_hex_of_ascii(bytes: Seq<u8>)
    ensures
        forall|i: int|
            0 <= i < hex_of(bytes).len() ==> (#[trigger] hex_of(bytes)[i] as u32) < 128,
    decreases bytes.len(),
{
    if bytes.len() > 0 {
        lemma_hex_of_ascii(bytes.drop_last());
        let a = hex_of(bytes.drop_last());
        let d1 = hex_digit((bytes.last() / 16) as u32);
        let d2 = hex_digit((bytes.last() % 16) as u32);
        assert((d1 as u32) < 128);
        assert((d2 as u32) < 128);
        assert forall|i: int| 0 <= i < hex_of(bytes).len() implies (
        #[trigger] hex_of(bytes)[i] as u32) < 128 by {
            assert(hex_of(bytes) == a + seq![d1, d2]);
            if i < a.len() {
                assert(hex_of(bytes)[i] == a[i]);
            } else {
                assert(hex_of(bytes)[i] == seq![d1, d2][i - a.len()]);
            }
        }
    }
}

/// Law: identity derivation is deterministic — equal fingerprints always
/// yield the same display name, on first and on every later derivation.
pub proof fn lemma_identity_deterministic(a: Seq<char>, b: Seq<char>)
    requires
        a == b,
    ensures
        username_of(a) == username_of(b),
{
}

} // verus!
