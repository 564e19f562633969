//! API key hashing and constant-time verification for the API auth gate.
//! Only the SHA-256 hash of the key (hex-encoded) is ever stored.

use crate::api_settings::ApiSettings;
use crate::text::string_of;
use sha2::{Digest, Sha256};
use subtle::ConstantTimeEq;
use vstd::prelude::*;

verus! {

/// The SHA-256 digest of a byte string.
pub uninterp spec fn sha256_digest(data: Seq<u8>) -> Seq<u8>;

/// `sha2::Sha256::digest`: the 32-byte SHA-256 digest of `data`, which the
/// contract names and does not compute.
#[verifier::external_body]
fn sha256(data: &[u8]) -> (out: Vec<u8>)
    ensures
        out@ == sha256_digest(data@),
        out@.len() == 32,
{
    Sha256::digest(data).to_vec()
}

/// `subtle::ConstantTimeEq::ct_eq` on byte slices, converted to `bool`:
/// true exactly when both slices have the same length and the same bytes.
#[verifier::external_body]
fn ct_eq(a: &[u8], b: &[u8]) -> (r: bool)
    ensures
        r == (a@ == b@),
{
    a.ct_eq(b).into()
}

/// A lowercase hexadecimal digit.
pub open spec fn is_hex_lower(c: char) -> bool {
    ('0' <= c && c <= '9') || ('a' <= c && c <= 'f')
}

/// The digits a version-4 UUID fixes in its simple form: the version digit
/// `4` at index 12, and the variant digit (one of `8`, `9`, `a`, `b`) at
/// index 16.
pub open spec fn v4_marked(s: Seq<char>) -> bool {
    &&& s[12] == '4'
    &&& (s[16] == '8' || s[16] == '9' || s[16] == 'a' || s[16] == 'b')
}

/// `uuid::Uuid::new_v4().simple().to_string()`: a random version-4 UUID in
/// its simple form, 32 lowercase hexadecimal digits with the version and
/// variant digits set. Which of the other digits come out is left open:
/// they are random.
#[verifier::external_body]
fn random_uuid_simple() -> (s: String)
    ensures
        s@.len() == 32,
        forall|i: int| 0 <= i < 32 ==> is_hex_lower(#[trigger] s@[i]),
        v4_marked(s@),
{
    uuid::Uuid::new_v4().simple().to_string()
}

/// The lowercase hexadecimal digit of a nibble.
pub open spec fn hex_digit(n: int) -> char {
    seq!['0', '1', '2', '3', '4', '5', '6', '7', '8', '9', 'a', 'b', 'c', 'd', 'e', 'f'][n]
}

/// Two lowercase hexadecimal digits per byte, high nibble first.
pub open spec fn hex_of(bytes: Seq<u8>) -> Seq<char>
    decreases bytes.len(),
{
    if bytes.len() == 0 {
        seq![]
    } else {
        hex_of(bytes.drop_last()) + seq![
            hex_digit(bytes.last() as int / 16),
            hex_digit(bytes.last() as int % 16),
        ]
    }
}

proof fn lemma_hex_of_len(bytes: Seq<u8>)
    ensures
        hex_of(bytes).len() == 2 * bytes.len(),
        forall|i: int| 0 <= i < hex_of(bytes).len() ==> is_hex_lower(#[trigger] hex_of(bytes)[i]),
    decreases bytes.len(),
{
    if bytes.len() > 0 {
        lemma_hex_of_len(bytes.drop_last());
        let d = seq!['0', '1', '2', '3', '4', '5', '6', '7', '8', '9', 'a', 'b', 'c', 'd', 'e', 'f'];
        assert forall|k: int| 0 <= k < 16 implies is_hex_lower(#[trigger] d[k]) by {}
    }
}

/// Hex-encode bytes, lowercase, two digits per byte.
pub fn to_hex(bytes: &[u8]) -> (s: String)
    ensures
        s@ == hex_of(bytes@),
{
    let digits = ['0', '1', '2', '3', '4', '5', '6', '7', '8', '9', 'a', 'b', 'c', 'd', 'e', 'f'];
    let mut out: Vec<char> = Vec::new();
    let mut i: usize = 0;
    proof {
        assert(digits@ =~= seq!['0', '1', '2', '3', '4', '5', '6', '7', '8', '9', 'a', 'b', 'c', 'd', 'e', 'f']);
        assert(bytes@.take(0) =~= seq![]);
    }
    while i < bytes.len()
        invariant
            i <= bytes@.len(),
            digits@ == seq!['0', '1', '2', '3', '4', '5', '6', '7', '8', '9', 'a', 'b', 'c', 'd', 'e', 'f'],
            out@ == hex_of(bytes@.take(i as int)),
        decreases bytes@.len() - i,
    {
        let b = bytes[i];
        out.push(digits[(b / 16) as usize]);
        out.push(digits[(b % 16) as usize]);
        proof {
            let t = bytes@.take(i + 1);
            assert(t.drop_last() =~= bytes@.take(i as int));
            assert(t.last() == b);
        }
        i += 1;
    }
    proof {
        assert(bytes@.take(bytes@.len() as int) =~= bytes@);
    }
    string_of(out.as_slice())
}

/// The stored form of a key: the hex SHA-256 of its UTF-8 bytes.
pub open spec fn key_hash(key: Seq<char>) -> Seq<char> {
    hex_of(sha256_digest(vstd::utf8::encode_utf8(key)))
}

/// Hash an API key for storage: 64 lowercase hexadecimal digits.
pub fn hash_key(key: &str) -> (h: String)
    ensures
        h@ == key_hash(key@),
        h@.len() == 64,
{
    let d = sha256(key.as_bytes());
    proof {
        lemma_hex_of_len(d@);
    }
    to_hex(d.as_slice())
}

/// Whether `presented` is the key whose hash is stored. An empty stored
/// hash (no key ever generated) never authenticates anything. The final
/// comparison runs in constant time.
pub fn check_key(settings: &ApiSettings, presented: &str) -> (ok: bool)
    ensures
        ok == (settings.api_key_hash@.len() > 0 && settings.api_key_hash@ == key_hash(presented@)),
{
    let stored = settings.api_key_hash.as_str();
    if crate::text::chars_of(stored).len() == 0 {
        return false;
    }
    let presented_hash = hash_key(presented);
    let sb = stored.as_bytes();
    let pb = presented_hash.as_str().as_bytes();
    if sb.len() != pb.len() {
        proof {
            if settings.api_key_hash@ == key_hash(presented@) {
                assert(sb@ == pb@);
            }
        }
        return false;
    }
    let r = ct_eq(sb, pb);
    proof {
        vstd::utf8::encode_utf8_decode_utf8(settings.api_key_hash@);
        vstd::utf8::encode_utf8_decode_utf8(presented_hash@);
    }
    r
}

/// A fresh API key: 32 lowercase hexadecimal digits from a random v4 UUID.
pub fn generate_key() -> (k: String)
    ensures
        k@.len() == 32,
        forall|i: int| 0 <= i < 32 ==> is_hex_lower(#[trigger] k@[i]),
        v4_marked(k@),
{
    random_uuid_simple()
}

} // verus!
