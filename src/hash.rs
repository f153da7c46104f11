//! The content digest that serves as the deduplication key.

use vstd::prelude::*;

verus! {

/// The SHA-256 digest of `data`.
pub uninterp spec fn sha256_of(data: Seq<u8>) -> Seq<u8>;

/// Relies on sha2::Sha256::digest: the 32-byte SHA-256 digest of the input.
#[verifier::external_body]
fn sha256(data: &[u8]) -> (r: Vec<u8>)
    ensures
        r@ == sha256_of(data@),
        r@.len() == 32,
{
    <sha2::Sha256 as sha2::Digest>::digest(data).to_vec()
}

pub open spec fn hex_digits() -> Seq<char> {
    seq!['0', '1', '2', '3', '4', '5', '6', '7', '8', '9', 'a', 'b', 'c', 'd', 'e', 'f']
}

/// Lower-case hexadecimal text of `b`: two digits per byte, high nibble first.
pub open spec fn hex_text(b: Seq<u8>) -> Seq<char> {
    Seq::new(
        2 * b.len(),
        |i: int|
            if i % 2 == 0 {
                hex_digits()[b[i / 2] as int / 16]
            } else {
                hex_digits()[b[i / 2] as int % 16]
            },
    )
}

/// Relies on hex::encode: two lower-case digits for each byte, high nibble first.
#[verifier::external_body]
fn hex_encode(b: &[u8]) -> (r: String)
    ensures
        r@ == hex_text(b@),
{
    hex::encode(b)
}

/// The digest text of a collection: the hex form of its SHA-256 digest.
pub open spec fn content_hash_of(data: Seq<u8>) -> Seq<char> {
    hex_text(sha256_of(data))
}

/// Computes the deterministic hex SHA-256 digest of backup content.
pub fn content_hash(content: &[u8]) -> (r: String)
    ensures
        r@ == content_hash_of(content@),
        r@.len() == 64,
{
    let digest = sha256(content);
    hex_encode(digest.as_slice())
}

proof fn lemma_hex_digit_injective(a: int, b: int)
    requires
        0 <= a < 16,
        0 <= b < 16,
        hex_digits()[a] == hex_digits()[b],
    ensures
        a == b,
{
}

/// Hex text determines the bytes it was made from.
pub proof fn lemma_hex_text_injective(a: Seq<u8>, b: Seq<u8>)
    requires
        hex_text(a) == hex_text(b),
    ensures
        a == b,
{
    assert(a.len() == b.len()) by {
        assert(hex_text(a).len() == 2 * a.len());
    }
    assert forall|k: int| 0 <= k < a.len() implies a[k] == b[k] by {
        let ta = hex_text(a);
        let tb = hex_text(b);
        assert(ta[2 * k] == tb[2 * k]);
        assert(ta[2 * k + 1] == tb[2 * k + 1]);
        assert((2 * k) / 2 == k);
        assert((2 * k + 1) / 2 == k);
        assert((2 * k) % 2 == 0);
        assert((2 * k + 1) % 2 == 1);
        lemma_hex_digit_injective(a[k] as int / 16, b[k] as int / 16);
        lemma_hex_digit_injective(a[k] as int % 16, b[k] as int % 16);
        assert(a[k] as int == 16 * (a[k] as int / 16) + a[k] as int % 16);
        assert(b[k] as int == 16 * (b[k] as int / 16) + b[k] as int % 16);
    }
    assert(a =~= b);
}

/// The digest text is a function of the content alone, and two contents get
/// different texts exactly when their SHA-256 digests differ.
pub proof fn lemma_content_hash_deterministic(b1: Seq<u8>, b2: Seq<u8>)
    ensures
        b1 == b2 ==> content_hash_of(b1) == content_hash_of(b2),
        (content_hash_of(b1) == content_hash_of(b2)) <==> (sha256_of(b1) == sha256_of(b2)),
{
    if content_hash_of(b1) == content_hash_of(b2) {
        lemma_hex_text_injective(sha256_of(b1), sha256_of(b2));
    }
}

} // verus!
