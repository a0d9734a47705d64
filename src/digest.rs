use sha2::Digest;
use vstd::prelude::*;
use vstd::string::StringSliceAdditionalSpecFns;

verus! {

/// The SHA-256 digest of a byte sequence.
pub uninterp spec fn sha256_of(data: Seq<u8>) -> Seq<u8>;

/// The lower-case hexadecimal digit for a value below 16.
pub open spec fn hex_digit(n: u8) -> char {
    if n < 10 {
        (n + 48) as char
    } else {
        (n + 87) as char
    }
}

/// Lower-case hexadecimal text of a byte sequence, two digits per byte,
/// high nibble first.
pub open spec fn hex_of(b: Seq<u8>) -> Seq<char>
    decreases b.len(),
{
    if b.len() == 0 {
        Seq::empty()
    } else {
        hex_of(b.drop_last()) + seq![hex_digit(b.last() / 16), hex_digit(b.last() % 16)]
    }
}

pub proof fn lemma_hex_len(b: Seq<u8>)
    ensures
        hex_of(b).len() == 2 * b.len(),
    decreases b.len(),
{
    if b.len() > 0 {
        lemma_hex_len(b.drop_last());
    }
}

/// Relies on sha2's `Sha256::digest`: the 32-byte SHA-256 digest of the data.
#[verifier::external_body]
pub(crate) fn sha256(data: &[u8]) -> (r: Vec<u8>)
    ensures
        r@ == sha256_of(data@),
        r@.len() == 32,
{
    sha2::Sha256::digest(data).to_vec()
}

/// Relies on `hex::encode`: two lower-case hexadecimal digits per byte, high
/// nibble first.
#[verifier::external_body]
pub(crate) fn hex_encode(data: &[u8]) -> (r: String)
    ensures
        r@ == hex_of(data@),
{
    hex::encode(data)
}

/// Lower-case hexadecimal SHA-256 digest of the UTF-8 bytes of a text.
pub open spec fn content_hash(s: &str) -> Seq<char> {
    hex_of(sha256_of(s.spec_bytes()))
}

/// Prefix of every collection identifier.
pub open spec fn collection_prefix() -> Seq<char> {
    "code_index_"@
}

/// Collection identifier of a project root: a fixed prefix followed by the
/// first 16 hexadecimal digits of the SHA-256 digest of its path.
pub open spec fn collection_name_of(root: &str) -> Seq<char> {
    collection_prefix() + content_hash(root).subrange(0, 16)
}

pub fn hash_text(content: &str) -> (r: String)
    ensures
        r@ == content_hash(content),
        r@.len() == 64,
{
    let d = sha256(content.as_bytes());
    let h = hex_encode(d.as_slice());
    proof {
        lemma_hex_len(d@);
    }
    h
}

/// The collection identifier of a project root (see `collection_name_of`).
pub fn collection_name_for(root: &str) -> (r: String)
    ensures
        r@ == collection_name_of(root),
{
    let h = hash_text(root);
    let mut name = String::from_str("code_index_");
    name.append(h.as_str().substring_char(0, 16));
    name
}

} // verus!
