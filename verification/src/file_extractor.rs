//! Generic file metadata extraction: the SHA-256 content hash that the
//! import pipeline uses as its deduplication key, rendered in lowercase
//! hex exactly as the repository stores it.

use vstd::prelude::*;

verus! {

/// The SHA-256 digest of a byte sequence, as the sha2 crate computes it.
/// It depends on the bytes alone.
pub uninterp spec fn sha256_of(data: Seq<u8>) -> Seq<u8>;

/// Computes the SHA-256 digest of `data`.
///
/// Relies on `sha2::Sha256::digest`: the digest is a function of the
/// input bytes alone, 32 bytes long.
#[verifier::external_body]
fn sha256_digest(data: &Vec<u8>) -> (r: Vec<u8>)
    ensures
        r@ == sha256_of(data@),
        r@.len() == 32,
{
    <sha2::Sha256 as sha2::Digest>::digest(data).to_vec()
}

/// The lowercase hex digit for a value below 16.
pub open spec fn spec_hex_digit(n: int) -> char {
    if n < 10 {
        ((n + '0' as int) as u8) as char
    } else {
        ((n - 10 + 'a' as int) as u8) as char
    }
}

/// Lowercase hex encoding of a byte sequence, two digits per byte.
pub open spec fn spec_hex(data: Seq<u8>) -> Seq<char>
    decreases data.len(),
{
    if data.len() == 0 {
        seq![]
    } else {
        spec_hex(data.drop_last()) + seq![
            spec_hex_digit((data.last() as int) / 16),
            spec_hex_digit((data.last() as int) % 16),
        ]
    }
}

fn hex_digit(n: u8) -> (c: char)
    requires
        n < 16,
    ensures
        c == spec_hex_digit(n as int),
{
    if n < 10 {
        ((48u8 + n) as char)
    } else {
        ((87u8 + n) as char)
    }
}

/// Renders bytes as lowercase hex, two digits per byte.
pub fn to_hex(data: &Vec<u8>) -> (r: String)
    ensures
        r@ == spec_hex(data@),
{
    let mut v: Vec<char> = Vec::new();
    let mut i: usize = 0;
    while i < data.len()
        invariant
            0 <= i <= data@.len(),
            v@ == spec_hex(data@.subrange(0, i as int)),
        decreases data@.len() - i,
    {
        let b = data[i];
        let ghost pre = data@.subrange(0, i as int);
        let ghost pre1 = data@.subrange(0, i + 1 as int);
        proof {
            assert(pre1.drop_last() =~= pre);
            assert(pre1.last() == data@[i as int]);
        }
        v.push(hex_digit(b / 16));
        v.push(hex_digit(b % 16));
        assert(v@ =~= spec_hex(pre) + seq![
            spec_hex_digit((data@[i as int] as int) / 16),
            spec_hex_digit((data@[i as int] as int) % 16),
        ]);
        i = i + 1;
    }
    assert(data@.subrange(0, data@.len() as int) =~= data@);
    crate::text::chars_to_string(&v)
}

/// The content hash of a file's bytes: lowercase hex of the SHA-256 digest.
pub open spec fn spec_file_hash(data: Seq<u8>) -> Seq<char> {
    spec_hex(sha256_of(data))
}

/// An error while extracting generic metadata from a file: the file at
/// the named path could not be found or accessed.
#[derive(Debug, Clone)]
pub enum FileExtractError {
    FileNotFoundError(String),
}

/// Extractor of generic file metadata.
pub struct FileExtractor {}

impl FileExtractor {
    /// Calculates the content hash of a file, from its bytes: the
    /// lowercase hex SHA-256 digest that the repository dedups on.
    pub fn get_file_hash(contents: &Vec<u8>) -> (r: String)
        ensures
            r@ == spec_file_hash(contents@),
            r@.len() == 64,
    {
        let digest = sha256_digest(contents);
        proof {
            lemma_spec_hex_len(digest@);
        }
        to_hex(&digest)
    }
}

proof fn lemma_spec_hex_len(data: Seq<u8>)
    ensures
        spec_hex(data).len() == 2 * data.len(),
    decreases data.len(),
{
    if data.len() > 0 {
        lemma_spec_hex_len(data.drop_last());
    }
}

} // verus!
