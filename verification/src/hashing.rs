//! Hashes of sheet files, as the split cache records them.

use vstd::prelude::*;
use sha2::Digest;
use crate::sheet_lookup::SplitCacheHashEntry;
use crate::text::string_from_chars;

verus! {

/// The SHA-256 digest of a byte string.
pub uninterp spec fn sha256_of(bytes: Seq<u8>) -> Seq<u8>;

/// `sha2::Sha256::digest`: the SHA-256 digest of `bytes`, which is 32 bytes
/// long.
#[verifier::external_body]
fn sha256_digest(bytes: &[u8]) -> (r: Vec<u8>)
    ensures
        r@ == sha256_of(bytes@),
        r@.len() == 32,
{
    sha2::Sha256::digest(bytes).to_vec()
}

/// The lower-case hexadecimal digit of a value below 16.
pub open spec fn hex_digit(n: u8) -> char {
    if n < 10 {
        ((n as int) + ('0' as int)) as char
    } else {
        ((n as int) - 10 + ('a' as int)) as char
    }
}

/// Two lower-case hexadecimal digits per byte, most significant first
/// (`format!("{byte:02x}")` for each byte).
pub open spec fn hex_spec(bytes: Seq<u8>) -> Seq<char>
    decreases bytes.len(),
{
    if bytes.len() == 0 {
        Seq::empty()
    } else {
        hex_spec(bytes.drop_last()).push(hex_digit(bytes.last() / 16)).push(
            hex_digit(bytes.last() % 16),
        )
    }
}

fn hex_digit_exec(n: u8) -> (c: char)
    requires
        n < 16,
    ensures
        c == hex_digit(n),
{
    if n < 10 {
        (n + 48) as char
    } else {
        (n - 10 + 97) as char
    }
}

/// Lower-case hexadecimal text of a byte string.
pub fn hex_lower(bytes: &[u8]) -> (r: String)
    ensures
        r@ == hex_spec(bytes@),
{
    let mut out: Vec<char> = Vec::new();
    let mut i: usize = 0;
    while i < bytes.len()
        invariant
            i <= bytes.len(),
            out@ == hex_spec(bytes@.subrange(0, i as int)),
        decreases bytes.len() - i,
    {
        let b = bytes[i];
        proof {
            assert(bytes@.subrange(0, i + 1).drop_last() =~= bytes@.subrange(0, i as int));
            assert(bytes@.subrange(0, i + 1).last() == b);
        }
        out.push(hex_digit_exec(b / 16));
        out.push(hex_digit_exec(b % 16));
        i = i + 1;
    }
    proof {
        assert(bytes@.subrange(0, bytes@.len() as int) =~= bytes@);
    }
    string_from_chars(out.as_slice())
}

/// The lower-case hexadecimal SHA-256 digest of a byte string.
pub fn sha256_hex(bytes: &[u8]) -> (r: String)
    ensures
        r@ == hex_spec(sha256_of(bytes@)),
        r@.len() == 64,
{
    let d = sha256_digest(bytes);
    proof {
        lemma_hex_len(d@);
    }
    hex_lower(d.as_slice())
}

proof fn lemma_hex_len(b: Seq<u8>)
    ensures
        hex_spec(b).len() == 2 * b.len(),
    decreases b.len(),
{
    if b.len() > 0 {
        lemma_hex_len(b.drop_last());
    }
}

/// The hashes of a sheet's `.plist` and `.png` contents.
pub fn hash_sheet_pair(plist_bytes: &[u8], png_bytes: &[u8]) -> (r: SplitCacheHashEntry)
    ensures
        r.plist_sha256@ == hex_spec(sha256_of(plist_bytes@)),
        r.png_sha256@ == hex_spec(sha256_of(png_bytes@)),
{
    SplitCacheHashEntry { plist_sha256: sha256_hex(plist_bytes), png_sha256: sha256_hex(png_bytes) }
}

} // verus!
