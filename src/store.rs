//! Content addressing: digests of file contents and where their copies lie.

use vstd::prelude::*;

verus! {

/// The SHA-256 digest of `data`, written as lowercase hexadecimal.
pub uninterp spec fn sha256_hex(data: Seq<u8>) -> Seq<char>;

/// A lowercase hexadecimal digit.
pub open spec fn is_lower_hex(c: char) -> bool {
    ('0' <= c <= '9') || ('a' <= c <= 'f')
}

/// Relies on rust-crypto's `Sha256` through `Digest::input` and
/// `Digest::result_str`: the digest of exactly these bytes, written by
/// rustc-serialize's `to_hex` as 64 characters from `0123456789abcdef`.
#[verifier::external_body]
fn sha256_of(data: &[u8]) -> (r: String)
    ensures
        r@ == sha256_hex(data@),
        r@.len() == 64,
        forall|i: int| 0 <= i < r@.len() ==> is_lower_hex(#[trigger] r@[i]),
{
    let mut hasher = crypto::sha2::Sha256::new();
    crypto::digest::Digest::input(&mut hasher, data);
    crypto::digest::Digest::result_str(&mut hasher)
}

/// The digest that identifies a snapshot of `contents`.
pub fn digest_of(contents: &[u8]) -> (r: String)
    ensures
        r@ == sha256_hex(contents@),
        r@.len() == 64,
        forall|i: int| 0 <= i < r@.len() ==> is_lower_hex(#[trigger] r@[i]),
{
    sha256_of(contents)
}

/// Where the copy of the snapshot of `path` with `digest` lies under `root`.
pub open spec fn spec_blob_path(root: Seq<char>, path: Seq<char>, digest: Seq<char>) -> Seq<char> {
    root + "/"@ + path + "-"@ + digest
}

/// The location of a snapshot's copy, derived from the store's root, the
/// tracked path and the digest alone.
pub fn blob_path(root: &str, path: &str, digest: &str) -> (r: String)
    ensures
        r@ == spec_blob_path(root@, path@, digest@),
{
    let mut r = String::new();
    r.append(root);
    r.append("/");
    r.append(path);
    r.append("-");
    r.append(digest);
    r
}

} // verus!
