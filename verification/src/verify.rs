//! SHA-256 checksums of package data, in lower-case hexadecimal.

use vstd::prelude::*;
use sha2::Digest;

use crate::error::{concat_str, UpmError};

verus! {

/// The SHA-256 digest of `data`.
pub uninterp spec fn sha256_digest(data: Seq<u8>) -> Seq<u8>;

/// The lower-case hexadecimal digit for `n` (below 16).
pub open spec fn hex_char(n: int) -> char {
    seq!['0', '1', '2', '3', '4', '5', '6', '7', '8', '9', 'a', 'b', 'c', 'd', 'e', 'f'][n]
}

/// `data` in lower-case hexadecimal, two digits per byte, high digit first.
pub open spec fn hex_lower(data: Seq<u8>) -> Seq<char>
    decreases data.len(),
{
    if data.len() == 0 {
        Seq::empty()
    } else {
        hex_lower(data.drop_last()) + seq![hex_char(data.last() as int / 16), hex_char(data.last() as int % 16)]
    }
}

/// Two hexadecimal digits per byte.
pub proof fn lemma_hex_lower_len(data: Seq<u8>)
    ensures
        hex_lower(data).len() == 2 * data.len(),
    decreases data.len(),
{
    if data.len() > 0 {
        lemma_hex_lower_len(data.drop_last());
    }
}

/// Calls `sha2::Sha256::digest`: the result is the SHA-256 digest of
/// `data`, a function of `data` alone, 32 bytes long.
#[verifier::external_body]
fn sha256(data: &[u8]) -> (r: Vec<u8>)
    ensures
        r@ == sha256_digest(data@),
        r@.len() == 32,
{
    sha2::Sha256::digest(data).to_vec()
}

/// Calls `hex::encode`: each byte as two lower-case hexadecimal digits.
#[verifier::external_body]
fn hex_encode(data: &[u8]) -> (r: String)
    ensures
        r@ == hex_lower(data@),
{
    hex::encode(data)
}

/// The SHA-256 checksum of `data` in lower-case hexadecimal.
pub fn sha256_bytes(data: &[u8]) -> (r: String)
    ensures
        r@ == hex_lower(sha256_digest(data@)),
        r@.len() == 64,
{
    let digest = sha256(data);
    proof {
        lemma_hex_lower_len(digest@);
    }
    hex_encode(digest.as_slice())
}

/// Compares the checksum `actual` with the one `expected`: refused, naming
/// both, when they differ.
pub fn check_digest(actual: String, expected: &str) -> (r: Result<(), UpmError>)
    ensures
        actual@ == expected@ ==> r is Ok,
        actual@ != expected@ ==> (r matches Err(UpmError::VerificationFailed { expected: e, actual: a })
            && e@ == expected@ && a@ == actual@),
{
    let e = expected.to_owned();
    if actual != e {
        return Err(UpmError::VerificationFailed { expected: e, actual });
    }
    Ok(())
}

/// Checks that the SHA-256 checksum of `data` (a package file's contents)
/// is `expected`.
pub fn verify_checksum(data: &[u8], expected: &str) -> (r: Result<(), UpmError>)
    ensures
        hex_lower(sha256_digest(data@)) == expected@ ==> r is Ok,
        hex_lower(sha256_digest(data@)) != expected@ ==> (r matches Err(
            UpmError::VerificationFailed { expected: e, actual: a },
        ) && e@ == expected@ && a@ == hex_lower(sha256_digest(data@))),
{
    let actual = sha256_bytes(data);
    check_digest(actual, expected)
}

/// Checks a directory from what was observed of it: whether `path` exists,
/// whether it is a directory and whether it is read-only, in that order of
/// precedence.
pub fn verify_directory(path: &str, exists: bool, is_dir: bool, readonly: bool) -> (r: Result<(), UpmError>)
    ensures
        !exists ==> (r matches Err(UpmError::General(m)) && m@ == "Path does not exist: "@ + path@),
        exists && !is_dir ==> (r matches Err(UpmError::General(m)) && m@ == "Path is not a directory: "@
            + path@),
        exists && is_dir && readonly ==> (r matches Err(UpmError::PermissionDenied(m)) && m@
            == "Directory is read-only: "@ + path@),
        exists && is_dir && !readonly ==> r is Ok,
{
    if !exists {
        return Err(UpmError::General(concat_str("Path does not exist: ", path)));
    }
    if !is_dir {
        return Err(UpmError::General(concat_str("Path is not a directory: ", path)));
    }
    if readonly {
        return Err(UpmError::PermissionDenied(concat_str("Directory is read-only: ", path)));
    }
    Ok(())
}

} // verus!
