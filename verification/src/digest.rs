//! SHA-256 digests of configuration text and snapshot files, and the check that a restored
//! file is the one the manifest recorded.
use vstd::prelude::*;

use sha2::Digest;
use vstd::string::StringSliceAdditionalSpecFns;

use crate::error::ThermalError;
use crate::text::{owned, str_eq};

verus! {

/// Lower-case hexadecimal SHA-256 digest of `bytes`, as `sha2` computes it.
pub uninterp spec fn sha256_hex(bytes: Seq<u8>) -> Seq<char>;

/// Calls `sha2::Sha256::digest` and writes the digest with `{:x}`. Claimed: the text is the
/// named digest of the bytes, and it has 64 characters (two hexadecimal digits for each of
/// the 32 digest bytes, as the `LowerHex` impl of `generic_array` writes them).
#[verifier::external_body]
fn sha256_hex_of(bytes: &[u8]) -> (r: String)
    ensures
        r@ == sha256_hex(bytes@),
        r@.len() == 64,
{
    format!("{:x}", sha2::Sha256::digest(bytes))
}

/// Digest of a configuration file's text, recorded in every artifact.
pub fn config_sha256(cfg_txt: &str) -> (r: String)
    ensures
        r@ == sha256_hex(cfg_txt.spec_bytes()),
        r@.len() == 64,
{
    sha256_hex_of(cfg_txt.as_bytes())
}

/// Digest of a file's bytes.
pub fn sha256_of_bytes(bytes: &[u8]) -> (r: String)
    ensures
        r@ == sha256_hex(bytes@),
        r@.len() == 64,
{
    sha256_hex_of(bytes)
}

/// Accepts a snapshot file whose bytes have the digest the manifest recorded; otherwise
/// refuses it, naming the file.
pub fn check_snapshot_digest(bytes: &[u8], expected_sha256: &str, file_name: &str) -> (r: Result<(), ThermalError>)
    ensures
        r is Ok <==> sha256_hex(bytes@) == expected_sha256@,
        r matches Err(e) ==> (e matches ThermalError::InvalidSnapshotPath(m) && m@
            == "sha256 mismatch for "@ + file_name@),
{
    let actual = sha256_hex_of(bytes);
    if str_eq(actual.as_str(), expected_sha256) {
        Ok(())
    } else {
        let mut m = owned("sha256 mismatch for ");
        m.append(file_name);
        Err(ThermalError::InvalidSnapshotPath(m))
    }
}

} // verus!
