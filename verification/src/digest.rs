//! The anonymous identity under which a member's reports are filed.
//!
//! A report never stores who made it. It stores the SHA3-256 digest of the
//! reporter's identifier followed by a fixed salt: the same member always
//! files under the same identity, so a second report of one quote is
//! recognised, while the identifier cannot be read off the record.

use sha3::{Digest, Sha3_256};
use vstd::prelude::*;
use vstd::string::*;
use vstd::utf8::encode_utf8;
use crate::model::Text;

verus! {

/// The SHA3-256 digest of a sequence of bytes.
pub uninterp spec fn sha3_256(data: Seq<u8>) -> Seq<u8>;

/// Calls `sha3::Sha3_256::digest`, the one-shot form of the hasher: a new
/// hasher is fed `data` and finalised. The contract claims that what comes
/// back is the digest of `data`, and so depends on nothing but `data`.
#[verifier::external_body]
fn sha3_256_digest(data: &[u8]) -> (out: Vec<u8>)
    ensures
        out@ == sha3_256(data@),
{
    Sha3_256::digest(data).to_vec()
}

/// What is hashed for a reporter: the identifier with the salt behind it.
pub open spec fn salted(username: Text) -> Text {
    username + "coleandethanwerehere"@
}

/// The identity under which `username` files reports.
pub open spec fn reporter_identity(username: Text) -> Seq<u8> {
    sha3_256(encode_utf8(salted(username)))
}

/// Computes the identity under which `username` files reports.
pub fn reporter_hash(username: &str) -> (hash: Vec<u8>)
    ensures
        hash@ == reporter_identity(username@),
{
    let mut salted = username.to_string();
    salted.append("coleandethanwerehere");
    sha3_256_digest(salted.as_str().as_bytes())
}

/// Whether two byte strings are the same.
pub fn same_bytes(a: &Vec<u8>, b: &Vec<u8>) -> (same: bool)
    ensures
        same == (a@ == b@),
{
    if a.len() != b.len() {
        return false;
    }
    let mut i: usize = 0;
    while i < a.len()
        invariant
            i <= a.len(),
            a.len() == b.len(),
            forall|k: int| 0 <= k < i ==> a@[k] == b@[k],
        decreases a.len() - i,
    {
        if a[i] != b[i] {
            return false;
        }
        i += 1;
    }
    proof {
        assert(a@ =~= b@);
    }
    true
}

} // verus!
