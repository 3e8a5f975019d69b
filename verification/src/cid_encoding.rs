//! The binary form of a content identifier, as the `cid` crate produces it.

use vstd::prelude::*;
use cid::Cid;

verus! {

/// `cid::CidGeneric`, a content identifier. Its inside is not looked at here.
#[verifier::external_type_specification]
#[verifier::external_body]
pub struct ExCid<const S: usize>(cid::CidGeneric<S>);

/// `cid::Error`.
#[verifier::external_type_specification]
#[verifier::external_body]
pub struct ExCidError(cid::Error);

/// The canonical binary form of `cid`: the bytes that `Cid::write_bytes`
/// writes for it.
pub uninterp spec fn cid_bytes(cid: Cid) -> Seq<u8>;

/// Calls `Cid::write_bytes` with `buf` as the destination. The call
/// succeeds: it fails only where a write to its destination fails, and a
/// write to a `Vec<u8>` appends and never does. The identifier's binary form
/// then stands behind what `buf` held, and the count returned is its length.
#[verifier::external_body]
pub(crate) fn append_cid_bytes(cid: &Cid, buf: &mut Vec<u8>) -> (r: Result<usize, cid::Error>)
    ensures
        r is Ok,
        r matches Ok(n) ==> final(buf)@ == old(buf)@ + cid_bytes(*cid) && n == cid_bytes(*cid).len(),
{
    cid.write_bytes(buf)
}

} // verus!
