//! Digests: BLAKE2b with 256 bits of output, personalised for this ledger.
//!
//! A digest names a registry and fingerprints a program. The digest function
//! itself is not part of this crate; what is proved here rests on its being a
//! function of its input.

use vstd::prelude::*;

verus! {

/// The personalisation of every digest of this ledger: the sixteen ASCII
/// characters `ckb-default-hash`.
pub const PERSONALIZATION: [u8; 16] = [
    0x63, 0x6b, 0x62, 0x2d, 0x64, 0x65, 0x66, 0x61, 0x75, 0x6c, 0x74, 0x2d, 0x68, 0x61, 0x73, 0x68,
];

/// The 32-byte BLAKE2b digest of `data` under the personalisation `personal`,
/// without key or salt.
pub uninterp spec fn blake2b_256(personal: Seq<u8>, data: Seq<u8>) -> Seq<u8>;

/// The digest of `data` as this ledger takes it.
pub open spec fn digest_of(data: Seq<u8>) -> Seq<u8> {
    blake2b_256(PERSONALIZATION@, data)
}

/// A fingerprint that a cell may lack, as a value of mathematics.
pub open spec fn hash_view(hash: Option<[u8; 32]>) -> Option<Seq<u8>> {
    match hash {
        Some(h) => Some(h@),
        None => None,
    }
}

/// A list of such fingerprints as a value of mathematics.
pub open spec fn hashes_view(hashes: Seq<Option<[u8; 32]>>) -> Seq<Option<Seq<u8>>> {
    Seq::new(hashes.len(), |i: int| hash_view(hashes[i]))
}

/// The digest keeps `a` and `b` apart: if their digests are the same, they
/// are the same. Nothing here proves this of any two byte strings; a
/// statement that rests on it says so.
pub open spec fn collision_free(a: Seq<u8>, b: Seq<u8>) -> bool {
    digest_of(a) == digest_of(b) ==> a == b
}

/// Calls `blake2b_rs::Blake2bBuilder::new(32)`, `personal`, `build`, then
/// `Blake2b::update` once and `Blake2b::finalize`. Trusted: the 32 bytes that
/// come back are the BLAKE2b digest of `data` under that personalisation, a
/// function of the two byte strings alone. The builder refuses a
/// personalisation of more than sixteen bytes.
#[verifier::external_body]
fn blake2b_256_digest(personal: &[u8], data: &[u8]) -> (digest: [u8; 32])
    requires
        personal@.len() <= 16,
    ensures
        digest@ == blake2b_256(personal@, data@),
{
    let mut digest: [u8; 32] = [0u8; 32];
    let mut hasher = blake2b_rs::Blake2bBuilder::new(32).personal(personal).build();
    hasher.update(data);
    hasher.finalize(&mut digest);
    digest
}

/// The digest of `data`.
pub fn ckb_hash(data: &[u8]) -> (digest: [u8; 32])
    ensures
        digest@ == digest_of(data@),
{
    let personal = PERSONALIZATION;
    blake2b_256_digest(personal.as_slice(), data)
}

} // verus!
