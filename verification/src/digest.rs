//! Content digests.
use vstd::prelude::*;

verus! {

/// What `blake3::hash` returns for these bytes.
pub uninterp spec fn blake3_hash(bytes: Seq<u8>) -> Seq<u8>;

/// `blake3::hash`: the unkeyed digest of all the bytes. It depends on the
/// bytes alone.
#[verifier::external_body]
pub(crate) fn hash(bytes: &Vec<u8>) -> (r: [u8; 32])
    ensures
        r@ == blake3_hash(bytes@),
{
    *blake3::hash(bytes).as_bytes()
}

#[verifier::external_type_specification]
#[verifier::external_body]
pub struct ExHasher(blake3::Hasher);

/// The bytes that a hasher has been fed so far, in order.
pub uninterp spec fn absorbed(h: blake3::Hasher) -> Seq<u8>;

/// The domain string that a key-derivation hasher was made with.
pub uninterp spec fn domain(h: blake3::Hasher) -> Seq<char>;

/// The key-derivation digest of a domain string and key material.
pub uninterp spec fn blake3_derived(domain: Seq<char>, material: Seq<u8>) -> Seq<u8>;

/// `blake3::Hasher::new_derive_key`: an empty hasher for one domain.
#[verifier::external_body]
pub(crate) fn new_derive_key(context: &str) -> (r: blake3::Hasher)
    ensures
        domain(r) == context@,
        absorbed(r) == Seq::<u8>::empty(),
{
    blake3::Hasher::new_derive_key(context)
}

/// `blake3::Hasher::update`: feed more bytes. Several updates count as one
/// update with all their bytes.
#[verifier::external_body]
pub(crate) fn update(h: &mut blake3::Hasher, bytes: &[u8])
    ensures
        domain(*final(h)) == domain(*old(h)),
        absorbed(*final(h)) == absorbed(*old(h)) + bytes@,
{
    h.update(bytes);
}

/// `blake3::Hasher::finalize`: the digest of what was fed, which depends on
/// the domain and the bytes alone.
#[verifier::external_body]
pub(crate) fn finalize(h: &blake3::Hasher) -> (r: [u8; 32])
    ensures
        r@ == blake3_derived(domain(*h), absorbed(*h)),
{
    *h.finalize().as_bytes()
}

} // verus!
