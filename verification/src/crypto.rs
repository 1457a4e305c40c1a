//! Hashing and signature checks, which the Solana crates do.
use crate::{Digest, Pubkey, Signature};
use vstd::prelude::*;

verus! {

/// The SHA-256 digest of a byte string.
pub uninterp spec fn sha256(data: Seq<u8>) -> Seq<u8>;

/// Whether an ed25519 signature of a message checks out under a public key.
pub uninterp spec fn ed25519_verifies(
    signature: Seq<u8>,
    pubkey: Seq<u8>,
    message: Seq<u8>,
) -> bool;

/// The parts in a row.
pub open spec fn concat(parts: Seq<&[u8]>) -> Seq<u8>
    decreases parts.len(),
{
    if parts.len() == 0 {
        Seq::empty()
    } else {
        concat(parts.drop_last()) + parts.last()@
    }
}

/// Calls `solana_sha256_hasher::hashv`, which feeds the parts in order to one SHA-256 hasher: the
/// result is the digest of the parts in a row. The digest itself is left without a definition.
#[verifier::external_body]
pub(crate) fn hashv(parts: &[&[u8]]) -> (digest: Digest)
    ensures
        digest@ == sha256(concat(parts@)),
{
    solana_sha256_hasher::hashv(parts).to_bytes()
}

/// Calls `solana_signature::Signature::verify`, which is a function of the signature, the key and
/// the message alone. When a signature checks out is left without a definition.
#[verifier::external_body]
pub(crate) fn verify_signature(signature: &Signature, pubkey: &Pubkey, message: &[u8]) -> (ok: bool)
    ensures
        ok == ed25519_verifies(signature@, pubkey@, message@),
{
    solana_signature::Signature::from(*signature).verify(pubkey, message)
}

/// Two parts in a row.
pub(crate) proof fn lemma_concat_2(parts: Seq<&[u8]>)
    requires
        parts.len() == 2,
    ensures
        concat(parts) == parts[0]@ + parts[1]@,
{
    reveal_with_fuel(concat, 3);
    assert(concat(parts) =~= parts[0]@ + parts[1]@);
}

/// Three parts in a row.
pub(crate) proof fn lemma_concat_3(parts: Seq<&[u8]>)
    requires
        parts.len() == 3,
    ensures
        concat(parts) == parts[0]@ + parts[1]@ + parts[2]@,
{
    lemma_concat_2(parts.drop_last());
}

/// Four parts in a row.
pub(crate) proof fn lemma_concat_4(parts: Seq<&[u8]>)
    requires
        parts.len() == 4,
    ensures
        concat(parts) == parts[0]@ + parts[1]@ + parts[2]@ + parts[3]@,
{
    lemma_concat_3(parts.drop_last());
}

} // verus!
