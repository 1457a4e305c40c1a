//! What holds of parsing a shred, reading pieces of it off the wire, and writing to it.
use crate::bytes_util::{le_u16, splice};
use crate::error::{Error, ShredHeaders};
use crate::geometry::{headers_size, payload_size, proof_offset_of};
use crate::header::{coding_headers_are_a_prefix, ShredCommonHeader};
use crate::model::{data_of, node_of, part_of, proof_of, root_of, ShredView};
use crate::shred::{id_of, shred_in};
use crate::shred_type::{byte_variant_round_trip, ShredType};
use crate::wire::{
    erasure_config_in, fec_set_index_in, flags_in, id_in, index_in, merkle_root_in,
    retransmitter_offset_in, retransmitter_signature_in, slot_in, type_in, variant_in, version_in,
};
use vstd::prelude::*;

verus! {

/// A shred that was read makes sense, is of the type of its variant and of the size of its type, and
/// holds the first bytes of what was read.
pub proof fn parsed_shred_makes_sense(s: Seq<u8>)
    ensures
        shred_in(s) matches Ok(shred) ==> {
            &&& shred.sanitize() is Ok
            &&& shred.kind() == shred.common().shred_variant.kind()
            &&& shred.common().shred_variant.encodable()
            &&& shred.payload.len() == payload_size(shred.kind())
            &&& payload_size(shred.kind()) <= s.len()
            &&& shred.payload == s.take(payload_size(shred.kind()) as int)
            &&& variant_in(s) == Ok::<_, Error>(shred.common().shred_variant)
        },
{
    if s.len() > 64 {
        byte_variant_round_trip(s[64]);
    }
}

/// A shred that makes sense has all its parts: the Merkle proof, the leaf, the root of the previous
/// batch, the erasure coded part, and a retransmitter's signature if its variant says so.
pub proof fn sane_shred_has_all_parts(shred: ShredView)
    requires
        shred.sanitize() is Ok,
    ensures
        shred.params() is Ok,
        shred.payload.len() == payload_size(shred.kind()),
        shred.merkle_proof() is Ok,
        shred.merkle_node() is Ok,
        shred.chained_merkle_root() is Ok,
        shred.erasure_shard_index() is Ok,
        shred.erasure_shard() is Ok,
        shred.retransmitter_signature() is Ok == shred.common().shred_variant.signed_again(),
        shred.kind() == ShredType::Data ==> shred.data() is Ok && shred.parent() is Ok,
{
}

/// Parsing the payload of a shred that was read gives the shred again.
pub proof fn parsing_is_idempotent(s: Seq<u8>)
    ensures
        shred_in(s) matches Ok(shred) ==> shred_in(shred.payload) == Ok::<_, Error>(shred),
{
    if let Ok(shred) = shred_in(s) {
        parsed_shred_makes_sense(s);
        let payload = shred.payload;
        assert(payload.take(payload.len() as int) =~= payload);
        match shred.kind() {
            ShredType::Code => coding_headers_are_a_prefix(payload, s),
            ShredType::Data => {},
        }
    }
}

/// Bytes behind a shred, such as a nonce, change nothing.
pub proof fn trailing_bytes_are_ignored(s: Seq<u8>, more: Seq<u8>)
    requires
        type_in(s) matches Ok(kind) ==> s.len() >= payload_size(kind),
        type_in(s) is Ok,
    ensures
        shred_in(s + more) == shred_in(s),
{
    let kind = type_in(s)->Ok_0;
    assert((s + more).take(payload_size(kind) as int) =~= s.take(payload_size(kind) as int));
    match kind {
        ShredType::Code => coding_headers_are_a_prefix(s + more, s),
        ShredType::Data => {},
    }
}

/// What is read off the bytes of a shred is what parsing them gives.
pub proof fn wire_agrees_with_parsed_shred(s: Seq<u8>)
    ensures
        shred_in(s) matches Ok(shred) ==> {
            let variant = shred.common().shred_variant;
            &&& variant_in(s) == Ok::<_, Error>(variant)
            &&& slot_in(s) == Some(shred.common().slot)
            &&& index_in(s) == Some(shred.common().index)
            &&& version_in(s) == Some(shred.common().version)
            &&& fec_set_index_in(s) == Some(shred.common().fec_set_index)
            &&& id_in(s) == Some(id_of(shred))
            &&& retransmitter_offset_in(s) == shred.retransmitter_signature_offset()
            &&& retransmitter_signature_in(s) == shred.retransmitter_signature()
            &&& match shred.headers {
                ShredHeaders::Data(_, header) => {
                    &&& flags_in(s) == Ok::<_, Error>(header.flags)
                    &&& le_u16(s, 83) == header.parent_offset
                    &&& data_of(s, variant.entries(), variant.signed_again(), le_u16(s, 86))
                        == shred.data()
                },
                ShredHeaders::Code(_, header) => {
                    &&& flags_in(s) is Err
                    &&& erasure_config_in(s) matches Ok(config) && config.num_data
                        == header.num_data_shreds && config.num_coding == header.num_coding_shreds
                },
            }
        },
{
    if let Ok(shred) = shred_in(s) {
        parsed_shred_makes_sense(s);
        let payload = shred.payload;
        let variant = shred.common().shred_variant;
        if let Ok(offset) = shred.retransmitter_signature_offset() {
            assert(part_of(s, offset as int, 64)->Ok_0 =~= part_of(
                payload,
                offset as int,
                64,
            )->Ok_0);
        }
        if let ShredHeaders::Data(_, header) = shred.headers {
            assert(header.size == le_u16(s, 86));
            assert(data_of(s, variant.entries(), variant.signed_again(), header.size)->Ok_0
                =~= shred.data()->Ok_0);
        }
    }
}

/// The Merkle root that is read off the bytes of a shred is that of the parsed shred.
pub proof fn wire_merkle_root_agrees(s: Seq<u8>)
    ensures
        shred_in(s) matches Ok(shred) ==> {
            let variant = shred.common().shred_variant;
            merkle_root_in(s, variant.kind(), variant.entries(), variant.signed_again())
                == match shred.merkle_root() {
                Ok(root) => Some(root),
                Err(_) => None,
            }
        },
{
    if let Ok(shred) = shred_in(s) {
        parsed_shred_makes_sense(s);
        let proof_size = shred.common().shred_variant.entries();
        let offset = shred.proof_offset()->Ok_0;
        lemma_root_is_of_front(s, shred.payload, offset as int, proof_size);
    }
}

/// The proof and the leaf of a shred lie in front of the end of the proof.
proof fn lemma_root_is_of_front(s: Seq<u8>, t: Seq<u8>, offset: int, proof_size: u8)
    requires
        64 <= offset,
        offset + proof_size * 20 <= s.len(),
        offset + proof_size * 20 <= t.len(),
        forall|i: int| 64 <= i < offset + proof_size * 20 ==> s[i] == t[i],
    ensures
        proof_of(s, offset, proof_size) == proof_of(t, offset, proof_size),
        node_of(s, 64, offset) == node_of(t, 64, offset),
        forall|index: nat| #[trigger]
            root_of(s, index, offset, proof_size) == root_of(t, index, offset, proof_size),
{
    let a = proof_of(s, offset, proof_size)->Ok_0;
    let b = proof_of(t, offset, proof_size)->Ok_0;
    assert forall|i: int| 0 <= i < proof_size implies a[i] == b[i] by {
        assert(a[i] =~= b[i]);
    }
    assert(a =~= b);
    assert(s.subrange(64, offset) =~= t.subrange(64, offset));
}

/// A retransmitter's signature that was set is read back, and nothing else of the shred changes.
pub proof fn retransmitter_signature_is_read_back(shred: ShredView, signature: Seq<u8>)
    requires
        shred.sanitize() is Ok,
        shred.retransmitter_signature() is Ok,
        signature.len() == 64,
    ensures
        ({
            let offset = shred.retransmitter_signature_offset()->Ok_0;
            let signed = ShredView { payload: splice(shred.payload, offset as int, signature), ..shred };
            &&& signed.retransmitter_signature() == Ok::<_, Error>(signature)
            &&& signed.sanitize() is Ok
            &&& signed.merkle_root() == shred.merkle_root()
            &&& signed.merkle_proof() == shred.merkle_proof()
            &&& signed.chained_merkle_root() == shred.chained_merkle_root()
            &&& signed.erasure_shard() == shred.erasure_shard()
            &&& signed.data() == shred.data()
        }),
{
    let offset = shred.retransmitter_signature_offset()->Ok_0 as int;
    let signed = ShredView { payload: splice(shred.payload, offset, signature), ..shred };
    let proof_offset = shred.proof_offset()->Ok_0 as int;
    let (proof_size, _) = shred.params()->Ok_0;
    assert(signed.payload.subrange(offset, offset + 64) =~= signature);
    lemma_root_is_of_front(signed.payload, shred.payload, proof_offset, proof_size);
    assert(signed.chained_merkle_root()->Ok_0 =~= shred.chained_merkle_root()->Ok_0);
    assert(signed.erasure_shard()->Ok_0 =~= shred.erasure_shard()->Ok_0);
    if shred.kind() == ShredType::Data {
        assert(signed.data()->Ok_0 =~= shred.data()->Ok_0);
    }
}

/// A retransmitter's signature that was written to the bytes of a shred is read back from there, and
/// the name, the type and the Merkle root of the shred stay the same.
pub proof fn wire_retransmitter_signature_is_read_back(s: Seq<u8>, signature: Seq<u8>)
    requires
        retransmitter_signature_in(s) is Ok,
        signature.len() == 64,
    ensures
        ({
            let signed = splice(s, retransmitter_offset_in(s)->Ok_0 as int, signature);
            let variant = variant_in(s)->Ok_0;
            &&& retransmitter_signature_in(signed) == Ok::<_, Error>(signature)
            &&& variant_in(signed) == variant_in(s)
            &&& id_in(signed) == id_in(s)
            &&& merkle_root_in(signed, variant.kind(), variant.entries(), variant.signed_again())
                == merkle_root_in(s, variant.kind(), variant.entries(), variant.signed_again())
        }),
{
    let offset = retransmitter_offset_in(s)->Ok_0 as int;
    let signed = splice(s, offset, signature);
    let variant = variant_in(s)->Ok_0;
    let proof_offset = proof_offset_of(
        variant.kind(),
        variant.entries(),
        variant.signed_again(),
    )->Ok_0;
    assert(headers_size(variant.kind()) <= proof_offset <= offset);
    assert(signed.subrange(offset, offset + 64) =~= signature);
    lemma_root_is_of_front(signed, s, proof_offset as int, variant.entries());
}

/// A Merkle root of the previous batch that was set is read back; the headers, the erasure coded part
/// and the proof stay the same.
pub proof fn chained_merkle_root_is_read_back(shred: ShredView, root: Seq<u8>)
    requires
        shred.sanitize() is Ok,
        root.len() == 32,
    ensures
        ({
            let offset = shred.chained_merkle_root_offset()->Ok_0;
            let chained = ShredView { payload: splice(shred.payload, offset as int, root), ..shred };
            &&& chained.chained_merkle_root() == Ok::<_, Error>(root)
            &&& chained.sanitize() is Ok
            &&& chained.erasure_shard() == shred.erasure_shard()
            &&& chained.merkle_proof() == shred.merkle_proof()
            &&& chained.retransmitter_signature() == shred.retransmitter_signature()
        }),
{
    let offset = shred.chained_merkle_root_offset()->Ok_0 as int;
    let chained = ShredView { payload: splice(shred.payload, offset, root), ..shred };
    let (proof_size, _) = shred.params()->Ok_0;
    assert(chained.payload.subrange(offset, offset + 32) =~= root);
    assert(chained.erasure_shard()->Ok_0 =~= shred.erasure_shard()->Ok_0);
    let a = chained.merkle_proof()->Ok_0;
    let b = shred.merkle_proof()->Ok_0;
    assert forall|i: int| 0 <= i < proof_size implies a[i] == b[i] by {
        assert(a[i] =~= b[i]);
    }
    assert(a =~= b);
    if shred.retransmitter_signature() is Ok {
        assert(chained.retransmitter_signature()->Ok_0 =~= shred.retransmitter_signature()->Ok_0);
    }
}

/// The leader's signature is of the Merkle root, and setting it does not change the root.
pub proof fn signature_is_not_signed(shred: ShredView, signed: ShredView)
    requires
        shred.sanitize() is Ok,
        signed.kind() == shred.kind(),
        signed.common() == (ShredCommonHeader {
            signature: signed.common().signature,
            ..shred.common()
        }),
        shred.headers is Data ==> signed.headers->Data_1 == shred.headers->Data_1,
        shred.headers is Code ==> signed.headers->Code_1 == shred.headers->Code_1,
        signed.payload == splice(shred.payload, 0, signed.common().signature@),
    ensures
        signed.merkle_root() == shred.merkle_root(),
        signed.sanitize() is Ok,
{
    let proof_offset = shred.proof_offset()->Ok_0 as int;
    let (proof_size, _) = shred.params()->Ok_0;
    lemma_root_is_of_front(signed.payload, shred.payload, proof_offset, proof_size);
}

} // verus!
