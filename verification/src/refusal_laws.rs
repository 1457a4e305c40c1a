//! What recovery refuses, and what it makes sure of.
use crate::batch_laws::{are_some_of, is_leaders_batch, is_of_one_batch, lemma_is_some, num_data_of};
use crate::error::{ErasureError, Error, ShredHeaders};
use crate::format_laws::{data_headers_are_read, starts_with, tail_size};
use crate::header::{coding_headers_bytes, data_headers_of};
use crate::merkle_tree::proof_path;
use crate::model::ShredView;
use crate::recover::{
    bare_stub, batch_of, checked, data_recovery_of, has_position, in_order, in_order_sorts,
    mask_of, not_after, rebuilt, recovered, recovered_data, recovery_of, stub_of, template_of,
    with_chained_merkle_root, with_proof, TemplateView,
};
use crate::recover_laws::{
    lemma_batch, lemma_positions_in_order, lemma_stub_fits, lemma_template, position_of,
};
use crate::restore::{common_part, is_whole_batch, lemma_filled_ok, lemma_rebuilt_ok, some_of};
use crate::shred_laws::{parts_of_coding_shreds, parts_of_data_shreds, proofs_are_read_back};
use crate::shred_type::ShredVariant;
use vstd::prelude::*;

verus! {

/// Data shreds stand before coding shreds, and shreds of one type by their indices.
pub proof fn order_of_shreds(shred: ShredView, other: ShredView)
    ensures
        match (shred.headers, other.headers) {
            (ShredHeaders::Data(..), ShredHeaders::Code(..)) => not_after(shred, other) && !not_after(
                other,
                shred,
            ),
            (ShredHeaders::Data(header, _), ShredHeaders::Data(other_header, _)) => not_after(
                shred,
                other,
            ) <==> header.index <= other_header.index,
            (ShredHeaders::Code(header, _), ShredHeaders::Code(other_header, _)) => not_after(
                shred,
                other,
            ) <==> header.index <= other_header.index,
            _ => true,
        },
{
}

/// Without a coding shred nothing tells what the batch is, and nothing is recovered.
pub proof fn data_shreds_alone_are_refused(shreds: Seq<ShredView>)
    requires
        forall|i: int| 0 <= i < shreds.len() ==> (#[trigger] shreds[i]).headers is Data,
    ensures
        recovery_of(shreds) == Err::<Seq<Result<ShredView, Error>>, _>(
            Error::Erasure(ErasureError::TooFewParityShards),
        ),
        data_recovery_of(shreds) == Err::<Seq<ShredView>, _>(
            Error::Erasure(ErasureError::TooFewParityShards),
        ),
{
    broadcast use vstd::seq_lib::group_to_multiset_ensures;

    let sorted = in_order(shreds);
    if sorted.len() > 0 {
        in_order_sorts(shreds);
        assert(sorted.contains(sorted.last()));
        assert(sorted.to_multiset().count(sorted.last()) > 0);
        assert(shreds.contains(sorted.last()));
        let i = choose|i: int| 0 <= i < shreds.len() && shreds[i] == sorted.last();
        assert(shreds[i].headers is Data);
    }
}

/// Fewer shreds of a batch than it has data shreds are too few.
pub proof fn too_few_shreds_are_refused(shreds: Seq<ShredView>, full: Seq<ShredView>)
    requires
        is_leaders_batch(full),
        are_some_of(shreds, full),
        shreds.len() < num_data_of(full),
    ensures
        recovery_of(shreds) == Err::<Seq<Result<ShredView, Error>>, _>(
            Error::Erasure(ErasureError::TooFewShardsPresent),
        ),
        data_recovery_of(shreds) == Err::<Seq<ShredView>, _>(
            Error::Erasure(ErasureError::TooFewShardsPresent),
        ),
{
    lemma_is_some(shreds, full);
    lemma_too_few(shreds, full);
    let t = common_part(full);
    lemma_stops(
        shreds,
        t,
        batch_of(t, in_order(shreds))->Ok_0,
        Error::Erasure(ErasureError::TooFewShardsPresent),
    );
}

/// Recovery stops where the erasure code does.
proof fn lemma_stops(shreds: Seq<ShredView>, t: TemplateView, filled: Seq<ShredView>, e: Error)
    requires
        in_order(shreds).len() > 0,
        template_of(in_order(shreds).last()) == Ok::<_, Error>(t),
        in_order(shreds).last().merkle_root() is Ok,
        batch_of(t, in_order(shreds)) == Ok::<_, Error>(filled),
        rebuilt(t, filled, mask_of(in_order(shreds), t.num_shards())) == Err::<Seq<ShredView>, _>(e),
    ensures
        recovery_of(shreds) == Err::<Seq<Result<ShredView, Error>>, _>(e),
        data_recovery_of(shreds) == Err::<Seq<ShredView>, _>(e),
{
}

/// Where the erasure code stops if there are too few shreds.
proof fn lemma_too_few(shreds: Seq<ShredView>, full: Seq<ShredView>)
    requires
        is_whole_batch(full),
        some_of(shreds, full),
        shreds.len() < common_part(full).num_data(),
    ensures
        ({
            let t = common_part(full);
            let sorted = in_order(shreds);
            &&& sorted.len() > 0
            &&& template_of(sorted.last()) == Ok::<_, Error>(t)
            &&& sorted.last().merkle_root() is Ok
            &&& batch_of(t, sorted) is Ok
            &&& rebuilt(t, batch_of(t, sorted)->Ok_0, mask_of(sorted, t.num_shards())) == Err::<
                Seq<ShredView>,
                _,
            >(Error::Erasure(ErasureError::TooFewShardsPresent))
        }),
{
    lemma_filled_ok(shreds, full);
    lemma_rebuilt_ok(shreds, full);
}

/// Whether the shreds are of one batch, as the given one tells it: with one signature, and in different
/// positions of the batch.
pub open spec fn are_of_one_batch(shreds: Seq<ShredView>, last: ShredView) -> bool {
    &&& last.headers matches ShredHeaders::Code(header, coding_header)
    &&& forall|j: int|
        0 <= j < shreds.len() ==> {
            &&& (#[trigger] shreds[j]).common().signature == header.signature
            &&& shreds[j].erasure_shard_index() matches Ok(index) && index
                < coding_header.num_data_shreds + coding_header.num_coding_shreds
        }
    &&& forall|j: int, k: int|
        0 <= j < k < shreds.len() ==> (#[trigger] shreds[j]).erasure_shard_index() != (
        #[trigger] shreds[k]).erasure_shard_index()
}

/// Where shreds or data are recovered, the given shreds were of one batch.
pub proof fn only_shreds_of_one_batch_are_taken(shreds: Seq<ShredView>)
    ensures
        recovery_of(shreds) is Ok || data_recovery_of(shreds) is Ok ==> are_of_one_batch(
            in_order(shreds),
            in_order(shreds).last(),
        ),
{
    if recovery_of(shreds) is Ok || data_recovery_of(shreds) is Ok {
        let sorted = in_order(shreds);
        let t = template_of(sorted.last())->Ok_0;
        lemma_batch(t, sorted);
        assert forall|j: int, k: int| 0 <= j < k < sorted.len() implies (
        #[trigger] sorted[j]).erasure_shard_index() != (#[trigger] sorted[k]).erasure_shard_index() by {
            assert(position_of(sorted[j]) < position_of(sorted[k]));
        }
    }
}

/// A recovered shred passes if and only if it is of the type that its position asks for, makes sense,
/// and, if it is a data shred, its bytes hold the header that was expected.
pub proof fn what_recovered_shreds_must_be(shred: ShredView, index: nat, num_data: nat)
    ensures
        index < num_data ==> match shred.headers {
            ShredHeaders::Code(..) => checked(shred, index, num_data) == Err::<ShredView, _>(
                Error::InvalidRecoveredShred,
            ),
            ShredHeaders::Data(expected, _) => match checked(shred, index, num_data) {
                Ok(parsed) => {
                    &&& parsed.headers matches ShredHeaders::Data(header, data_header)
                    &&& header == expected
                    &&& starts_with(shred.payload, header)
                    &&& data_headers_of(shred.payload) == Ok::<_, crate::error::ReadError>(
                        (header, data_header),
                    )
                    &&& parsed.payload == shred.payload
                    &&& parsed.sanitize() is Ok
                },
                Err(_) => match data_headers_of(shred.payload) {
                    Err(_) => true,
                    Ok((header, data_header)) => header != expected || (ShredView {
                        headers: ShredHeaders::Data(header, data_header),
                        payload: shred.payload,
                    }).sanitize() is Err,
                },
            },
        },
        index >= num_data ==> match shred.headers {
            ShredHeaders::Data(..) => checked(shred, index, num_data) == Err::<ShredView, _>(
                Error::InvalidRecoveredShred,
            ),
            ShredHeaders::Code(..) => match shred.sanitize() {
                Ok(_) => checked(shred, index, num_data) == Ok::<_, Error>(shred),
                Err(e) => checked(shred, index, num_data) == Err::<ShredView, _>(e),
            },
        },
{
    data_headers_are_read(shred.payload);
}

/// Whether a recovered data shred is of the batch of the given coding shred: its bytes start with its
/// headers, and it has the signature, slot and version of the batch and one of its indices.
pub open spec fn is_data_of(shred: ShredView, last: ShredView) -> bool {
    &&& last.headers matches ShredHeaders::Code(last_header, size)
    &&& shred.headers matches ShredHeaders::Data(header, data_header)
    &&& shred.payload.len() == 1203
    &&& starts_with(shred.payload, header)
    &&& data_headers_of(shred.payload) == Ok::<_, crate::error::ReadError>((header, data_header))
    &&& is_of_one_batch(header, last_header)
    &&& header.fec_set_index <= header.index < header.fec_set_index + size.num_data_shreds
}

proof fn lemma_recovered_data(batch: Seq<ShredView>, mask: Seq<bool>, n: nat, k: int) -> (i: int)
    requires
        0 <= k < recovered_data(batch, mask, n).len(),
    ensures
        0 <= i < n,
        !mask[i],
        ({
            let shred = recovered_data(batch, mask, n)[k];
            &&& shred.payload == batch[i].payload
            &&& batch[i].headers is Data
            &&& shred.headers matches ShredHeaders::Data(header, data_header)
            &&& header == batch[i].headers->Data_0
            &&& data_headers_of(shred.payload) == Ok::<_, crate::error::ReadError>(
                (header, data_header),
            )
        }),
    decreases n,
{
    if k < recovered_data(batch, mask, (n - 1) as nat).len() {
        lemma_recovered_data(batch, mask, (n - 1) as nat, k)
    } else {
        n - 1
    }
}

/// Recovered data shreds are of the batch, in positions where none was given.
pub proof fn recovered_data_is_of_the_batch(shreds: Seq<ShredView>, k: int)
    requires
        data_recovery_of(shreds) matches Ok(data) && 0 <= k < data.len(),
        in_order(shreds).last().erasure_shard_index() is Ok,
    ensures
        is_data_of(data_recovery_of(shreds)->Ok_0[k], in_order(shreds).last()),
        !has_position(shreds, position_of(data_recovery_of(shreds)->Ok_0[k])),
{
    let sorted = in_order(shreds);
    let last = sorted.last();
    let t = template_of(last)->Ok_0;
    let mask = mask_of(sorted, t.num_shards());
    let filled = batch_of(t, sorted)->Ok_0;
    let batch = rebuilt(t, filled, mask)->Ok_0;
    let i = lemma_recovered_data(batch, mask, t.num_data(), k);
    lemma_batch(t, sorted);
    lemma_template(last);
    assert(!has_position(sorted, i));
    assert(stub_of(t, i as nat) == Ok::<_, Error>(filled[i]));
    lemma_stub_fits(t, i as nat);
    data_headers_are_read(batch[i].payload);
    lemma_positions_in_order(shreds, i);
    assert(batch[i].headers == filled[i].headers);
    assert(batch[i].payload.len() == filled[i].payload.len());
}

/// Whether all but the named bytes of a stub are zero: what is in front, the Merkle root of the previous
/// batch, and the retransmitter's signature.
pub open spec fn holds_only(
    s: Seq<u8>,
    front: Seq<u8>,
    at: int,
    root: Seq<u8>,
    signature: Seq<u8>,
) -> bool {
    forall|k: int|
        0 <= k < s.len() ==> #[trigger] s[k] == if k < front.len() {
            front[k]
        } else if at <= k < at + 32 {
            root[k - at]
        } else if k >= s.len() - signature.len() {
            signature[k - (s.len() - signature.len())]
        } else {
            0u8
        }
}

/// What is known beforehand of a shred of a batch: the headers that its position asks for, but nothing
/// of the data header, and what all shreds of the batch end with. All other bytes are zero.
pub proof fn stubs_hold_what_is_known(
    t: TemplateView,
    i: nat,
    proof_size: u8,
    resigned: bool,
    root: Seq<u8>,
    signature: Seq<u8>,
)
    requires
        t.common_header.shred_variant == (ShredVariant::MerkleCode { proof_size, resigned }),
        tail_size(proof_size, resigned) <= 1203 - 88,
        t.chained_merkle_root == Some(root),
        root.len() == 32,
        resigned ==> t.retransmitter_signature == Some(signature) && signature.len() == 64,
        !resigned ==> t.retransmitter_signature is None && signature.len() == 0,
        i < t.coding_header.num_data_shreds + t.coding_header.num_coding_shreds,
        t.common_header.index + t.coding_header.num_coding_shreds <= u32::MAX,
        t.common_header.fec_set_index + t.coding_header.num_data_shreds <= u32::MAX,
    ensures
        ({
            let num_data = t.coding_header.num_data_shreds;
            let tail = tail_size(proof_size, resigned);
            &&& i < num_data ==> (stub_of(t, i) matches Ok(stub) && {
                &&& stub.headers matches ShredHeaders::Data(header, data_header)
                &&& is_of_one_batch(header, t.common_header)
                &&& header.index == t.common_header.fec_set_index + i
                &&& header.shred_variant == (ShredVariant::MerkleData { proof_size, resigned })
                &&& data_header.size == 0 && data_header.flags.bits == 0 && data_header.parent_offset == 0
                &&& stub.payload.len() == 1203
                &&& holds_only(stub.payload, t.common_header.signature@, 1203 - tail, root, signature)
            })
            &&& i >= num_data ==> (stub_of(t, i) matches Ok(stub) && {
                &&& stub.headers matches ShredHeaders::Code(header, coding_header)
                &&& is_of_one_batch(header, t.common_header)
                &&& header.index == t.common_header.index + (i - num_data)
                &&& header.shred_variant == t.common_header.shred_variant
                &&& coding_header.num_data_shreds == num_data
                &&& coding_header.num_coding_shreds == t.coding_header.num_coding_shreds
                &&& coding_header.position == i - num_data
                &&& stub.payload.len() == 1228
                &&& holds_only(
                    stub.payload,
                    coding_headers_bytes(header, coding_header),
                    1228 - tail,
                    root,
                    signature,
                )
            })
        }),
{
    if i < t.coding_header.num_data_shreds {
        lemma_data_stub(t, i, proof_size, resigned, root, signature);
    } else {
        lemma_code_stub(t, i, proof_size, resigned, root, signature);
    }
}

/// What is known beforehand of a data shred.
proof fn lemma_data_stub(
    t: TemplateView,
    i: nat,
    proof_size: u8,
    resigned: bool,
    root: Seq<u8>,
    signature: Seq<u8>,
)
    requires
        t.common_header.shred_variant == (ShredVariant::MerkleCode { proof_size, resigned }),
        tail_size(proof_size, resigned) <= 1203 - 88,
        t.chained_merkle_root == Some(root),
        root.len() == 32,
        resigned ==> t.retransmitter_signature == Some(signature) && signature.len() == 64,
        !resigned ==> t.retransmitter_signature is None && signature.len() == 0,
        i < t.coding_header.num_data_shreds + t.coding_header.num_coding_shreds,
        t.common_header.index + t.coding_header.num_coding_shreds <= u32::MAX,
        t.common_header.fec_set_index + t.coding_header.num_data_shreds <= u32::MAX,
        i < t.coding_header.num_data_shreds,
    ensures
        stub_of(t, i) matches Ok(stub) && {
            &&& stub.headers matches ShredHeaders::Data(header, data_header)
            &&& is_of_one_batch(header, t.common_header)
            &&& header.index == t.common_header.fec_set_index + i
            &&& header.shred_variant == (ShredVariant::MerkleData { proof_size, resigned })
            &&& data_header.size == 0 && data_header.flags.bits == 0 && data_header.parent_offset == 0
            &&& stub.payload.len() == 1203
            &&& holds_only(
                stub.payload,
                t.common_header.signature@,
                1203 - tail_size(proof_size, resigned),
                root,
                signature,
            )
        },
{
    let bare = bare_stub(t, i)->Ok_0;
    let linked = with_chained_merkle_root(bare, t.chained_merkle_root)->Ok_0;
    if let ShredHeaders::Data(header, data_header) = bare.headers {
        parts_of_data_shreds(bare, header, data_header, proof_size, resigned);
        assert(linked.payload.len() == 1203);
        parts_of_data_shreds(linked, header, data_header, proof_size, resigned);
    }
}

/// What is known beforehand of a coding shred.
proof fn lemma_code_stub(
    t: TemplateView,
    i: nat,
    proof_size: u8,
    resigned: bool,
    root: Seq<u8>,
    signature: Seq<u8>,
)
    requires
        t.common_header.shred_variant == (ShredVariant::MerkleCode { proof_size, resigned }),
        tail_size(proof_size, resigned) <= 1203 - 88,
        t.chained_merkle_root == Some(root),
        root.len() == 32,
        resigned ==> t.retransmitter_signature == Some(signature) && signature.len() == 64,
        !resigned ==> t.retransmitter_signature is None && signature.len() == 0,
        i < t.coding_header.num_data_shreds + t.coding_header.num_coding_shreds,
        t.common_header.index + t.coding_header.num_coding_shreds <= u32::MAX,
        t.common_header.fec_set_index + t.coding_header.num_data_shreds <= u32::MAX,
        i >= t.coding_header.num_data_shreds,
    ensures
        stub_of(t, i) matches Ok(stub) && {
            &&& stub.headers matches ShredHeaders::Code(header, coding_header)
            &&& is_of_one_batch(header, t.common_header)
            &&& header.index == t.common_header.index + (i - t.coding_header.num_data_shreds)
            &&& header.shred_variant == t.common_header.shred_variant
            &&& coding_header.num_data_shreds == t.coding_header.num_data_shreds
            &&& coding_header.num_coding_shreds == t.coding_header.num_coding_shreds
            &&& coding_header.position == i - t.coding_header.num_data_shreds
            &&& stub.payload.len() == 1228
            &&& holds_only(
                stub.payload,
                coding_headers_bytes(header, coding_header),
                1228 - tail_size(proof_size, resigned),
                root,
                signature,
            )
        },
{
    let bare = bare_stub(t, i)->Ok_0;
    let linked = with_chained_merkle_root(bare, t.chained_merkle_root)->Ok_0;
    if let ShredHeaders::Code(header, coding_header) = bare.headers {
        parts_of_coding_shreds(bare, header, coding_header, proof_size, resigned);
        assert(linked.payload.len() == 1228);
        parts_of_coding_shreds(linked, header, coding_header, proof_size, resigned);
    }
}

/// A filled batch has each given shred in its position, and what is known beforehand of the others in
/// theirs.
pub proof fn given_shreds_are_in_their_positions(t: TemplateView, shreds: Seq<ShredView>)
    requires
        batch_of(t, shreds) is Ok,
    ensures
        ({
            let batch = batch_of(t, shreds)->Ok_0;
            &&& batch.len() == t.coding_header.num_data_shreds + t.coding_header.num_coding_shreds
            &&& forall|j: int|
                0 <= j < shreds.len() ==> ((#[trigger] shreds[j]).erasure_shard_index() matches Ok(index)
                    && index < batch.len() && batch[index as int] == shreds[j]
                    && shreds[j].common().signature == t.common_header.signature)
            &&& forall|i: int|
                0 <= i < batch.len() ==> (#[trigger] mask_of(shreds, batch.len())[i] <==> exists|j: int|
                    0 <= j < shreds.len() && (#[trigger] shreds[j]).erasure_shard_index() == Ok::<
                        _,
                        Error,
                    >(i as usize))
            &&& forall|i: int|
                0 <= i < batch.len() && !(#[trigger] mask_of(shreds, batch.len())[i]) ==> stub_of(
                    t,
                    i as nat,
                ) == Ok::<_, Error>(batch[i])
        }),
{
    lemma_batch(t, shreds);
}

/// Every missing data shred comes back whose rebuilt bytes start with the header that was expected,
/// whatever else they hold; given shreds do not.
pub proof fn missing_data_come_back(batch: Seq<ShredView>, mask: Seq<bool>, n: nat)
    requires
        n > 0,
    ensures
        recovered_data(batch, mask, 0).len() == 0,
        ({
            let before = recovered_data(batch, mask, (n - 1) as nat);
            let shred = batch[n - 1];
            match (shred.headers, data_headers_of(shred.payload)) {
                (ShredHeaders::Data(expected, _), Ok((header, data_header))) => {
                    &&& !mask[n - 1] && header == expected ==> recovered_data(batch, mask, n)
                        == before.push(
                        ShredView {
                            headers: ShredHeaders::Data(header, data_header),
                            payload: shred.payload,
                        },
                    )
                    &&& mask[n - 1] || header != expected ==> recovered_data(batch, mask, n) == before
                },
                _ => recovered_data(batch, mask, n) == before,
            }
        }),
{
}

/// Every missing shred comes back with its proof, or with what is wrong with the proof; given shreds do
/// not.
pub proof fn missing_shreds_come_back(
    batch: Seq<ShredView>,
    mask: Seq<bool>,
    leaves: Seq<Seq<u8>>,
    n: nat,
)
    requires
        n > 0,
    ensures
        recovered(batch, mask, leaves, 0).len() == 0,
        mask[n - 1] ==> recovered(batch, mask, leaves, n) == recovered(
            batch,
            mask,
            leaves,
            (n - 1) as nat,
        ),
        !mask[n - 1] ==> recovered(batch, mask, leaves, n) == recovered(
            batch,
            mask,
            leaves,
            (n - 1) as nat,
        ).push(with_proof(batch[n - 1], proof_path(leaves, (n - 1) as nat))),
{
}

/// What a shred with a new proof is: the proof in its place and nothing else changed.
pub proof fn proofs_are_written_to_shreds(shred: ShredView, branch: Seq<Seq<u8>>)
    requires
        shred.sanitize() is Ok,
        forall|i: int| 0 <= i < branch.len() ==> (#[trigger] branch[i]).len() == 20,
    ensures
        match with_proof(shred, branch) {
            Ok(done) => {
                &&& branch.len() == shred.common().shred_variant.entries()
                &&& done.headers == shred.headers
                &&& done.merkle_proof() == Ok::<_, Error>(branch)
                &&& done.merkle_node() == shred.merkle_node()
                &&& done.erasure_shard() == shred.erasure_shard()
                &&& done.chained_merkle_root() == shred.chained_merkle_root()
                &&& done.retransmitter_signature() == shred.retransmitter_signature()
            },
            Err(e) => e == Error::InvalidMerkleProof && branch.len()
                != shred.common().shred_variant.entries(),
        },
{
    let proof_size = shred.params()->Ok_0.0;
    let at = shred.proof_offset()->Ok_0 as int;
    let s = shred.payload;
    assert(at + 20 * proof_size <= s.len());
    proofs_are_read_back(s, at, proof_size, branch);
    if let Ok(done) = with_proof(shred, branch) {
        let found = done.merkle_proof()->Ok_0;
        assert forall|i: int| 0 <= i < proof_size implies #[trigger] found[i] == branch[i] by {
            assert(found[i] =~= done.payload.subrange(at + 20 * i, at + 20 * i + 20));
        }
        assert(found =~= branch);
        assert(done.payload.subrange(64, at) =~= s.subrange(64, at));
        assert(done.erasure_shard()->Ok_0 =~= shred.erasure_shard()->Ok_0);
        assert(done.chained_merkle_root()->Ok_0 =~= shred.chained_merkle_root()->Ok_0);
        if shred.retransmitter_signature() is Ok {
            assert(done.retransmitter_signature()->Ok_0 =~= shred.retransmitter_signature()->Ok_0);
        }
    }
}

} // verus!
