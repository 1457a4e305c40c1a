//! Recovery gives back the shreds that were lost.
use crate::bytes_util::{lemma_array_of_view, splice};
use crate::error::{ErasureError, Error, ReadError, ShredHeaders};
use crate::geometry::{headers_size, payload_size, shard_start, signature_bytes};
use crate::header::{coding_headers_bytes, data_headers_are_a_prefix, data_headers_of};
use crate::merkle::{flat, write_proof_result, written_proof};
use crate::merkle_tree::{made_proof_leads_to_root, proof_path, root_is_last_node, tree_root};
use crate::model::{proof_of, ShredView};
use crate::recover::{
    bare_stub, batch_of, checked, code_restores, data_recovery_of, has_position, in_order,
    in_order_sorts, leaves_of, lemma_shards_in, mask_of, not_after, placed, rebuilt, recovered,
    recovery_of, restores_batch, shards_in, stub_of, template_of, with_chained_merkle_root,
    with_proof, with_shard, TemplateView,
};
use crate::recover_laws::{
    data_only_recovery_agrees, fits_position, lemma_batch, lemma_num_missing, lemma_num_present,
    lemma_padded_ok, lemma_placed, lemma_positions_in_order, num_missing, position_of,
};
use crate::reed_solomon::{agrees, encodes, num_present, present_len, reconstructed};
use crate::shred_type::ShredType;
use vstd::prelude::*;

verus! {

/// What the shreds of a whole batch have in common.
pub open spec fn common_part(full: Seq<ShredView>) -> TemplateView {
    template_of(full.last())->Ok_0
}

/// The leaves of the Merkle tree of a whole batch.
pub open spec fn leaves_in(full: Seq<ShredView>) -> Seq<Seq<u8>> {
    Seq::new(full.len(), |i: int| full[i].merkle_node()->Ok_0)
}

/// The erasure coded parts of a whole batch.
pub open spec fn coded_parts(full: Seq<ShredView>) -> Seq<Seq<u8>> {
    Seq::new(full.len(), |i: int| full[i].erasure_shard()->Ok_0)
}

/// Whether a shred is the one in position `index` of the batch with the given common part: it makes
/// sense, has the headers that the position asks for, also in its bytes, and the Merkle root of the
/// previous batch and the retransmitter's signature that all have.
pub open spec fn is_shred_at(t: TemplateView, shred: ShredView, index: nat) -> bool {
    &&& shred.sanitize() is Ok
    &&& fits_position(t, shred, index)
    &&& shred.common().shred_variant.entries() == t.common_header.shred_variant.entries()
    &&& shred.common().shred_variant.signed_again() == t.common_header.shred_variant.signed_again()
    &&& shred.headers matches ShredHeaders::Data(common_header, data_header) ==> data_headers_of(
        shred.payload,
    ) == Ok::<_, ReadError>((common_header, data_header))
    &&& t.chained_merkle_root == Some(shred.chained_merkle_root()->Ok_0)
    &&& t.retransmitter_signature == match shred.retransmitter_signature() {
        Ok(signature) => Some(signature),
        Err(_) => None,
    }
}

/// Whether `full` is a whole erasure batch: the data shreds and then the coding shreds, each in its
/// position, the coding shreds with the code of the data shreds, and each with its proof in the Merkle
/// tree over all of them.
pub open spec fn is_whole_batch(full: Seq<ShredView>) -> bool {
    let t = common_part(full);
    &&& full.len() > 0
    &&& template_of(full.last()) is Ok
    &&& full.len() == t.num_shards()
    &&& t.common_header.shred_variant.kind() == ShredType::Code
    &&& forall|i: int| 0 <= i < full.len() ==> is_shred_at(t, #[trigger] full[i], i as nat)
    &&& forall|i: int|
        0 <= i < full.len() ==> (#[trigger] full[i]).merkle_proof() == Ok::<_, Error>(
            proof_path(leaves_in(full), i as nat),
        )
    &&& encodes(t.num_data() as usize, t.num_coding() as usize, coded_parts(full))
}

/// Whether the shreds are different ones of a whole batch, at least one coding shred among them.
pub open spec fn some_of(shreds: Seq<ShredView>, full: Seq<ShredView>) -> bool {
    &&& exists|j: int| 0 <= j < shreds.len() && (#[trigger] shreds[j]).kind() == ShredType::Code
    &&& forall|j: int|
        0 <= j < shreds.len() ==> 0 <= position_of(#[trigger] shreds[j]) < full.len()
            && full[position_of(shreds[j])] == shreds[j]
    &&& forall|j: int, k: int|
        0 <= j < k < shreds.len() ==> position_of(#[trigger] shreds[j]) != position_of(
            #[trigger] shreds[k],
        )
}

/// Whether the shreds are different ones of a whole batch, enough of them to restore the others: as
/// many as there are data shreds, and at least one coding shred.
pub open spec fn enough_of(shreds: Seq<ShredView>, full: Seq<ShredView>) -> bool {
    &&& shreds.len() >= common_part(full).num_data()
    &&& some_of(shreds, full)
}

/// Those of the first `n` shreds of a batch that are in no taken position.
pub open spec fn missing_of(full: Seq<ShredView>, mask: Seq<bool>, n: nat) -> Seq<
    Result<ShredView, Error>,
>
    decreases n,
{
    if n == 0 {
        Seq::empty()
    } else if mask[n - 1] {
        missing_of(full, mask, (n - 1) as nat)
    } else {
        missing_of(full, mask, (n - 1) as nat).push(Ok(full[n - 1]))
    }
}

/// Positions order the shreds of a batch.
pub(crate) proof fn lemma_positions_order(full: Seq<ShredView>, i: int, j: int)
    requires
        is_whole_batch(full),
        0 <= i < full.len(),
        0 <= j < full.len(),
    ensures
        not_after(full[i], full[j]) == (i <= j),
        position_of(full[i]) == i,
        full[i].erasure_shard_index() is Ok,
{
    let t = common_part(full);
    assert(is_shred_at(t, full[i], i as nat));
    assert(is_shred_at(t, full[j], j as nat));
}

/// Shreds of a batch that are in order are so by their positions, and the last one is a coding shred
/// if there is any.
proof fn lemma_sorted_positions(shreds: Seq<ShredView>, full: Seq<ShredView>)
    requires
        is_whole_batch(full),
        some_of(shreds, full),
    ensures
        ({
            let sorted = in_order(shreds);
            &&& sorted.len() == shreds.len() > 0
            &&& sorted.last().kind() == ShredType::Code
            &&& forall|j: int|
                0 <= j < sorted.len() ==> (#[trigger] sorted[j]).erasure_shard_index() is Ok && 0
                    <= position_of(sorted[j]) < full.len() && full[position_of(sorted[j])]
                    == sorted[j]
            &&& forall|j: int, k: int|
                0 <= j < k < sorted.len() ==> position_of(#[trigger] sorted[j]) < position_of(
                    #[trigger] sorted[k],
                )
        }),
{
    broadcast use vstd::seq_lib::group_to_multiset_ensures;

    let t = common_part(full);
    let sorted = in_order(shreds);
    in_order_sorts(shreds);
    assert(sorted.len() == sorted.to_multiset().len());
    assert(shreds.len() == shreds.to_multiset().len());
    assert forall|j: int| 0 <= j < sorted.len() implies (#[trigger] sorted[j]).erasure_shard_index()
        is Ok && 0 <= position_of(sorted[j]) < full.len() && full[position_of(sorted[j])]
        == sorted[j] by {
        assert(sorted.contains(sorted[j]));
        assert(sorted.to_multiset().count(sorted[j]) > 0);
        assert(shreds.contains(sorted[j]));
        let k = choose|k: int| 0 <= k < shreds.len() && shreds[k] == sorted[j];
        assert(full[position_of(shreds[k])] == shreds[k]);
        lemma_positions_order(full, position_of(shreds[k]), position_of(shreds[k]));
    }
    assert(shreds.no_duplicates()) by {
        assert forall|j: int, k: int| 0 <= j < k < shreds.len() implies shreds[j] != shreds[k] by {
            assert(position_of(shreds[j]) != position_of(shreds[k]));
        }
    }
    shreds.lemma_multiset_has_no_duplicates();
    sorted.lemma_multiset_has_no_duplicates_conv();
    assert forall|j: int, k: int| 0 <= j < k < sorted.len() implies position_of(#[trigger] sorted[j])
        < position_of(#[trigger] sorted[k]) by {
        lemma_positions_order(full, position_of(sorted[j]), position_of(sorted[k]));
        assert(not_after(sorted[j], sorted[k]));
        assert(sorted[j] != sorted[k]);
    }
    let c = choose|j: int| 0 <= j < shreds.len() && (#[trigger] shreds[j]).kind() == ShredType::Code;
    assert(shreds.contains(shreds[c]));
    assert(shreds.to_multiset().count(shreds[c]) > 0);
    assert(sorted.contains(shreds[c]));
    let k = choose|k: int| 0 <= k < sorted.len() && sorted[k] == shreds[c];
    let last = sorted[sorted.len() - 1];
    assert(is_shred_at(t, full[position_of(sorted[k])], position_of(sorted[k]) as nat));
    assert(is_shred_at(t, full[position_of(last)], position_of(last) as nat));
    assert(position_of(sorted[k]) <= position_of(last));
}

/// Each coding shred of a batch tells what all have in common, and the Merkle root.
proof fn lemma_common_part(full: Seq<ShredView>, i: int)
    requires
        is_whole_batch(full),
        0 <= i < full.len(),
        full[i].kind() == ShredType::Code,
    ensures
        template_of(full[i]) == Ok::<_, Error>(common_part(full)),
        full[i].merkle_root() == Ok::<_, Error>(tree_root(leaves_in(full))),
        common_part(full).indices_fit(),
        common_part(full).num_data() + common_part(full).num_coding() <= 256,
{
    let t = common_part(full);
    let last = full[full.len() - 1];
    assert(is_shred_at(t, full[i], i as nat));
    assert(is_shred_at(t, last, (full.len() - 1) as nat));
    let found = template_of(full[i])->Ok_0;
    assert(found.common_header == t.common_header);
    assert(found.coding_header == t.coding_header);
    lemma_positions_order(full, i, i);
    made_proof_leads_to_root(leaves_in(full), i as nat);
    root_is_last_node(leaves_in(full));
    assert(full[i].merkle_node() == Ok::<_, Error>(leaves_in(full)[i]));
}

/// What is known beforehand of a shred of a batch, and the offsets of its parts, are those of the
/// shred.
proof fn lemma_stub_ok(full: Seq<ShredView>, i: int)
    requires
        is_whole_batch(full),
        0 <= i < full.len(),
        common_part(full).indices_fit(),
    ensures
        stub_of(common_part(full), i as nat) is Ok,
        ({
            let t = common_part(full);
            let stub = stub_of(t, i as nat)->Ok_0;
            &&& stub.kind() == full[i].kind()
            &&& stub.common() == full[i].common()
            &&& stub.payload.len() == full[i].payload.len()
            &&& stub.headers is Code ==> stub.headers == full[i].headers
            &&& stub.chained_merkle_root_offset() is Ok
            &&& stub.erasure_shard() is Ok
            &&& stub.erasure_shard()->Ok_0.len() == full[i].erasure_shard()->Ok_0.len()
        }),
{
    let t = common_part(full);
    assert(is_shred_at(t, full[i], i as nat));
    let bare = bare_stub(t, i as nat)->Ok_0;
    assert(bare.kind() == full[i].kind());
    assert(bare.common() == full[i].common());
}

proof fn lemma_placed_ok(t: TemplateView, shreds: Seq<ShredView>, n: nat)
    requires
        n == t.num_shards(),
        forall|i: nat| i < n ==> (#[trigger] stub_of(t, i)) is Ok,
        forall|j: int|
            0 <= j < shreds.len() ==> (#[trigger] shreds[j]).erasure_shard_index() is Ok && 0
                <= position_of(shreds[j]) < n && shreds[j].common().signature
                == t.common_header.signature,
        forall|j: int, k: int|
            0 <= j < k < shreds.len() ==> position_of(#[trigger] shreds[j]) < position_of(
                #[trigger] shreds[k],
            ),
    ensures
        placed(t, shreds) is Ok,
    decreases shreds.len(),
{
    if shreds.len() > 0 {
        let rest = shreds.drop_last();
        let last = shreds.last();
        assert forall|j: int| 0 <= j < rest.len() implies (#[trigger] rest[j]).erasure_shard_index()
            is Ok && 0 <= position_of(rest[j]) < n && rest[j].common().signature
            == t.common_header.signature by {
            assert(shreds[j] == rest[j]);
        }
        assert forall|j: int, k: int| 0 <= j < k < rest.len() implies position_of(
            #[trigger] rest[j],
        ) < position_of(#[trigger] rest[k]) by {
            assert(shreds[j] == rest[j] && shreds[k] == rest[k]);
        }
        lemma_placed_ok(t, rest, n);
        lemma_placed(t, rest);
        let batch = placed(t, rest)->Ok_0;
        assert(shreds[shreds.len() - 1] == last);
        if rest.len() > 0 {
            assert(shreds[rest.len() - 1] == rest.last());
            assert(position_of(shreds[rest.len() - 1]) < position_of(shreds[shreds.len() - 1]));
        }
        assert(batch.len() <= position_of(last));
        lemma_padded_ok(t, batch, position_of(last) as nat);
    }
}

proof fn lemma_shards_ok(batch: Seq<ShredView>, mask: Seq<bool>)
    requires
        forall|i: int| 0 <= i < batch.len() ==> (#[trigger] batch[i]).erasure_shard() is Ok,
    ensures
        shards_in(batch, mask) is Ok,
    decreases batch.len(),
{
    if batch.len() > 0 {
        let rest = batch.drop_last();
        assert forall|i: int| 0 <= i < rest.len() implies (#[trigger] rest[i]).erasure_shard()
            is Ok by {
            assert(batch[i] == rest[i]);
        }
        lemma_shards_ok(rest, mask);
        assert(batch[batch.len() - 1] == batch.last());
    }
}

/// Shards of one length have that length.
proof fn lemma_present_len(shards: Seq<(Seq<u8>, bool)>, len: nat)
    requires
        len > 0,
        forall|i: int| 0 <= i < shards.len() ==> (#[trigger] shards[i]).0.len() == len,
    ensures
        present_len(shards) == Ok::<_, crate::error::ErasureError>(
            if num_present(shards) > 0 {
                Some(len)
            } else {
                None
            },
        ),
    decreases shards.len(),
{
    reveal(Seq::filter);
    if shards.len() > 0 {
        let rest = shards.drop_last();
        assert forall|i: int| 0 <= i < rest.len() implies (#[trigger] rest[i]).0.len() == len by {
            assert(shards[i] == rest[i]);
        }
        lemma_present_len(rest, len);
        assert(shards[shards.len() - 1] == shards.last());
    }
}

/// Enough shreds of a batch fill it, with stubs in the other positions.
pub(crate) proof fn lemma_filled_ok(shreds: Seq<ShredView>, full: Seq<ShredView>)
    requires
        is_whole_batch(full),
        some_of(shreds, full),
    ensures
        ({
            let t = common_part(full);
            let sorted = in_order(shreds);
            let mask = mask_of(sorted, t.num_shards());
            &&& sorted.len() == shreds.len() > 0
            &&& template_of(sorted.last()) == Ok::<_, Error>(t)
            &&& sorted.last().merkle_root() == Ok::<_, Error>(tree_root(leaves_in(full)))
            &&& t.indices_fit()
            &&& num_missing(mask, t.num_shards()) + shreds.len() == t.num_shards()
            &&& batch_of(t, sorted) is Ok
            &&& batch_of(t, sorted)->Ok_0.len() == t.num_shards() == full.len()
            &&& forall|i: int|
                0 <= i < full.len() ==> #[trigger] batch_of(t, sorted)->Ok_0[i] == if mask[i] {
                    full[i]
                } else {
                    stub_of(t, i as nat)->Ok_0
                }
        }),
{
    let t = common_part(full);
    let sorted = in_order(shreds);
    let n = t.num_shards();
    let mask = mask_of(sorted, n);
    lemma_sorted_positions(shreds, full);
    assert(sorted[sorted.len() - 1] == sorted.last());
    lemma_common_part(full, position_of(sorted.last()));
    assert forall|i: nat| i < n implies (#[trigger] stub_of(t, i)) is Ok by {
        lemma_stub_ok(full, i as int);
    }
    assert forall|j: int| 0 <= j < sorted.len() implies (#[trigger] sorted[j]).common().signature
        == t.common_header.signature by {
        assert(is_shred_at(t, full[position_of(sorted[j])], position_of(sorted[j]) as nat));
    }
    lemma_placed_ok(t, sorted, n);
    lemma_padded_ok(t, placed(t, sorted)->Ok_0, n);
    lemma_batch(t, sorted);
    lemma_num_missing(sorted, n);
    let filled = batch_of(t, sorted)->Ok_0;
    assert forall|i: int| 0 <= i < n implies #[trigger] filled[i] == if mask[i] {
        full[i]
    } else {
        stub_of(t, i as nat)->Ok_0
    } by {
        if has_position(sorted, i) {
            let j = choose|j: int|
                0 <= j < sorted.len() && (#[trigger] sorted[j]).erasure_shard_index() == Ok::<
                    _,
                    Error,
                >(i as usize);
            assert(filled[position_of(sorted[j])] == sorted[j]);
        } else {
            assert(stub_of(t, i as nat) == Ok::<_, Error>(filled[i]));
        }
    }
}

/// Shreds of a batch pass all steps of recovery up to the erasure code, and that if they are enough.
#[verifier::rlimit(40)]
pub(crate) proof fn lemma_rebuilt_ok(shreds: Seq<ShredView>, full: Seq<ShredView>)
    requires
        is_whole_batch(full),
        some_of(shreds, full),
    ensures
        ({
            let t = common_part(full);
            let sorted = in_order(shreds);
            let mask = mask_of(sorted, t.num_shards());
            let filled = batch_of(t, sorted)->Ok_0;
            &&& shards_in(filled, mask) is Ok
            &&& agrees(shards_in(filled, mask)->Ok_0, coded_parts(full))
            &&& forall|i: int|
                0 <= i < full.len() ==> (#[trigger] shards_in(filled, mask)->Ok_0[i]).1 == mask[i]
            &&& shreds.len() >= t.num_data() ==> rebuilt(t, filled, mask) is Ok
            &&& shreds.len() < t.num_data() ==> rebuilt(t, filled, mask) == Err::<
                Seq<ShredView>,
                _,
            >(Error::Erasure(ErasureError::TooFewShardsPresent))
        }),
{
    let t = common_part(full);
    let sorted = in_order(shreds);
    let n = t.num_shards();
    let mask = mask_of(sorted, n);
    lemma_filled_ok(shreds, full);
    let filled = batch_of(t, sorted)->Ok_0;
    let parts = coded_parts(full);
    assert forall|i: int| 0 <= i < n implies (#[trigger] filled[i]).erasure_shard() is Ok
        && filled[i].erasure_shard()->Ok_0.len() == parts[i].len() by {
        lemma_stub_ok(full, i);
        assert(is_shred_at(t, full[i], i as nat));
    }
    lemma_shards_ok(filled, mask);
    lemma_shards_in(filled, mask);
    let shards = shards_in(filled, mask)->Ok_0;
    let len = parts[0].len();
    assert forall|i: int| 0 <= i < shards.len() implies (#[trigger] shards[i]).0.len() == len
        && shards[i].1 == mask[i] && (shards[i].1 ==> shards[i].0 == parts[i]) by {
        assert(filled[i].erasure_shard() is Ok);
        assert(parts[i].len() == len);
    }
    lemma_present_len(shards, len);
    lemma_num_present(shards, mask);
}

/// Where the parts of a shred that makes sense lie.
proof fn lemma_parts(shred: ShredView)
    requires
        shred.sanitize() is Ok,
    ensures
        shred.params() is Ok,
        shred.chained_merkle_root_offset() is Ok,
        ({
            let start = shard_start(shred.kind()) as int;
            let chained = shred.chained_merkle_root_offset()->Ok_0 as int;
            let (proof_size, resigned) = shred.params()->Ok_0;
            let signature = chained + 32 + 20 * proof_size;
            &&& shred.common().shred_variant.signed_again() == resigned
            &&& shred.common().shred_variant.entries() == proof_size
            &&& headers_size(shred.kind()) <= chained
            &&& start <= headers_size(shred.kind())
            &&& shred.proof_offset() == Ok::<_, Error>((chained + 32) as usize)
            &&& shred.payload.len() == payload_size(shred.kind())
            &&& shred.payload.len() == signature + signature_bytes(resigned)
            &&& shred.erasure_shard() == Ok::<_, Error>(shred.payload.subrange(start, chained))
            &&& shred.chained_merkle_root() == Ok::<_, Error>(
                shred.payload.subrange(chained, chained + 32),
            )
            &&& resigned ==> shred.retransmitter_signature_offset() == Ok::<_, Error>(
                signature as usize,
            ) && shred.retransmitter_signature() == Ok::<_, Error>(
                shred.payload.subrange(signature, signature + 64),
            )
            &&& !resigned ==> shred.retransmitter_signature() is Err
        }),
{
}

/// The bytes of a stub of a batch.
#[verifier::rlimit(40)]
proof fn lemma_stub_payload(full: Seq<ShredView>, i: int)
    requires
        is_whole_batch(full),
        0 <= i < full.len(),
        common_part(full).indices_fit(),
    ensures
        ({
            let t = common_part(full);
            let shred = full[i];
            let bare = bare_stub(t, i as nat)->Ok_0;
            let chained = shred.chained_merkle_root_offset()->Ok_0 as int;
            let proof_size = shred.params()->Ok_0.0;
            let root = shred.payload.subrange(chained, chained + 32);
            let offset = chained + 32 + 20 * proof_size;
            let linked = splice(bare.payload, chained, root);
            &&& bare.payload.len() == shred.payload.len()
            &&& stub_of(t, i as nat)->Ok_0.payload == if shred.params()->Ok_0.1 {
                splice(linked, offset, shred.payload.subrange(offset, offset + 64))
            } else {
                linked
            }
        }),
{
    let t = common_part(full);
    let shred = full[i];
    assert(is_shred_at(t, shred, i as nat));
    lemma_parts(shred);
    let bare = bare_stub(t, i as nat)->Ok_0;
    assert(bare.kind() == shred.kind());
    assert(bare.common() == shred.common());
    assert(bare.params() == shred.params());
    assert(bare.payload.len() == shred.payload.len());
    assert(bare.chained_merkle_root() is Ok);
    assert(bare.chained_merkle_root_offset() == shred.chained_merkle_root_offset());
    let linked = with_chained_merkle_root(bare, t.chained_merkle_root)->Ok_0;
    assert(linked.params() == shred.params());
    assert(linked.retransmitter_signature_offset() == shred.retransmitter_signature_offset());
}

/// The stub of a data shred starts with the signature, as the shred does.
proof fn lemma_data_stub_front(t: TemplateView, shred: ShredView, i: nat, k: int)
    requires
        is_shred_at(t, shred, i),
        t.common_header.shred_variant.kind() == ShredType::Code,
        shred.kind() == ShredType::Data,
        i < t.num_data(),
        0 <= k < 64,
    ensures
        bare_stub(t, i)->Ok_0.payload[k] == shred.payload[k],
{
    let front = shred.payload.subrange(0, 64);
    lemma_array_of_view::<64>(front);
    assert(shred.common().signature@ == front);
    assert(bare_stub(t, i)->Ok_0.payload[k] == front[k]);
}

/// The stub of a coding shred starts with the headers, as the shred does.
proof fn lemma_code_stub_front(t: TemplateView, shred: ShredView, i: nat, k: int)
    requires
        is_shred_at(t, shred, i),
        t.indices_fit(),
        shred.kind() == ShredType::Code,
        t.num_data() <= i < t.num_shards(),
        0 <= k < 89,
    ensures
        bare_stub(t, i)->Ok_0.payload[k] == shred.payload[k],
{
    let bare = bare_stub(t, i)->Ok_0;
    if let ShredHeaders::Code(common_header, coding_header) = shred.headers {
        let front = coding_headers_bytes(common_header, coding_header);
        assert(bare.headers == shred.headers);
        assert(shred.payload.take(89) == front);
        assert(shred.payload.take(89)[k] == shred.payload[k]);
        assert(bare.payload[k] == front[k]);
    }
}

/// What is in front of the erasure coded part of a stub is what is there in the shred.
proof fn lemma_stub_front(full: Seq<ShredView>, i: int, k: int)
    requires
        is_whole_batch(full),
        0 <= i < full.len(),
        common_part(full).indices_fit(),
        0 <= k < shard_start(full[i].kind()),
    ensures
        bare_stub(common_part(full), i as nat)->Ok_0.payload[k] == full[i].payload[k],
{
    let t = common_part(full);
    assert(is_shred_at(t, full[i], i as nat));
    match full[i].kind() {
        ShredType::Data => lemma_data_stub_front(t, full[i], i as nat, k),
        ShredType::Code => lemma_code_stub_front(t, full[i], i as nat, k),
    }
}

/// A stub with the erasure coded part of the shred is the shred but for the proof and the data header.
proof fn lemma_rebuilt_bytes(full: Seq<ShredView>, i: int)
    requires
        is_whole_batch(full),
        0 <= i < full.len(),
        common_part(full).indices_fit(),
    ensures
        ({
            let rebuilt_shred = with_shard(
                stub_of(common_part(full), i as nat)->Ok_0,
                coded_parts(full)[i],
            );
            let proof_offset = full[i].proof_offset()->Ok_0;
            let proof_size = full[i].params()->Ok_0.0;
            &&& rebuilt_shred.payload.len() == full[i].payload.len()
            &&& forall|k: int|
                0 <= k < full[i].payload.len() && !(proof_offset <= k < proof_offset + 20
                    * proof_size) ==> #[trigger] rebuilt_shred.payload[k] == full[i].payload[k]
        }),
{
    let t = common_part(full);
    let shred = full[i];
    assert(is_shred_at(t, shred, i as nat));
    lemma_parts(shred);
    lemma_stub_ok(full, i);
    lemma_stub_payload(full, i);
    let stub = stub_of(t, i as nat)->Ok_0;
    let bare = bare_stub(t, i as nat)->Ok_0.payload;
    let shard = coded_parts(full)[i];
    let made = with_shard(stub, shard).payload;
    let chained = shred.chained_merkle_root_offset()->Ok_0 as int;
    let (proof_size, resigned) = shred.params()->Ok_0;
    let start = shard_start(shred.kind()) as int;
    let offset = chained + 32 + 20 * proof_size;
    assert(made == splice(stub.payload, start, shard));
    assert forall|k: int|
        0 <= k < shred.payload.len() && !(chained + 32 <= k < offset) implies #[trigger] made[k]
        == shred.payload[k] by {
        lemma_rebuilt_byte(
            bare,
            stub.payload,
            made,
            shred.payload,
            start,
            chained,
            offset,
            resigned,
            k,
        );
        if k < start {
            lemma_stub_front(full, i, k);
        }
    }
}

/// One byte of a stub with an erasure coded part.
proof fn lemma_rebuilt_byte(
    bare: Seq<u8>,
    stub: Seq<u8>,
    made: Seq<u8>,
    payload: Seq<u8>,
    start: int,
    chained: int,
    offset: int,
    resigned: bool,
    k: int,
)
    requires
        0 <= start <= chained,
        chained + 32 <= offset,
        bare.len() == payload.len() == offset + signature_bytes(resigned),
        stub == if resigned {
            splice(
                splice(bare, chained, payload.subrange(chained, chained + 32)),
                offset,
                payload.subrange(offset, offset + 64),
            )
        } else {
            splice(bare, chained, payload.subrange(chained, chained + 32))
        },
        made == splice(stub, start, payload.subrange(start, chained)),
        0 <= k < payload.len(),
        !(chained + 32 <= k < offset),
    ensures
        made[k] == if k < start {
            bare[k]
        } else {
            payload[k]
        },
{
}

/// Whether a shred makes sense depends on its headers and its size alone.
proof fn lemma_sanitize_by_headers(shred: ShredView, other: ShredView)
    requires
        shred.sanitize() is Ok,
        other.headers == shred.headers,
        other.payload.len() == shred.payload.len(),
    ensures
        other.sanitize() is Ok,
{
}

/// A rebuilt shred passes the checks and gets the headers of the lost one.
proof fn lemma_rebuilt_checked(full: Seq<ShredView>, i: int)
    requires
        is_whole_batch(full),
        0 <= i < full.len(),
        common_part(full).indices_fit(),
    ensures
        ({
            let t = common_part(full);
            let made = with_shard(stub_of(t, i as nat)->Ok_0, coded_parts(full)[i]);
            checked(made, i as nat, t.num_data()) == Ok::<_, Error>(
                ShredView { headers: full[i].headers, payload: made.payload },
            ) && made.kind() == full[i].kind() && (made.headers is Data ==> data_headers_of(
                made.payload,
            ) == data_headers_of(full[i].payload) && made.common() == full[i].common())
        }),
{
    let t = common_part(full);
    let shred = full[i];
    assert(is_shred_at(t, shred, i as nat));
    lemma_parts(shred);
    lemma_stub_ok(full, i);
    lemma_rebuilt_bytes(full, i);
    let made = with_shard(stub_of(t, i as nat)->Ok_0, coded_parts(full)[i]);
    let parsed = ShredView { headers: shred.headers, payload: made.payload };
    lemma_sanitize_by_headers(shred, parsed);
    if shred.headers is Data {
        data_headers_are_a_prefix(made.payload, shred.payload);
    }
}

/// Writing a proof to bytes that differ from a payload only there gives the payload.
proof fn lemma_proof_completes(
    made: Seq<u8>,
    payload: Seq<u8>,
    offset: int,
    proof_size: u8,
    branch: Seq<Seq<u8>>,
)
    requires
        made.len() == payload.len(),
        0 <= offset,
        offset + 20 * proof_size <= payload.len(),
        proof_of(payload, offset, proof_size) == Ok::<_, Error>(branch),
        forall|k: int|
            0 <= k < payload.len() && !(offset <= k < offset + 20 * proof_size)
                ==> #[trigger] made[k] == payload[k],
    ensures
        branch.len() == proof_size,
        write_proof_result(branch, proof_size, (payload.len() - offset) as nat) is Ok,
        splice(
            made,
            offset,
            written_proof(branch, proof_size, (payload.len() - offset) as nat),
        ) == payload,
{
    let room = (payload.len() - offset) as nat;
    let stream = flat(branch);
    assert(written_proof(branch, proof_size, room) == stream);
    let done = splice(made, offset, stream);
    assert forall|k: int| 0 <= k < payload.len() implies #[trigger] done[k] == payload[k] by {
        if offset <= k < offset + 20 * proof_size {
            let at = k - offset;
            let entry = at / 20;
            assert(stream[at] == branch[entry][at % 20]);
            assert(branch[entry] == payload.subrange(
                offset + entry * 20,
                offset + entry * 20 + 20,
            ));
        } else {
            assert(made[k] == payload[k]);
        }
    }
    assert(done =~= payload);
}

/// A rebuilt shred passes the checks, has the leaf of the lost one, and becomes the lost one when its
/// proof is written to it.
proof fn lemma_rebuilt_shred(full: Seq<ShredView>, i: int)
    requires
        is_whole_batch(full),
        0 <= i < full.len(),
        common_part(full).indices_fit(),
    ensures
        ({
            let t = common_part(full);
            let made = with_shard(stub_of(t, i as nat)->Ok_0, coded_parts(full)[i]);
            let parsed = ShredView { headers: full[i].headers, payload: made.payload };
            &&& checked(made, i as nat, t.num_data()) == Ok::<_, Error>(parsed)
            &&& parsed.merkle_node() == Ok::<_, Error>(leaves_in(full)[i])
            &&& with_proof(parsed, proof_path(leaves_in(full), i as nat)) == Ok::<_, Error>(full[i])
        }),
{
    let t = common_part(full);
    let shred = full[i];
    assert(is_shred_at(t, shred, i as nat));
    lemma_parts(shred);
    lemma_rebuilt_checked(full, i);
    lemma_rebuilt_bytes(full, i);
    let made = with_shard(stub_of(t, i as nat)->Ok_0, coded_parts(full)[i]);
    let parsed = ShredView { headers: shred.headers, payload: made.payload };
    let offset = shred.proof_offset()->Ok_0 as int;
    let proof_size = shred.params()->Ok_0.0;
    let branch = proof_path(leaves_in(full), i as nat);
    assert(parsed.proof_offset() == shred.proof_offset());
    assert(parsed.params() == shred.params());
    assert(made.payload.subrange(64, offset) =~= shred.payload.subrange(64, offset));
    assert(shred.merkle_proof() == Ok::<_, Error>(branch));
    assert(proof_of(shred.payload, offset, proof_size) == Ok::<_, Error>(branch));
    lemma_proof_completes(made.payload, shred.payload, offset, proof_size, branch);
}

proof fn lemma_leaves_ok(
    batch: Seq<ShredView>,
    mask: Seq<bool>,
    num_data: nat,
    parsed: Seq<ShredView>,
    leaves: Seq<Seq<u8>>,
)
    requires
        batch.len() == parsed.len() == leaves.len(),
        forall|i: int|
            0 <= i < batch.len() ==> (#[trigger] parsed[i]).merkle_node() == Ok::<_, Error>(
                leaves[i],
            ) && if mask[i] {
                parsed[i] == batch[i]
            } else {
                checked(batch[i], i as nat, num_data) == Ok::<_, Error>(parsed[i])
            },
    ensures
        leaves_of(batch, mask, num_data) == Ok::<_, Error>((parsed, leaves)),
    decreases batch.len(),
{
    if batch.len() > 0 {
        let n = batch.len() - 1;
        assert forall|i: int| 0 <= i < n implies (
        #[trigger] parsed.drop_last()[i]).merkle_node() == Ok::<_, Error>(leaves.drop_last()[i])
            && if mask[i] {
            parsed.drop_last()[i] == batch.drop_last()[i]
        } else {
            checked(batch.drop_last()[i], i as nat, num_data) == Ok::<_, Error>(
                parsed.drop_last()[i],
            )
        } by {
            assert(parsed[i] == parsed.drop_last()[i]);
        }
        lemma_leaves_ok(
            batch.drop_last(),
            mask,
            num_data,
            parsed.drop_last(),
            leaves.drop_last(),
        );
        assert(parsed[n] == parsed.last());
        assert(parsed =~= parsed.drop_last().push(parsed.last()));
        assert(leaves =~= leaves.drop_last().push(leaves.last()));
    } else {
        assert(parsed =~= Seq::empty());
        assert(leaves =~= Seq::empty());
    }
}

proof fn lemma_recovered_is_missing(
    parsed: Seq<ShredView>,
    mask: Seq<bool>,
    leaves: Seq<Seq<u8>>,
    full: Seq<ShredView>,
    n: nat,
)
    requires
        forall|i: int|
            0 <= i < n && !mask[i] ==> with_proof(
                #[trigger] parsed[i],
                proof_path(leaves, i as nat),
            ) == Ok::<_, Error>(full[i]),
    ensures
        recovered(parsed, mask, leaves, n) == missing_of(full, mask, n),
    decreases n,
{
    if n > 0 {
        lemma_recovered_is_missing(parsed, mask, leaves, full, (n - 1) as nat);
        assert(parsed[n - 1] == parsed[n - 1]);
    }
}

/// The shred in position `i` after the erasure code has restored the batch.
proof fn lemma_restored(shreds: Seq<ShredView>, full: Seq<ShredView>, i: int)
    requires
        is_whole_batch(full),
        enough_of(shreds, full),
        restores_batch(common_part(full), in_order(shreds)),
        0 <= i < full.len(),
    ensures
        ({
            let t = common_part(full);
            let sorted = in_order(shreds);
            let mask = mask_of(sorted, full.len());
            let batch = rebuilt(t, batch_of(t, sorted)->Ok_0, mask)->Ok_0;
            batch.len() == full.len() && batch[i] == if mask[i] {
                full[i]
            } else {
                with_shard(stub_of(t, i as nat)->Ok_0, coded_parts(full)[i])
            }
        }),
{
    let t = common_part(full);
    let sorted = in_order(shreds);
    let mask = mask_of(sorted, full.len());
    lemma_filled_ok(shreds, full);
    lemma_rebuilt_ok(shreds, full);
    let filled = batch_of(t, sorted)->Ok_0;
    let shards = shards_in(filled, mask)->Ok_0;
    let parts = coded_parts(full);
    let data = t.num_data() as usize;
    let coding = t.num_coding() as usize;
    assert(code_restores(data, coding, shards));
    assert(filled[i] == filled[i]);
    if !mask[i] {
        assert(shards[i].1 == mask[i]);
        assert(reconstructed(data, coding, shards)[i] == parts[i]);
    }
}

/// The shreds and leaves of a restored batch.
proof fn lemma_restored_leaves(shreds: Seq<ShredView>, full: Seq<ShredView>) -> (parsed: Seq<
    ShredView,
>)
    requires
        is_whole_batch(full),
        enough_of(shreds, full),
        restores_batch(common_part(full), in_order(shreds)),
    ensures
        ({
            let t = common_part(full);
            let sorted = in_order(shreds);
            let mask = mask_of(sorted, full.len());
            let batch = rebuilt(t, batch_of(t, sorted)->Ok_0, mask)->Ok_0;
            &&& leaves_of(batch, mask, t.num_data()) == Ok::<_, Error>((parsed, leaves_in(full)))
            &&& recovered(parsed, mask, leaves_in(full), full.len()) == missing_of(
                full,
                mask,
                full.len(),
            )
        }),
{
    let t = common_part(full);
    let sorted = in_order(shreds);
    let n = full.len();
    let mask = mask_of(sorted, n);
    let batch = rebuilt(t, batch_of(t, sorted)->Ok_0, mask)->Ok_0;
    let leaves = leaves_in(full);
    lemma_filled_ok(shreds, full);
    lemma_restored(shreds, full, 0);
    let parsed = Seq::new(
        n,
        |i: int| ShredView { headers: full[i].headers, payload: batch[i].payload },
    );
    assert forall|i: int| 0 <= i < n implies (#[trigger] parsed[i]).merkle_node() == Ok::<_, Error>(
        leaves[i],
    ) && if mask[i] {
        parsed[i] == batch[i]
    } else {
        &&& checked(batch[i], i as nat, t.num_data()) == Ok::<_, Error>(parsed[i])
        &&& with_proof(parsed[i], proof_path(leaves, i as nat)) == Ok::<_, Error>(full[i])
    } by {
        lemma_restored(shreds, full, i);
        if mask[i] {
            assert(is_shred_at(t, full[i], i as nat));
            lemma_parts(full[i]);
            assert(parsed[i] == full[i]);
        } else {
            lemma_rebuilt_shred(full, i);
        }
    }
    lemma_leaves_ok(batch, mask, t.num_data(), parsed, leaves);
    lemma_recovered_is_missing(parsed, mask, leaves, full, n);
    parsed
}

/// What recovery gives, step by step.
proof fn lemma_recovery(
    shreds: Seq<ShredView>,
    t: TemplateView,
    filled: Seq<ShredView>,
    batch: Seq<ShredView>,
    parsed: Seq<ShredView>,
    leaves: Seq<Seq<u8>>,
)
    requires
        in_order(shreds).len() > 0,
        template_of(in_order(shreds).last()) == Ok::<_, Error>(t),
        in_order(shreds).last().merkle_root() == Ok::<_, Error>(tree_root(leaves)),
        batch_of(t, in_order(shreds)) == Ok::<_, Error>(filled),
        rebuilt(t, filled, mask_of(in_order(shreds), t.num_shards())) == Ok::<_, Error>(batch),
        leaves_of(batch, mask_of(in_order(shreds), t.num_shards()), t.num_data()) == Ok::<_, Error>(
            (parsed, leaves),
        ),
    ensures
        recovery_of(shreds) == Ok::<_, Error>(
            recovered(parsed, mask_of(in_order(shreds), t.num_shards()), leaves, t.num_shards()),
        ),
{
}

/// Sorting does not change which positions are taken.
proof fn lemma_mask_in_order(shreds: Seq<ShredView>, n: nat)
    ensures
        mask_of(in_order(shreds), n) == mask_of(shreds, n),
{
    assert forall|i: int| 0 <= i < n implies #[trigger] mask_of(shreds, n)[i] == mask_of(
        in_order(shreds),
        n,
    )[i] by {
        lemma_positions_in_order(shreds, i);
    }
    assert(mask_of(shreds, n) =~= mask_of(in_order(shreds), n));
}

/// Where the erasure code restores what it coded, recovery from enough shreds of a batch gives the
/// other shreds of the batch.
pub proof fn recovery_gives_back_lost_shreds(shreds: Seq<ShredView>, full: Seq<ShredView>)
    requires
        is_whole_batch(full),
        enough_of(shreds, full),
    ensures
        restores_batch(common_part(full), in_order(shreds)) ==> recovery_of(shreds) == Ok::<
            _,
            Error,
        >(missing_of(full, mask_of(shreds, full.len()), full.len())),
{
    if restores_batch(common_part(full), in_order(shreds)) {
        let t = common_part(full);
        let sorted = in_order(shreds);
        let mask = mask_of(sorted, full.len());
        lemma_filled_ok(shreds, full);
        lemma_rebuilt_ok(shreds, full);
        let filled = batch_of(t, sorted)->Ok_0;
        let batch = rebuilt(t, filled, mask)->Ok_0;
        let parsed = lemma_restored_leaves(shreds, full);
        lemma_recovery(shreds, t, filled, batch, parsed, leaves_in(full));
        lemma_mask_in_order(shreds, full.len());
    }
}

/// Whether `data` are the data shreds among the missing ones, but for their proofs.
pub open spec fn are_missing_data(
    data: Seq<ShredView>,
    missing: Seq<Result<ShredView, Error>>,
) -> bool {
    &&& data.len() <= missing.len()
    &&& forall|k: int|
        0 <= k < data.len() ==> (#[trigger] data[k]).kind() == ShredType::Data && data[k].headers
            == missing[k]->Ok_0.headers && data[k].data() == missing[k]->Ok_0.data() && data[k].same_but_proof(
            missing[k]->Ok_0,
        )
    &&& forall|k: int|
        data.len() <= k < missing.len() ==> (#[trigger] missing[k])->Ok_0.kind() == ShredType::Code
}

proof fn lemma_missing_is_ok(full: Seq<ShredView>, mask: Seq<bool>, n: nat)
    ensures
        forall|k: int|
            0 <= k < missing_of(full, mask, n).len() ==> (#[trigger] missing_of(full, mask, n)[k])
                is Ok,
    decreases n,
{
    if n > 0 {
        lemma_missing_is_ok(full, mask, (n - 1) as nat);
    }
}

/// Where the erasure code restores what it coded, recovery of the data alone from enough shreds of a
/// batch gives the other data shreds of the batch, but for their proofs.
pub proof fn data_recovery_gives_back_lost_data(shreds: Seq<ShredView>, full: Seq<ShredView>)
    requires
        is_whole_batch(full),
        enough_of(shreds, full),
    ensures
        restores_batch(common_part(full), in_order(shreds)) ==> (data_recovery_of(shreds) matches Ok(
            data,
        ) && are_missing_data(
            data,
            missing_of(full, mask_of(shreds, full.len()), full.len()),
        )),
{
    if restores_batch(common_part(full), in_order(shreds)) {
        recovery_gives_back_lost_shreds(shreds, full);
        data_only_recovery_agrees(shreds);
        let missing = missing_of(full, mask_of(shreds, full.len()), full.len());
        lemma_missing_is_ok(full, mask_of(shreds, full.len()), full.len());
        let data = data_recovery_of(shreds)->Ok_0;
        assert forall|k: int| 0 <= k < data.len() implies (#[trigger] data[k]).kind()
            == ShredType::Data && data[k].headers == missing[k]->Ok_0.headers && data[k].data() == missing[k]->Ok_0.data()
            && data[k].same_but_proof(missing[k]->Ok_0) by {
            assert(missing[k] is Ok);
        }
        assert forall|k: int| data.len() <= k < missing.len() implies (
        #[trigger] missing[k])->Ok_0.kind() == ShredType::Code by {
            assert(missing[k] is Ok);
        }
    }
}

/// The template of a batch, and its root, as enough of its shreds tell them.
pub(crate) proof fn lemma_given_template(shreds: Seq<ShredView>, full: Seq<ShredView>)
    requires
        is_whole_batch(full),
        enough_of(shreds, full),
    ensures
        in_order(shreds).len() > 0,
        template_of(in_order(shreds).last()) == Ok::<_, Error>(common_part(full)),
        in_order(shreds).last().merkle_root() is Ok,
{
    lemma_filled_ok(shreds, full);
}

} // verus!
