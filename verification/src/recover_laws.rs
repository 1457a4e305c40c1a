//! What holds of recovered shreds.
use crate::error::{Error, ShredHeaders};
use crate::geometry::payload_size;
use crate::header::{
    coding_headers_bytes, coding_headers_round_trip, data_headers_are_a_prefix, data_headers_of,
};
use crate::merkle::{flat, written_proof};
use crate::merkle_tree::{
    made_proof_leads_to_root, parents, proof_path, root_is_last_node, tree_root,
};
use crate::model::ShredView;
use crate::recover::{
    bare_stub, batch_of, checked, data_recovery_of, has_position, in_order, in_order_sorts,
    leaves_of, lemma_leaves_of, lemma_shards_in, mask_of, not_after, padded, placed, rebuilt,
    recovered, recovered_data, recovery_of, shards_in, stub_of, template_of, with_proof,
    with_shard, TemplateView,
};
use crate::reed_solomon::{num_present, reconstructed};
use crate::shred::{erasure_set_of, shred_in, verifies};
use crate::shred_type::ShredType;
use vstd::prelude::*;

verus! {

/// A stub and what becomes of it: the headers of the shred in its position, the right size, and for
/// coding shreds the bytes of the headers in front.
pub open spec fn fits_position(t: TemplateView, shred: ShredView, index: nat) -> bool {
    &&& shred.payload.len() == payload_size(shred.kind())
    &&& shred.common().signature == t.common_header.signature
    &&& shred.common().slot == t.common_header.slot
    &&& shred.common().version == t.common_header.version
    &&& shred.common().fec_set_index == t.common_header.fec_set_index
    &&& match shred.headers {
        ShredHeaders::Data(common_header, _) => {
            &&& index < t.num_data()
            &&& common_header.index == t.common_header.fec_set_index + index
        },
        ShredHeaders::Code(common_header, coding_header) => {
            &&& index >= t.num_data()
            &&& common_header.index == t.common_header.index + (index - t.num_data())
            &&& common_header.shred_variant == t.common_header.shred_variant
            &&& coding_header.position == index - t.num_data()
            &&& coding_header.num_data_shreds == t.coding_header.num_data_shreds
            &&& coding_header.num_coding_shreds == t.coding_header.num_coding_shreds
            &&& shred.payload.take(89) == coding_headers_bytes(common_header, coding_header)
        },
    }
}

pub(crate) proof fn lemma_stub_fits(t: TemplateView, index: nat)
    requires
        t.indices_fit(),
        index < t.num_shards(),
        stub_of(t, index) is Ok,
        t.chained_merkle_root matches Some(root) ==> root.len() == 32,
        t.retransmitter_signature matches Some(signature) ==> signature.len() == 64,
    ensures
        fits_position(t, stub_of(t, index)->Ok_0, index),
{
    let bare = bare_stub(t, index)->Ok_0;
    let stub = stub_of(t, index)->Ok_0;
    assert(stub.headers == bare.headers);
    if let ShredHeaders::Code(common_header, coding_header) = stub.headers {
        let bytes = coding_headers_bytes(common_header, coding_header);
        assert(bytes.len() == 89);
        assert(bare.payload.take(89) =~= bytes);
        assert(stub.payload.take(89) =~= bare.payload.take(89));
    }
}

pub(crate) proof fn lemma_padded(t: TemplateView, batch: Seq<ShredView>, end: nat)
    requires
        padded(t, batch, end) is Ok,
    ensures
        ({
            let all = padded(t, batch, end)->Ok_0;
            &&& all.len() == if batch.len() >= end {
                batch.len()
            } else {
                end
            }
            &&& forall|i: int| 0 <= i < batch.len() ==> #[trigger] all[i] == batch[i]
            &&& forall|i: int|
                batch.len() <= i < all.len() ==> stub_of(t, i as nat) == Ok::<_, Error>(
                    #[trigger] all[i],
                )
        }),
    decreases end - batch.len(),
{
    if batch.len() < end {
        let more = batch.push(stub_of(t, batch.len())->Ok_0);
        lemma_padded(t, more, end);
        let all = padded(t, batch, end)->Ok_0;
        assert forall|i: int| 0 <= i < batch.len() implies #[trigger] all[i] == batch[i] by {
            assert(all[i] == more[i]);
        }
        assert forall|i: int| batch.len() <= i < all.len() implies stub_of(t, i as nat) == Ok::<
            _,
            Error,
        >(#[trigger] all[i]) by {
            if i == batch.len() {
                assert(all[i] == more[i]);
            }
        }
    }
}

/// The position of a shred in its batch.
pub open spec fn position_of(shred: ShredView) -> int {
    shred.erasure_shard_index()->Ok_0 as int
}

/// Shreds that were put into a batch are in their positions, one behind the other, and there are
/// stubs in between.
pub(crate) proof fn lemma_placed(t: TemplateView, shreds: Seq<ShredView>)
    requires
        placed(t, shreds) is Ok,
    ensures
        ({
            let batch = placed(t, shreds)->Ok_0;
            &&& batch.len() == if shreds.len() == 0 {
                0
            } else {
                position_of(shreds.last()) + 1
            }
            &&& batch.len() <= t.num_shards()
            &&& forall|j: int|
                0 <= j < shreds.len() ==> (#[trigger] shreds[j]).erasure_shard_index() is Ok && 0
                    <= position_of(shreds[j]) < batch.len() && batch[position_of(shreds[j])]
                    == shreds[j] && shreds[j].common().signature == t.common_header.signature
            &&& forall|j: int, k: int|
                0 <= j < k < shreds.len() ==> position_of(#[trigger] shreds[j]) < position_of(
                    #[trigger] shreds[k],
                )
            &&& forall|i: int|
                0 <= i < batch.len() && !has_position(shreds, i) ==> stub_of(t, i as nat) == Ok::<
                    _,
                    Error,
                >(#[trigger] batch[i])
        }),
    decreases shreds.len(),
{
    if shreds.len() > 0 {
        let rest = shreds.drop_last();
        let shred = shreds.last();
        lemma_placed(t, rest);
        let before = placed(t, rest)->Ok_0;
        let index = position_of(shred);
        lemma_padded(t, before, index as nat);
        let mid = padded(t, before, index as nat)->Ok_0;
        let batch = placed(t, shreds)->Ok_0;
        assert(batch == mid.push(shred));
        assert(mid.len() == index);
        assert forall|j: int| 0 <= j < shreds.len() implies (
        #[trigger] shreds[j]).erasure_shard_index() is Ok && 0 <= position_of(shreds[j])
            < batch.len() && batch[position_of(shreds[j])] == shreds[j]
            && shreds[j].common().signature == t.common_header.signature by {
            if j < rest.len() {
                assert(rest[j] == shreds[j]);
                assert(mid[position_of(rest[j])] == before[position_of(rest[j])]);
            }
        }
        assert forall|j: int, k: int| 0 <= j < k < shreds.len() implies position_of(
            #[trigger] shreds[j],
        ) < position_of(#[trigger] shreds[k]) by {
            assert(rest[j] == shreds[j]);
            if k < rest.len() {
                assert(rest[k] == shreds[k]);
            }
        }
        assert forall|i: int| 0 <= i < batch.len() && !has_position(shreds, i) implies stub_of(
            t,
            i as nat,
        ) == Ok::<_, Error>(#[trigger] batch[i]) by {
            if i == index {
                assert(shreds[shreds.len() - 1].erasure_shard_index() == Ok::<_, Error>(i as usize));
            } else if i < before.len() {
                if has_position(rest, i) {
                    let j = choose|j: int|
                        0 <= j < rest.len() && (#[trigger] rest[j]).erasure_shard_index() == Ok::<
                            _,
                            Error,
                        >(i as usize);
                    assert(shreds[j] == rest[j]);
                }
                assert(mid[i] == before[i]);
            } else {
                assert(batch[i] == mid[i]);
            }
        }
    }
}

/// A whole batch holds the given shreds in their positions and stubs in the others.
pub(crate) proof fn lemma_batch(t: TemplateView, shreds: Seq<ShredView>)
    requires
        batch_of(t, shreds) is Ok,
    ensures
        ({
            let batch = batch_of(t, shreds)->Ok_0;
            &&& batch.len() == t.num_shards()
            &&& forall|j: int|
                0 <= j < shreds.len() ==> (#[trigger] shreds[j]).erasure_shard_index() is Ok && 0
                    <= position_of(shreds[j]) < batch.len() && batch[position_of(shreds[j])]
                    == shreds[j] && shreds[j].common().signature == t.common_header.signature
            &&& forall|j: int, k: int|
                0 <= j < k < shreds.len() ==> position_of(#[trigger] shreds[j]) < position_of(
                    #[trigger] shreds[k],
                )
            &&& forall|i: int|
                0 <= i < batch.len() && !has_position(shreds, i) ==> stub_of(t, i as nat) == Ok::<
                    _,
                    Error,
                >(#[trigger] batch[i])
        }),
{
    lemma_placed(t, shreds);
    let front = placed(t, shreds)->Ok_0;
    lemma_padded(t, front, t.num_shards());
    let batch = batch_of(t, shreds)->Ok_0;
    assert forall|j: int| 0 <= j < shreds.len() implies (#[trigger] shreds[j]).erasure_shard_index()
        is Ok && 0 <= position_of(shreds[j]) < batch.len() && batch[position_of(shreds[j])]
        == shreds[j] && shreds[j].common().signature == t.common_header.signature by {
        assert(batch[position_of(shreds[j])] == front[position_of(shreds[j])]);
    }
    assert forall|i: int| 0 <= i < batch.len() && !has_position(shreds, i) implies stub_of(
        t,
        i as nat,
    ) == Ok::<_, Error>(#[trigger] batch[i]) by {
        if i < front.len() {
            assert(batch[i] == front[i]);
        }
    }
}

proof fn lemma_proof_entries(level: Seq<Seq<u8>>, index: nat)
    ensures
        forall|k: int|
            0 <= k < proof_path(level, index).len() ==> (#[trigger] proof_path(
                level,
                index,
            )[k]).len() == 20,
    decreases level.len(),
{
    if level.len() > 1 {
        lemma_proof_entries(parents(level), index / 2);
        let path = proof_path(level, index);
        let rest = proof_path(parents(level), index / 2);
        assert forall|k: int| 0 <= k < path.len() implies (#[trigger] path[k]).len() == 20 by {
            if k > 0 {
                assert(path[k] == rest[k - 1]);
            }
        }
    }
}

/// A proof that was written to a shred is read back.
proof fn lemma_proof_is_read_back(shred: ShredView, branch: Seq<Seq<u8>>)
    requires
        with_proof(shred, branch) is Ok,
        shred.proof_offset() matches Ok(offset) && offset <= shred.payload.len(),
        forall|k: int| 0 <= k < branch.len() ==> (#[trigger] branch[k]).len() == 20,
    ensures
        with_proof(shred, branch)->Ok_0.merkle_proof() == Ok::<_, Error>(branch),
        with_proof(shred, branch)->Ok_0.headers == shred.headers,
        with_proof(shred, branch)->Ok_0.payload.len() == shred.payload.len(),
        forall|i: int|
            0 <= i < shred.proof_offset()->Ok_0 ==> with_proof(shred, branch)->Ok_0.payload[i]
                == #[trigger] shred.payload[i],
{
    let (proof_size, _) = shred.params()->Ok_0;
    let offset = shred.proof_offset()->Ok_0 as int;
    let finished = with_proof(shred, branch)->Ok_0;
    let room = (shred.payload.len() - offset) as nat;
    assert(written_proof(branch, proof_size, room) == flat(branch));
    let path = finished.merkle_proof()->Ok_0;
    assert forall|k: int| 0 <= k < proof_size implies path[k] == branch[k] by {
        let entry = path[k];
        assert(entry == finished.payload.subrange(offset + k * 20, offset + k * 20 + 20));
        assert forall|i: int| 0 <= i < 20 implies entry[i] == branch[k][i] by {
            let at = k * 20 + i;
            assert(at / 20 == k && at % 20 == i);
            assert(entry[i] == finished.payload[offset + at]);
            assert(finished.payload[offset + at] == flat(branch)[at]);
        }
        assert(entry =~= branch[k]);
    }
    assert(path =~= branch);
}

/// The `k`-th of the recovered shreds is that of a missing position.
proof fn lemma_recovered_item(
    batch: Seq<ShredView>,
    mask: Seq<bool>,
    leaves: Seq<Seq<u8>>,
    n: nat,
    k: int,
) -> (i: nat)
    requires
        0 <= k < recovered(batch, mask, leaves, n).len(),
    ensures
        i < n,
        !mask[i as int],
        recovered(batch, mask, leaves, n)[k] == with_proof(batch[i as int], proof_path(leaves, i)),
    decreases n,
{
    let before = recovered(batch, mask, leaves, (n - 1) as nat);
    if k < before.len() {
        lemma_recovered_item(batch, mask, leaves, (n - 1) as nat, k)
    } else {
        (n - 1) as nat
    }
}

/// Sorting changes nothing about which positions are taken.
pub(crate) proof fn lemma_positions_in_order(shreds: Seq<ShredView>, index: int)
    ensures
        has_position(in_order(shreds), index) == has_position(shreds, index),
{
    broadcast use vstd::seq_lib::group_to_multiset_ensures;

    let sorted = in_order(shreds);
    in_order_sorts(shreds);
    if has_position(sorted, index) {
        let j = choose|j: int|
            0 <= j < sorted.len() && (#[trigger] sorted[j]).erasure_shard_index() == Ok::<_, Error>(
                index as usize,
            );
        assert(sorted.contains(sorted[j]));
        assert(sorted.to_multiset().count(sorted[j]) > 0);
        assert(shreds.contains(sorted[j]));
        let k = choose|k: int| 0 <= k < shreds.len() && shreds[k] == sorted[j];
        assert(shreds[k].erasure_shard_index() == Ok::<_, Error>(index as usize));
    }
    if has_position(shreds, index) {
        let j = choose|j: int|
            0 <= j < shreds.len() && (#[trigger] shreds[j]).erasure_shard_index() == Ok::<_, Error>(
                index as usize,
            );
        assert(shreds.contains(shreds[j]));
        assert(shreds.to_multiset().count(shreds[j]) > 0);
        assert(sorted.contains(shreds[j]));
        let k = choose|k: int| 0 <= k < sorted.len() && sorted[k] == shreds[j];
        assert(sorted[k].erasure_shard_index() == Ok::<_, Error>(index as usize));
    }
}

/// A rebuilt shred that passed the checks fits its position, makes sense, and starts with the bytes
/// of its headers.
proof fn lemma_checked_fits(t: TemplateView, stub: ShredView, shard: Seq<u8>, index: nat)
    requires
        fits_position(t, stub, index),
        checked(with_shard(stub, shard), index, t.num_data()) is Ok,
    ensures
        ({
            let shred = checked(with_shard(stub, shard), index, t.num_data())->Ok_0;
            &&& fits_position(t, shred, index)
            &&& shred.sanitize() is Ok
            &&& shred.headers matches ShredHeaders::Data(common_header, data_header) ==> data_headers_of(
                shred.payload,
            ) == Ok::<_, crate::error::ReadError>((common_header, data_header))
            &&& position_of(shred) == index
        }),
{
    let shred = checked(with_shard(stub, shard), index, t.num_data())->Ok_0;
    if shred.headers is Code {
        assert(shred.payload.take(89) =~= stub.payload.take(89));
    }
}

/// A shred that fits its position and makes sense is what parsing its bytes gives.
proof fn lemma_reparse(t: TemplateView, shred: ShredView, index: nat)
    requires
        fits_position(t, shred, index),
        shred.sanitize() is Ok,
        t.common_header.shred_variant.encodable(),
        shred.headers matches ShredHeaders::Data(common_header, data_header) ==> data_headers_of(
            shred.payload,
        ) == Ok::<_, crate::error::ReadError>((common_header, data_header)),
    ensures
        shred_in(shred.payload) == Ok::<_, Error>(shred),
{
    let payload = shred.payload;
    assert(payload.take(payload.len() as int) =~= payload);
    if let ShredHeaders::Code(common_header, coding_header) = shred.headers {
        assert(payload.subrange(0, 89) =~= payload.take(89));
        coding_headers_round_trip(common_header, coding_header, payload);
    }
}

/// What writing its proof to a rebuilt shred that passed the checks gives.
proof fn lemma_finished(t: TemplateView, shred: ShredView, leaves: Seq<Seq<u8>>, index: nat)
    requires
        fits_position(t, shred, index),
        shred.sanitize() is Ok,
        position_of(shred) == index,
        index < leaves.len(),
        shred.merkle_node() == Ok::<_, Error>(leaves[index as int]),
        with_proof(shred, proof_path(leaves, index)) is Ok,
        shred.headers matches ShredHeaders::Data(common_header, data_header) ==> data_headers_of(
            shred.payload,
        ) == Ok::<_, crate::error::ReadError>((common_header, data_header)),
    ensures
        ({
            let finished = with_proof(shred, proof_path(leaves, index))->Ok_0;
            &&& fits_position(t, finished, index)
            &&& finished.sanitize() is Ok
            &&& position_of(finished) == index
            &&& finished.merkle_root() == Ok::<_, Error>(tree_root(leaves))
            &&& finished.headers matches ShredHeaders::Data(common_header, data_header) ==> data_headers_of(
                finished.payload,
            ) == Ok::<_, crate::error::ReadError>((common_header, data_header))
        }),
{
    let branch = proof_path(leaves, index);
    lemma_proof_entries(leaves, index);
    lemma_proof_is_read_back(shred, branch);
    let finished = with_proof(shred, branch)->Ok_0;
    let offset = shred.proof_offset()->Ok_0 as int;
    assert(finished.payload.subrange(64, offset) =~= shred.payload.subrange(64, offset));
    assert(finished.merkle_node() == Ok::<_, Error>(leaves[index as int]));
    made_proof_leads_to_root(leaves, index);
    root_is_last_node(leaves);
    if finished.headers is Code {
        assert(finished.payload.take(89) =~= shred.payload.take(89));
    } else {
        data_headers_are_a_prefix(finished.payload, shred.payload);
    }
}

/// What recovery goes through when it succeeds.
pub open spec fn recovery_steps(
    shreds: Seq<ShredView>,
    t: TemplateView,
    filled: Seq<ShredView>,
    batch: Seq<ShredView>,
    parsed: Seq<ShredView>,
    leaves: Seq<Seq<u8>>,
) -> bool {
    let sorted = in_order(shreds);
    let mask = mask_of(sorted, t.num_shards());
    &&& sorted.len() > 0
    &&& template_of(sorted.last()) == Ok::<_, Error>(t)
    &&& sorted.last().merkle_root() == Ok::<_, Error>(tree_root(leaves))
    &&& batch_of(t, sorted) == Ok::<_, Error>(filled)
    &&& rebuilt(t, filled, mask) == Ok::<_, Error>(batch)
    &&& leaves_of(batch, mask, t.num_data()) == Ok::<_, Error>((parsed, leaves))
    &&& recovery_of(shreds) == Ok::<_, Error>(recovered(parsed, mask, leaves, t.num_shards()))
}

pub(crate) proof fn lemma_recovery_steps(shreds: Seq<ShredView>) -> (steps: (
    TemplateView,
    Seq<ShredView>,
    Seq<ShredView>,
    Seq<ShredView>,
    Seq<Seq<u8>>,
))
    requires
        recovery_of(shreds) is Ok,
    ensures
        recovery_steps(shreds, steps.0, steps.1, steps.2, steps.3, steps.4),
{
    let sorted = in_order(shreds);
    let t = template_of(sorted.last())->Ok_0;
    let mask = mask_of(sorted, t.num_shards());
    let filled = batch_of(t, sorted)->Ok_0;
    let batch = rebuilt(t, filled, mask)->Ok_0;
    let (parsed, leaves) = leaves_of(batch, mask, t.num_data())->Ok_0;
    (t, filled, batch, parsed, leaves)
}

/// The template of a batch that has a root names indices that fit, and digests and signatures of the
/// right lengths.
pub(crate) proof fn lemma_template(shred: ShredView)
    requires
        template_of(shred) is Ok,
        shred.erasure_shard_index() is Ok,
    ensures
        ({
            let t = template_of(shred)->Ok_0;
            &&& t.indices_fit()
            &&& t.chained_merkle_root matches Some(root) ==> root.len() == 32
            &&& t.retransmitter_signature matches Some(signature) ==> signature.len() == 64
        }),
{
}

/// A rebuilt and checked shred in a position where none was given.
proof fn lemma_missing(
    shreds: Seq<ShredView>,
    t: TemplateView,
    filled: Seq<ShredView>,
    batch: Seq<ShredView>,
    parsed: Seq<ShredView>,
    leaves: Seq<Seq<u8>>,
    i: nat,
)
    requires
        recovery_steps(shreds, t, filled, batch, parsed, leaves),
        i < t.num_shards(),
        !has_position(in_order(shreds), i as int),
    ensures
        parsed.len() == leaves.len() == batch.len() == t.num_shards(),
        checked(batch[i as int], i, t.num_data()) == Ok::<_, Error>(parsed[i as int]),
        parsed[i as int].merkle_node() == Ok::<_, Error>(leaves[i as int]),
        fits_position(t, parsed[i as int], i),
        parsed[i as int].sanitize() is Ok,
        position_of(parsed[i as int]) == i,
        parsed[i as int].headers matches ShredHeaders::Data(common_header, data_header)
            ==> data_headers_of(parsed[i as int].payload) == Ok::<_, crate::error::ReadError>(
            (common_header, data_header),
        ),
{
    let sorted = in_order(shreds);
    let mask = mask_of(sorted, t.num_shards());
    lemma_batch(t, sorted);
    lemma_leaves_of(batch, mask, t.num_data());
    lemma_template(sorted.last());
    lemma_stub_fits(t, i);
    let stub = filled[i as int];
    assert(stub_of(t, i) == Ok::<_, Error>(stub));
    let shard = reconstructed(
        t.num_data() as usize,
        t.num_coding() as usize,
        shards_in(filled, mask)->Ok_0,
    )[i as int];
    assert(batch[i as int] == with_shard(stub, shard));
    assert(leaves[i as int] == leaves[i as int]);
    lemma_checked_fits(t, stub, shard, i);
}

/// Every recovered shred makes sense, is of the batch and signed as the others are, is in a position
/// where no shred was given, and its proof leads to the Merkle root of the batch. Parsing its bytes
/// gives the shred again.
pub proof fn recovered_shreds_are_valid(shreds: Seq<ShredView>, k: int)
    requires
        recovery_of(shreds) matches Ok(out) && 0 <= k < out.len() && out[k] is Ok,
    ensures
        ({
            let given = in_order(shreds).last();
            let shred = recovery_of(shreds)->Ok_0[k]->Ok_0;
            let num_shards = given.headers->Code_1.num_data_shreds
                + given.headers->Code_1.num_coding_shreds;
            &&& shred.sanitize() is Ok
            &&& shred.merkle_root() is Ok
            &&& shred.merkle_root() == given.merkle_root()
            &&& erasure_set_of(shred) == erasure_set_of(given)
            &&& shred.common().signature == given.common().signature
            &&& shred.common().version == given.common().version
            &&& 0 <= position_of(shred) < num_shards
            &&& !has_position(shreds, position_of(shred))
            &&& given.common().shred_variant.encodable() ==> shred_in(shred.payload) == Ok::<
                _,
                Error,
            >(shred)
        }),
{
    let sorted = in_order(shreds);
    let (t, filled, batch, parsed, leaves) = lemma_recovery_steps(shreds);
    let mask = mask_of(sorted, t.num_shards());
    let i = lemma_recovered_item(parsed, mask, leaves, t.num_shards(), k);
    assert(!has_position(sorted, i as int));
    lemma_missing(shreds, t, filled, batch, parsed, leaves, i);
    lemma_finished(t, parsed[i as int], leaves, i);
    lemma_positions_in_order(shreds, i as int);
    let shred = with_proof(parsed[i as int], proof_path(leaves, i))->Ok_0;
    if t.common_header.shred_variant.encodable() {
        lemma_reparse(t, shred, i);
    }
}

/// Recovered shreds are signed by whoever signed the others.
pub proof fn recovered_shreds_verify_as_given(shreds: Seq<ShredView>, k: int, pubkey: Seq<u8>)
    requires
        recovery_of(shreds) matches Ok(out) && 0 <= k < out.len() && out[k] is Ok,
    ensures
        verifies(recovery_of(shreds)->Ok_0[k]->Ok_0, pubkey) == verifies(
            in_order(shreds).last(),
            pubkey,
        ),
{
    recovered_shreds_are_valid(shreds, k);
}

/// How many of the first `n` positions are not taken.
pub open spec fn num_missing(mask: Seq<bool>, n: nat) -> nat
    decreases n,
{
    if n == 0 {
        0
    } else {
        num_missing(mask, (n - 1) as nat) + if mask[n - 1] {
            0nat
        } else {
            1nat
        }
    }
}

proof fn lemma_num_missing_none(mask: Seq<bool>, n: nat)
    requires
        forall|i: int| 0 <= i < n ==> !mask[i],
    ensures
        num_missing(mask, n) == n,
    decreases n,
{
    if n > 0 {
        lemma_num_missing_none(mask, (n - 1) as nat);
    }
}

proof fn lemma_num_missing_update(mask: Seq<bool>, index: int, n: nat)
    requires
        0 <= index < mask.len(),
        n <= mask.len(),
        !mask[index],
    ensures
        num_missing(mask.update(index, true), n) + if index < n {
            1nat
        } else {
            0nat
        } == num_missing(mask, n),
    decreases n,
{
    if n > 0 {
        lemma_num_missing_update(mask, index, (n - 1) as nat);
    }
}

/// Shreds in different positions leave as many positions free as are left over.
pub(crate) proof fn lemma_num_missing(shreds: Seq<ShredView>, n: nat)
    requires
        n <= usize::MAX,
        forall|j: int|
            0 <= j < shreds.len() ==> (#[trigger] shreds[j]).erasure_shard_index() is Ok && 0
                <= position_of(shreds[j]) < n,
        forall|j: int, k: int|
            0 <= j < k < shreds.len() ==> position_of(#[trigger] shreds[j]) < position_of(
                #[trigger] shreds[k],
            ),
    ensures
        num_missing(mask_of(shreds, n), n) + shreds.len() == n,
    decreases shreds.len(),
{
    if shreds.len() == 0 {
        lemma_num_missing_none(mask_of(shreds, n), n);
    } else {
        let rest = shreds.drop_last();
        let last = shreds.last();
        let index = position_of(last);
        lemma_num_missing(rest, n);
        let before = mask_of(rest, n);
        assert(!before[index]) by {
            if has_position(rest, index) {
                let j = choose|j: int|
                    0 <= j < rest.len() && (#[trigger] rest[j]).erasure_shard_index() == Ok::<
                        _,
                        Error,
                    >(index as usize);
                assert(shreds[j] == rest[j]);
                assert(shreds[shreds.len() - 1] == last);
                assert(position_of(shreds[j]) < position_of(shreds[shreds.len() - 1]));
            }
        }
        assert forall|i: int| 0 <= i < n implies #[trigger] mask_of(shreds, n)[i] == before.update(
            index,
            true,
        )[i] by {
            assert(shreds[shreds.len() - 1] == last);
            if has_position(rest, i) {
                let j = choose|j: int|
                    0 <= j < rest.len() && (#[trigger] rest[j]).erasure_shard_index() == Ok::<
                        _,
                        Error,
                    >(i as usize);
                assert(shreds[j] == rest[j]);
            }
            if has_position(shreds, i) {
                let j = choose|j: int|
                    0 <= j < shreds.len() && (#[trigger] shreds[j]).erasure_shard_index() == Ok::<
                        _,
                        Error,
                    >(i as usize);
                if j < rest.len() {
                    assert(rest[j] == shreds[j]);
                }
            }
        }
        assert(mask_of(shreds, n) =~= before.update(index, true));
        lemma_num_missing_update(before, index, n);
    }
}

proof fn lemma_recovered_len(
    batch: Seq<ShredView>,
    mask: Seq<bool>,
    leaves: Seq<Seq<u8>>,
    n: nat,
)
    ensures
        recovered(batch, mask, leaves, n).len() == num_missing(mask, n),
    decreases n,
{
    if n > 0 {
        lemma_recovered_len(batch, mask, leaves, (n - 1) as nat);
    }
}

/// Recovery gives one result for each shred of the batch that was not given.
pub proof fn one_result_per_missing_shred(shreds: Seq<ShredView>)
    requires
        recovery_of(shreds) is Ok,
    ensures
        ({
            let coding_header = in_order(shreds).last().headers->Code_1;
            recovery_of(shreds)->Ok_0.len() + shreds.len() == coding_header.num_data_shreds
                + coding_header.num_coding_shreds
        }),
{
    broadcast use vstd::seq_lib::group_to_multiset_ensures;

    let sorted = in_order(shreds);
    let (t, filled, batch, parsed, leaves) = lemma_recovery_steps(shreds);
    let n = t.num_shards();
    in_order_sorts(shreds);
    assert(sorted.len() == sorted.to_multiset().len());
    assert(shreds.len() == shreds.to_multiset().len());
    lemma_batch(t, sorted);
    lemma_num_missing(sorted, n);
    lemma_recovered_len(parsed, mask_of(sorted, n), leaves, n);
}

proof fn lemma_recovered_order(
    batch: Seq<ShredView>,
    mask: Seq<bool>,
    leaves: Seq<Seq<u8>>,
    n: nat,
    k: int,
    l: int,
) -> (positions: (nat, nat))
    requires
        0 <= k < l < recovered(batch, mask, leaves, n).len(),
    ensures
        positions.0 < positions.1 < n,
        !mask[positions.0 as int],
        !mask[positions.1 as int],
        recovered(batch, mask, leaves, n)[k] == with_proof(
            batch[positions.0 as int],
            proof_path(leaves, positions.0),
        ),
        recovered(batch, mask, leaves, n)[l] == with_proof(
            batch[positions.1 as int],
            proof_path(leaves, positions.1),
        ),
    decreases n,
{
    let before = recovered(batch, mask, leaves, (n - 1) as nat);
    if l < before.len() {
        lemma_recovered_order(batch, mask, leaves, (n - 1) as nat, k, l)
    } else {
        (lemma_recovered_item(batch, mask, leaves, (n - 1) as nat, k), (n - 1) as nat)
    }
}

/// Recovered shreds come in the order of their positions.
pub proof fn recovered_shreds_are_in_order(shreds: Seq<ShredView>, k: int, l: int)
    requires
        recovery_of(shreds) matches Ok(out) && 0 <= k < l < out.len() && out[k] is Ok
            && out[l] is Ok,
    ensures
        position_of(recovery_of(shreds)->Ok_0[k]->Ok_0) < position_of(
            recovery_of(shreds)->Ok_0[l]->Ok_0,
        ),
{
    let sorted = in_order(shreds);
    let (t, filled, batch, parsed, leaves) = lemma_recovery_steps(shreds);
    let mask = mask_of(sorted, t.num_shards());
    let (i, j) = lemma_recovered_order(parsed, mask, leaves, t.num_shards(), k, l);
    assert(!has_position(sorted, i as int));
    assert(!has_position(sorted, j as int));
    lemma_missing(shreds, t, filled, batch, parsed, leaves, i);
    lemma_missing(shreds, t, filled, batch, parsed, leaves, j);
    lemma_finished(t, parsed[i as int], leaves, i);
    lemma_finished(t, parsed[j as int], leaves, j);
}

pub(crate) proof fn lemma_num_present(shards: Seq<(Seq<u8>, bool)>, mask: Seq<bool>)
    requires
        forall|i: int| 0 <= i < shards.len() ==> (#[trigger] shards[i]).1 == mask[i],
    ensures
        num_present(shards) + num_missing(mask, shards.len()) == shards.len(),
    decreases shards.len(),
{
    reveal(Seq::filter);
    if shards.len() > 0 {
        let rest = shards.drop_last();
        assert forall|i: int| 0 <= i < rest.len() implies (#[trigger] rest[i]).1 == mask[i] by {
            assert(rest[i] == shards[i]);
        }
        lemma_num_present(rest, mask);
        assert(shards.last() == shards[shards.len() - 1]);
    }
}

/// Recovery succeeds only with at least as many shreds as the batch has data shreds.
pub proof fn recovery_needs_enough_shreds(shreds: Seq<ShredView>)
    requires
        recovery_of(shreds) is Ok,
    ensures
        shreds.len() >= in_order(shreds).last().headers->Code_1.num_data_shreds,
{
    broadcast use vstd::seq_lib::group_to_multiset_ensures;

    let sorted = in_order(shreds);
    let (t, filled, batch, parsed, leaves) = lemma_recovery_steps(shreds);
    let n = t.num_shards();
    let mask = mask_of(sorted, n);
    in_order_sorts(shreds);
    assert(sorted.len() == sorted.to_multiset().len());
    assert(shreds.len() == shreds.to_multiset().len());
    lemma_batch(t, sorted);
    lemma_num_missing(sorted, n);
    let shards = shards_in(filled, mask)->Ok_0;
    lemma_shards_in(filled, mask);
    assert forall|i: int| 0 <= i < shards.len() implies (#[trigger] shards[i]).1 == mask[i] by {
        assert(filled[i] == filled[i]);
    }
    lemma_num_present(shards, mask);
}

proof fn lemma_data_recovered_len(
    batch: Seq<ShredView>,
    parsed: Seq<ShredView>,
    mask: Seq<bool>,
    leaves: Seq<Seq<u8>>,
    num_data: nat,
    n: nat,
)
    requires
        n <= num_data,
        forall|i: int|
            0 <= i < n && !mask[i] ==> checked(#[trigger] batch[i], i as nat, num_data) == Ok::<
                _,
                Error,
            >(parsed[i]),
    ensures
        recovered_data(batch, mask, n).len() == recovered(parsed, mask, leaves, n).len(),
    decreases n,
{
    if n > 0 {
        lemma_data_recovered_len(batch, parsed, mask, leaves, num_data, (n - 1) as nat);
        assert(batch[n - 1] == batch[n - 1]);
    }
}

/// The `k`-th of the data shreds that are recovered alone is the `k`-th of all, but for the proof.
proof fn lemma_data_recovered_item(
    batch: Seq<ShredView>,
    parsed: Seq<ShredView>,
    mask: Seq<bool>,
    leaves: Seq<Seq<u8>>,
    num_data: nat,
    n: nat,
    k: int,
) -> (i: nat)
    requires
        n <= num_data,
        forall|i: int|
            0 <= i < n && !mask[i] ==> checked(#[trigger] batch[i], i as nat, num_data) == Ok::<
                _,
                Error,
            >(parsed[i]),
        0 <= k < recovered_data(batch, mask, n).len(),
    ensures
        i < n,
        !mask[i as int],
        recovered_data(batch, mask, n)[k] == parsed[i as int],
        recovered(parsed, mask, leaves, n)[k] == with_proof(
            parsed[i as int],
            proof_path(leaves, i),
        ),
    decreases n,
{
    let m = (n - 1) as nat;
    let before = recovered_data(batch, mask, m);
    lemma_data_recovered_len(batch, parsed, mask, leaves, num_data, m);
    assert(batch[m as int] == batch[m as int]);
    if k < before.len() {
        lemma_data_recovered_item(batch, parsed, mask, leaves, num_data, m, k)
    } else {
        m
    }
}

proof fn lemma_recovered_prefix(
    batch: Seq<ShredView>,
    mask: Seq<bool>,
    leaves: Seq<Seq<u8>>,
    m: nat,
    n: nat,
)
    requires
        m <= n,
    ensures
        recovered(batch, mask, leaves, m).len() <= recovered(batch, mask, leaves, n).len(),
        forall|k: int|
            0 <= k < recovered(batch, mask, leaves, m).len() ==> recovered(
                batch,
                mask,
                leaves,
                n,
            )[k] == #[trigger] recovered(batch, mask, leaves, m)[k],
    decreases n,
{
    if m < n {
        lemma_recovered_prefix(batch, mask, leaves, m, (n - 1) as nat);
    }
}

/// The data are where no proof is written.
proof fn lemma_proof_keeps_data(shred: ShredView, branch: Seq<Seq<u8>>)
    requires
        shred.kind() == ShredType::Data,
        shred.sanitize() is Ok,
        with_proof(shred, branch) is Ok,
    ensures
        with_proof(shred, branch)->Ok_0.headers == shred.headers,
        with_proof(shred, branch)->Ok_0.data() == shred.data(),
        shred.same_but_proof(with_proof(shred, branch)->Ok_0),
{
    let finished = with_proof(shred, branch)->Ok_0;
    assert(finished.data()->Ok_0 =~= shred.data()->Ok_0);
}

/// Where recovery succeeds, recovery of the data alone gives as many data shreds, in the same order,
/// with the same headers, the same data, and the same bytes but for the Merkle proof.
pub proof fn data_only_recovery_agrees(shreds: Seq<ShredView>)
    requires
        recovery_of(shreds) is Ok,
    ensures
        data_recovery_of(shreds) matches Ok(data) && {
            let out = recovery_of(shreds)->Ok_0;
            &&& data.len() <= out.len()
            &&& forall|k: int|
                0 <= k < data.len() ==> ((#[trigger] out[k]) matches Ok(shred) ==> shred.kind()
                    == ShredType::Data && shred.headers == data[k].headers && shred.data()
                    == data[k].data() && data[k].same_but_proof(shred))
            &&& forall|k: int|
                data.len() <= k < out.len() ==> ((#[trigger] out[k]) matches Ok(shred)
                    ==> shred.kind() == ShredType::Code)
        },
{
    let sorted = in_order(shreds);
    let (t, filled, batch, parsed, leaves) = lemma_recovery_steps(shreds);
    let n = t.num_shards();
    let m = t.num_data();
    let mask = mask_of(sorted, n);
    let data = recovered_data(batch, mask, m);
    let out = recovery_of(shreds)->Ok_0;
    lemma_batch(t, sorted);
    lemma_leaves_of(batch, mask, m);
    assert forall|i: int| 0 <= i < n && !mask[i] implies checked(
        #[trigger] batch[i],
        i as nat,
        m,
    ) == Ok::<_, Error>(parsed[i]) by {
        assert(parsed[i] == parsed[i]);
    }
    lemma_data_recovered_len(batch, parsed, mask, leaves, m, m);
    lemma_recovered_prefix(parsed, mask, leaves, m, n);
    let front = recovered(parsed, mask, leaves, m);
    assert forall|k: int| 0 <= k < data.len() implies ((#[trigger] out[k]) matches Ok(shred)
        ==> shred.kind() == ShredType::Data && shred.headers == data[k].headers && shred.data()
        == data[k].data() && data[k].same_but_proof(shred)) by {
        assert(out[k] == front[k]);
        let i = lemma_data_recovered_item(batch, parsed, mask, leaves, m, m, k);
        assert(checked(batch[i as int], i, m) == Ok::<_, Error>(parsed[i as int]));
        if out[k] is Ok {
            lemma_proof_keeps_data(parsed[i as int], proof_path(leaves, i));
        }
    }
    assert forall|k: int| data.len() <= k < out.len() implies ((#[trigger] out[k]) matches Ok(shred)
        ==> shred.kind() == ShredType::Code) by {
        let i = lemma_recovered_tail(parsed, mask, leaves, m, n, k);
        assert(checked(batch[i as int], i, m) == Ok::<_, Error>(parsed[i as int]));
    }
}

/// Results behind those of the first `m` positions are of later positions.
proof fn lemma_recovered_tail(
    batch: Seq<ShredView>,
    mask: Seq<bool>,
    leaves: Seq<Seq<u8>>,
    m: nat,
    n: nat,
    k: int,
) -> (i: nat)
    requires
        m <= n,
        recovered(batch, mask, leaves, m).len() <= k < recovered(batch, mask, leaves, n).len(),
    ensures
        m <= i < n,
        !mask[i as int],
        recovered(batch, mask, leaves, n)[k] == with_proof(batch[i as int], proof_path(leaves, i)),
    decreases n,
{
    let before = recovered(batch, mask, leaves, (n - 1) as nat);
    if k < before.len() {
        lemma_recovered_tail(batch, mask, leaves, m, (n - 1) as nat, k)
    } else {
        (n - 1) as nat
    }
}

/// Two sorted lists of the same shreds are the same, if no two different shreds go by one index.
proof fn lemma_sorted_unique(x: Seq<ShredView>, y: Seq<ShredView>)
    requires
        x.to_multiset() == y.to_multiset(),
        forall|i: int, j: int|
            0 <= i < j < x.len() ==> not_after(#[trigger] x[i], #[trigger] x[j]),
        forall|i: int, j: int|
            0 <= i < j < y.len() ==> not_after(#[trigger] y[i], #[trigger] y[j]),
        forall|i: int, j: int|
            0 <= i < x.len() && 0 <= j < x.len() && #[trigger] x[i] != #[trigger] x[j] ==> !(
            not_after(x[i], x[j]) && not_after(x[j], x[i])),
    ensures
        x == y,
    decreases x.len(),
{
    broadcast use vstd::seq_lib::group_to_multiset_ensures;

    assert(x.len() == x.to_multiset().len());
    assert(y.len() == y.to_multiset().len());
    if x.len() > 0 {
        assert(y.contains(y.last()));
        assert(y.to_multiset().count(y.last()) > 0);
        assert(x.contains(y.last()));
        assert(x.contains(x.last()));
        assert(x.to_multiset().count(x.last()) > 0);
        assert(y.contains(x.last()));
        let q = choose|q: int| 0 <= q < x.len() && x[q] == y.last();
        let p = choose|p: int| 0 <= p < y.len() && y[p] == x.last();
        assert(x[x.len() - 1] == x.last());
        assert(y[y.len() - 1] == y.last());
        assert(x.last() == y.last()) by {
            if x.last() != y.last() {
                assert(not_after(x[q], x[x.len() - 1]));
                assert(not_after(y[p], y[y.len() - 1]));
                assert(x[q] != x[x.len() - 1]);
            }
        }
        let a = x.drop_last();
        let b = y.drop_last();
        assert(x =~= a.push(x.last()));
        assert(y =~= b.push(y.last()));
        assert(a.to_multiset() =~= x.to_multiset().remove(x.last()));
        assert(b.to_multiset() =~= y.to_multiset().remove(y.last()));
        assert forall|i: int, j: int|
            0 <= i < a.len() && 0 <= j < a.len() && #[trigger] a[i] != #[trigger] a[j] implies !(
        not_after(a[i], a[j]) && not_after(a[j], a[i])) by {
            assert(x[i] == a[i] && x[j] == a[j]);
        }
        lemma_sorted_unique(a, b);
    }
}

/// The order in which shreds are given makes no difference, if no two different ones are of one type
/// and index.
pub proof fn given_order_is_irrelevant(shreds: Seq<ShredView>, other: Seq<ShredView>)
    requires
        shreds.to_multiset() == other.to_multiset(),
        forall|i: int, j: int|
            0 <= i < shreds.len() && 0 <= j < shreds.len() && #[trigger] shreds[i]
                != #[trigger] shreds[j] ==> shreds[i].kind() != shreds[j].kind()
                || shreds[i].common().index != shreds[j].common().index,
    ensures
        recovery_of(shreds) == recovery_of(other),
        data_recovery_of(shreds) == data_recovery_of(other),
{
    broadcast use vstd::seq_lib::group_to_multiset_ensures;

    let x = in_order(shreds);
    in_order_sorts(shreds);
    in_order_sorts(other);
    assert forall|i: int, j: int|
        0 <= i < x.len() && 0 <= j < x.len() && #[trigger] x[i] != #[trigger] x[j] implies !(
    not_after(x[i], x[j]) && not_after(x[j], x[i])) by {
        assert(x.contains(x[i]) && x.contains(x[j]));
        assert(x.to_multiset().count(x[i]) > 0);
        assert(x.to_multiset().count(x[j]) > 0);
        assert(shreds.contains(x[i]) && shreds.contains(x[j]));
        let p = choose|p: int| 0 <= p < shreds.len() && shreds[p] == x[i];
        let q = choose|q: int| 0 <= q < shreds.len() && shreds[q] == x[j];
        assert(shreds[p] != shreds[q]);
    }
    lemma_sorted_unique(x, in_order(other));
}

pub(crate) proof fn lemma_padded_ok(t: TemplateView, batch: Seq<ShredView>, end: nat)
    requires
        forall|i: nat| i < end ==> (#[trigger] stub_of(t, i)) is Ok,
    ensures
        padded(t, batch, end) is Ok,
    decreases end - batch.len(),
{
    if batch.len() < end {
        assert(stub_of(t, batch.len()) is Ok);
        lemma_padded_ok(t, batch.push(stub_of(t, batch.len())->Ok_0), end);
    }
}

} // verus!
