//! The steps that recovery goes through, each by what it does to one shred more.
use crate::error::{ErasureError, Error, ShredHeaders};
use crate::merkle_tree::tree_root;
use crate::model::ShredView;
use crate::recover::{
    batch_of, checked, data_recovery_of, in_order, inserted, leaves_of, lemma_shards_in, mask_of,
    not_after, padded, placed, rebuilt, recovered, recovered_data, recovery_of, shards_in, stub_of,
    template_of, with_shard, TemplateView,
};
use crate::reed_solomon::{codec_for, reconstruct_result, reconstructed};
use vstd::prelude::*;

verus! {

/// A shred goes behind all shreds that may stand before it, so shreds that may change places keep their
/// order.
pub proof fn shreds_are_sorted_one_by_one(shreds: Seq<ShredView>, shred: ShredView)
    ensures
        in_order(Seq::empty()) == Seq::<ShredView>::empty(),
        in_order(shreds.push(shred)) == inserted(in_order(shreds), shred),
        inserted(Seq::empty(), shred) == seq![shred],
        shreds.len() > 0 && not_after(shreds.last(), shred) ==> inserted(shreds, shred) == shreds.push(
            shred,
        ),
        shreds.len() > 0 && !not_after(shreds.last(), shred) ==> inserted(shreds, shred) == inserted(
            shreds.drop_last(),
            shred,
        ).push(shreds.last()),
{
    assert(shreds.push(shred).drop_last() =~= shreds);
    assert(inserted(Seq::empty(), shred) =~= seq![shred]);
}

/// One shred more is placed behind the others if it has the signature of the batch and a position that
/// is left; the positions in between get what is known beforehand.
pub proof fn shreds_are_placed_one_by_one(t: TemplateView, shreds: Seq<ShredView>, shred: ShredView)
    ensures
        placed(t, Seq::empty()) == Ok::<_, Error>(Seq::<ShredView>::empty()),
        placed(t, shreds) is Err ==> placed(t, shreds.push(shred)) == placed(t, shreds),
        placed(t, shreds) matches Ok(batch) ==> {
            let same = match shred.headers {
                ShredHeaders::Data(header, _) => header.signature == t.common_header.signature,
                ShredHeaders::Code(header, _) => header.signature == t.common_header.signature,
            };
            let n = t.coding_header.num_data_shreds + t.coding_header.num_coding_shreds;
            let all = placed(t, shreds.push(shred));
            &&& !same ==> all == Err::<Seq<ShredView>, _>(Error::InvalidMerkleRoot)
            &&& same && shred.erasure_shard_index() is Err ==> all == Err::<Seq<ShredView>, _>(
                shred.erasure_shard_index()->Err_0,
            )
            &&& same ==> (shred.erasure_shard_index() matches Ok(index) ==> {
                &&& index < batch.len() || index >= n ==> all == Err::<Seq<ShredView>, _>(
                    Error::Erasure(ErasureError::InvalidIndex),
                )
                &&& batch.len() <= index < n ==> all == match padded(t, batch, index as nat) {
                    Ok(front) => Ok(front.push(shred)),
                    Err(e) => Err(e),
                }
            })
        },
{
    assert(shreds.push(shred).drop_last() =~= shreds);
}

/// Positions where no shred was given get what is known beforehand, up to the last one of the batch.
pub proof fn free_positions_are_filled(t: TemplateView, batch: Seq<ShredView>, end: nat)
    ensures
        batch.len() >= end ==> padded(t, batch, end) == Ok::<_, Error>(batch),
        batch.len() < end ==> match stub_of(t, batch.len()) {
            Ok(stub) => padded(t, batch, end) == padded(t, batch.push(stub), end),
            Err(e) => padded(t, batch, end) == Err::<Seq<ShredView>, _>(e),
        },
        batch_of(t, batch) == match placed(t, batch) {
            Ok(front) => padded(
                t,
                front,
                (t.coding_header.num_data_shreds + t.coding_header.num_coding_shreds) as nat,
            ),
            Err(e) => Err(e),
        },
{
}

/// The erasure code gets the coded parts of all shreds, and what it computes goes to the missing ones.
pub proof fn missing_shreds_are_rebuilt(t: TemplateView, batch: Seq<ShredView>, mask: Seq<bool>)
    ensures
        ({
            let data = t.coding_header.num_data_shreds as usize;
            let coding = t.coding_header.num_coding_shreds as usize;
            &&& shards_in(batch, mask) is Err ==> rebuilt(t, batch, mask) == Err::<Seq<ShredView>, _>(
                shards_in(batch, mask)->Err_0,
            )
            &&& shards_in(batch, mask) matches Ok(shards) ==> {
                &&& shards.len() == batch.len()
                &&& forall|i: int|
                    0 <= i < batch.len() ==> (#[trigger] batch[i]).erasure_shard() == Ok::<_, Error>(
                        shards[i].0,
                    ) && shards[i].1 == mask[i]
                &&& match (codec_for(data, coding), reconstruct_result(data, coding, shards)) {
                    (Err(e), _) => rebuilt(t, batch, mask) == Err::<Seq<ShredView>, _>(
                        Error::Erasure(e),
                    ),
                    (Ok(_), Err(e)) => rebuilt(t, batch, mask) == Err::<Seq<ShredView>, _>(
                        Error::Erasure(e),
                    ),
                    (Ok(_), Ok(_)) => rebuilt(t, batch, mask) matches Ok(all) && all.len()
                        == batch.len() && forall|i: int|
                        0 <= i < batch.len() ==> #[trigger] all[i] == if mask[i] {
                            batch[i]
                        } else {
                            with_shard(batch[i], reconstructed(data, coding, shards)[i])
                        },
                }
            }
        }),
{
    if shards_in(batch, mask) is Ok {
        lemma_shards_in(batch, mask);
    }
}

/// Shards are taken from all shreds, or the first one that has none tells why.
pub proof fn shards_are_taken_one_by_one(batch: Seq<ShredView>, mask: Seq<bool>, shred: ShredView)
    ensures
        shards_in(Seq::empty(), mask) is Ok,
        shards_in(batch, mask) is Err ==> shards_in(batch.push(shred), mask) == shards_in(batch, mask),
        shards_in(batch, mask) is Ok && shred.erasure_shard() is Err ==> shards_in(
            batch.push(shred),
            mask,
        ) == Err::<Seq<(Seq<u8>, bool)>, _>(shred.erasure_shard()->Err_0),
        shards_in(batch, mask) is Ok && shred.erasure_shard() is Ok ==> shards_in(
            batch.push(shred),
            mask,
        ) is Ok,
{
    assert(batch.push(shred).drop_last() =~= batch);
}

/// A computed part goes where the coded part of the shred is, and nothing else changes.
pub proof fn computed_parts_go_to_their_place(shred: ShredView, shard: Seq<u8>)
    requires
        shred.erasure_shard() matches Ok(part) && part.len() == shard.len(),
    ensures
        with_shard(shred, shard).headers == shred.headers,
        with_shard(shred, shard).erasure_shard() == Ok::<_, Error>(shard),
        with_shard(shred, shard).payload.len() == shred.payload.len(),
        forall|k: int|
            0 <= k < shred.payload.len() && !(({
                let start = if shred.headers is Data {
                    64int
                } else {
                    89
                };
                start <= k < start + shard.len()
            })) ==> #[trigger] with_shard(shred, shard).payload[k] == shred.payload[k],
{
    assert(with_shard(shred, shard).erasure_shard()->Ok_0 =~= shard);
}

/// Missing shreds are checked, all are hashed, and the first that fails tells why.
pub proof fn shreds_are_hashed_one_by_one(
    batch: Seq<ShredView>,
    mask: Seq<bool>,
    num_data: nat,
    shred: ShredView,
)
    ensures
        leaves_of(Seq::empty(), mask, num_data) == Ok::<_, Error>(
            (Seq::<ShredView>::empty(), Seq::<Seq<u8>>::empty()),
        ),
        leaves_of(batch, mask, num_data) is Err ==> leaves_of(batch.push(shred), mask, num_data)
            == leaves_of(batch, mask, num_data),
        leaves_of(batch, mask, num_data) matches Ok((parsed, leaves)) ==> {
            let passed = if mask[batch.len() as int] {
                Ok(shred)
            } else {
                checked(shred, batch.len(), num_data)
            };
            let all = leaves_of(batch.push(shred), mask, num_data);
            &&& passed is Err ==> all == Err::<(Seq<ShredView>, Seq<Seq<u8>>), _>(passed->Err_0)
            &&& passed matches Ok(next) ==> match next.merkle_node() {
                Ok(node) => all == Ok::<_, Error>((parsed.push(next), leaves.push(node))),
                Err(e) => all == Err::<(Seq<ShredView>, Seq<Seq<u8>>), _>(e),
            }
        },
{
    assert(batch.push(shred).drop_last() =~= batch);
}

/// Recovery is these steps one after the other, and in the end the root of the tree must be the one that
/// the last given shred tells; without the tree, the data are taken as they are rebuilt.
pub proof fn recovery_goes_step_by_step(
    shreds: Seq<ShredView>,
    t: TemplateView,
    root: Seq<u8>,
    filled: Seq<ShredView>,
    batch: Seq<ShredView>,
    parsed: Seq<ShredView>,
    leaves: Seq<Seq<u8>>,
)
    requires
        shreds.len() > 0,
        template_of(in_order(shreds).last()) == Ok::<_, Error>(t),
        batch_of(t, in_order(shreds)) == Ok::<_, Error>(filled),
        rebuilt(t, filled, mask_of(in_order(shreds), t.num_shards())) == Ok::<_, Error>(batch),
    ensures
        data_recovery_of(shreds) == Ok::<_, Error>(
            recovered_data(
                batch,
                mask_of(in_order(shreds), t.num_shards()),
                t.coding_header.num_data_shreds as nat,
            ),
        ),
        in_order(shreds).last().merkle_root() == Ok::<_, Error>(root) && leaves_of(
            batch,
            mask_of(in_order(shreds), t.num_shards()),
            t.coding_header.num_data_shreds as nat,
        ) == Ok::<_, Error>((parsed, leaves)) ==> recovery_of(shreds) == if tree_root(leaves) == root {
            Ok(
                recovered(
                    parsed,
                    mask_of(in_order(shreds), t.num_shards()),
                    leaves,
                    (t.coding_header.num_data_shreds + t.coding_header.num_coding_shreds) as nat,
                ),
            )
        } else {
            Err(Error::InvalidMerkleRoot)
        },
        in_order(shreds).last().merkle_root() is Err ==> recovery_of(shreds) == Err::<
            Seq<Result<ShredView, Error>>,
            _,
        >(in_order(shreds).last().merkle_root()->Err_0),
        t.num_shards() == t.coding_header.num_data_shreds + t.coding_header.num_coding_shreds,
{
    lemma_some_in_order(shreds);
}

/// Sorting keeps all shreds.
proof fn lemma_some_in_order(shreds: Seq<ShredView>)
    ensures
        in_order(shreds).len() == shreds.len(),
{
    broadcast use vstd::seq_lib::group_to_multiset_ensures;

    crate::recover::in_order_sorts(shreds);
    assert(in_order(shreds).len() == in_order(shreds).to_multiset().len());
    assert(shreds.len() == shreds.to_multiset().len());
}

/// Where a step of recovery fails, recovery fails with its error.
pub proof fn failing_steps_fail(shreds: Seq<ShredView>, t: TemplateView, filled: Seq<ShredView>)
    requires
        shreds.len() > 0,
    ensures
        template_of(in_order(shreds).last()) is Err ==> {
            let e = template_of(in_order(shreds).last())->Err_0;
            &&& recovery_of(shreds) == Err::<Seq<Result<ShredView, Error>>, _>(e)
            &&& data_recovery_of(shreds) == Err::<Seq<ShredView>, _>(e)
        },
        template_of(in_order(shreds).last()) == Ok::<_, Error>(t) && batch_of(t, in_order(shreds))
            is Err ==> {
            let e = batch_of(t, in_order(shreds))->Err_0;
            &&& in_order(shreds).last().merkle_root() is Ok ==> recovery_of(shreds) == Err::<
                Seq<Result<ShredView, Error>>,
                _,
            >(e)
            &&& data_recovery_of(shreds) == Err::<Seq<ShredView>, _>(e)
        },
        template_of(in_order(shreds).last()) == Ok::<_, Error>(t) && batch_of(t, in_order(shreds))
            == Ok::<_, Error>(filled) && rebuilt(
            t,
            filled,
            mask_of(in_order(shreds), t.num_shards()),
        ) is Err ==> {
            let e = rebuilt(t, filled, mask_of(in_order(shreds), t.num_shards()))->Err_0;
            &&& in_order(shreds).last().merkle_root() is Ok ==> recovery_of(shreds) == Err::<
                Seq<Result<ShredView, Error>>,
                _,
            >(e)
            &&& data_recovery_of(shreds) == Err::<Seq<ShredView>, _>(e)
        },
{
    lemma_some_in_order(shreds);
}

} // verus!
