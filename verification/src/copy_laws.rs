//! Recovery refuses a shred that is given twice.
use crate::error::{ErasureError, Error};
use crate::geometry::payload_size;
use crate::merkle_tree::{climb, joined};
use crate::model::{node_of, proof_of, ShredView};
use crate::recover::{
    bare_stub, batch_of, has_position, in_order, in_order_sorts, inserted, lemma_placed_prefix,
    lemma_shards_in, mask_of, not_after, placed, rebuilt, recovery_of, shards_in, stub_of,
    template_of, TemplateView,
};
use crate::recover_laws::{
    lemma_batch, lemma_padded_ok, lemma_placed, lemma_recovery_steps, position_of,
};
use crate::reed_solomon::present_len;
use crate::shred_type::ShredType;
use vstd::prelude::*;

verus! {

/// Sorting one shred more gives the others in the same order as before.
proof fn lemma_inserted_around(z: Seq<ShredView>, q: int, s: ShredView, y: ShredView) -> (r: int)
    requires
        0 <= q <= z.len(),
        forall|i: int, j: int|
            0 <= i < j <= z.len() ==> not_after(
                #[trigger] z.insert(q, s)[i],
                #[trigger] z.insert(q, s)[j],
            ),
    ensures
        0 <= r <= inserted(z, y).len(),
        inserted(z.insert(q, s), y) == inserted(z, y).insert(r, s),
    decreases z.len(),
{
    let w = z.insert(q, s);
    if q == z.len() {
        assert(w.last() == s);
        assert(w.drop_last() =~= z);
        if not_after(s, y) {
            if z.len() > 0 {
                assert(w[z.len() - 1] == z.last());
                assert(not_after(w[z.len() - 1], w[z.len() as int]));
            }
            assert(w.push(y) =~= z.push(y).insert(q, s));
            q
        } else {
            lemma_inserted_len(z, y);
            assert(inserted(z, y).push(s) =~= inserted(z, y).insert(
                inserted(z, y).len() as int,
                s,
            ));
            inserted(z, y).len() as int
        }
    } else {
        assert(w.last() == z.last());
        if not_after(z.last(), y) {
            assert(w.push(y) =~= z.push(y).insert(q, s));
            q
        } else {
            let front = z.drop_last();
            assert(w.drop_last() =~= front.insert(q, s));
            assert forall|i: int, j: int| 0 <= i < j <= front.len() implies not_after(
                #[trigger] front.insert(q, s)[i],
                #[trigger] front.insert(q, s)[j],
            ) by {
                assert(front.insert(q, s)[i] == w[i] && front.insert(q, s)[j] == w[j]);
            }
            let r = lemma_inserted_around(front, q, s, y);
            assert(inserted(front, y).insert(r, s).push(z.last()) =~= inserted(front, y).push(
                z.last(),
            ).insert(r, s));
            r
        }
    }
}

proof fn lemma_inserted_len(z: Seq<ShredView>, y: ShredView)
    ensures
        inserted(z, y).len() == z.len() + 1,
    decreases z.len(),
{
    if z.len() > 0 && !not_after(z.last(), y) {
        lemma_inserted_len(z.drop_last(), y);
    }
}

/// A shred is inserted somewhere.
proof fn lemma_inserted_at(z: Seq<ShredView>, y: ShredView) -> (r: int)
    ensures
        0 <= r <= z.len(),
        inserted(z, y) == z.insert(r, y),
    decreases z.len(),
{
    if z.len() == 0 || not_after(z.last(), y) {
        assert(z.push(y) =~= z.insert(z.len() as int, y));
        z.len() as int
    } else {
        let r = lemma_inserted_at(z.drop_last(), y);
        assert(z.drop_last().insert(r, y).push(z.last()) =~= z.insert(r, y));
        r
    }
}

/// Where one shred more is among the sorted ones.
proof fn lemma_in_order_with(shreds: Seq<ShredView>, p: int, s: ShredView) -> (q: int)
    requires
        0 <= p <= shreds.len(),
    ensures
        0 <= q <= in_order(shreds).len(),
        in_order(shreds.insert(p, s)) == in_order(shreds).insert(q, s),
    decreases shreds.len(),
{
    let more = shreds.insert(p, s);
    if p == shreds.len() {
        assert(more.drop_last() =~= shreds);
        assert(more.last() == s);
        lemma_inserted_at(in_order(shreds), s)
    } else {
        let rest = shreds.drop_last();
        let y = shreds.last();
        assert(more.last() == y);
        assert(more.drop_last() =~= rest.insert(p, s));
        let q = lemma_in_order_with(rest, p, s);
        in_order_sorts(rest.insert(p, s));
        lemma_inserted_around(in_order(rest), q, s, y)
    }
}

/// The stubs of a batch whose proof size fits the variant byte can be made.
proof fn lemma_stub_can_be_made(shred: ShredView, i: nat)
    requires
        template_of(shred) is Ok,
        shred.merkle_root() is Ok,
        shred.common().shred_variant.encodable(),
        i < template_of(shred)->Ok_0.num_shards(),
    ensures
        stub_of(template_of(shred)->Ok_0, i) is Ok,
{
    let t = template_of(shred)->Ok_0;
    let bare = bare_stub(t, i)->Ok_0;
    assert(bare_stub(t, i) is Ok);
    assert(bare.payload.len() == payload_size(bare.kind()));
    assert(bare.common().shred_variant.entries() == shred.common().shred_variant.entries());
    assert(bare.chained_merkle_root() is Ok);
}

/// A shred that goes behind placed shreds, and no further than they reach, cannot be placed.
proof fn lemma_placed_before(t: TemplateView, shreds: Seq<ShredView>, q: int)
    requires
        0 <= q < shreds.len(),
        placed(t, shreds.take(q)) is Ok,
        shreds[q].common().signature == t.common_header.signature,
        shreds[q].erasure_shard_index() is Ok,
        position_of(shreds[q]) < placed(t, shreds.take(q))->Ok_0.len(),
    ensures
        placed(t, shreds) == Err::<Seq<ShredView>, _>(Error::Erasure(ErasureError::InvalidIndex)),
{
    let next = shreds.take(q + 1);
    assert(next.drop_last() =~= shreds.take(q));
    assert(next.last() == shreds[q]);
    lemma_placed_prefix(t, shreds, q + 1);
}

/// A shred that goes behind placed shreds, with stubs between, is placed last.
proof fn lemma_placed_next(t: TemplateView, shreds: Seq<ShredView>, q: int)
    requires
        0 <= q < shreds.len(),
        placed(t, shreds.take(q)) is Ok,
        shreds[q].common().signature == t.common_header.signature,
        shreds[q].erasure_shard_index() is Ok,
        placed(t, shreds.take(q))->Ok_0.len() <= position_of(shreds[q]) < t.num_shards(),
        forall|i: nat| i < t.num_shards() ==> (#[trigger] stub_of(t, i)) is Ok,
    ensures
        placed(t, shreds.take(q + 1)) is Ok,
        placed(t, shreds.take(q + 1))->Ok_0.len() == position_of(shreds[q]) + 1,
{
    let next = shreds.take(q + 1);
    assert(next.drop_last() =~= shreds.take(q));
    assert(next.last() == shreds[q]);
    lemma_padded_ok(t, placed(t, shreds.take(q))->Ok_0, position_of(shreds[q]) as nat);
    lemma_placed(t, next);
}

/// Where shreds are placed, what comes before `q` reaches as far as the last of it.
proof fn lemma_placed_front(t: TemplateView, sorted: Seq<ShredView>, q: int)
    requires
        placed(t, sorted) is Ok,
        0 <= q <= sorted.len(),
    ensures
        placed(t, sorted.take(q)) is Ok,
        forall|j: int|
            0 <= j < q ==> position_of(#[trigger] sorted[j]) < placed(
                t,
                sorted.take(q),
            )->Ok_0.len(),
        forall|j: int|
            q <= j < sorted.len() ==> placed(t, sorted.take(q))->Ok_0.len() <= position_of(
                #[trigger] sorted[j],
            ),
        forall|j: int|
            0 <= j < sorted.len() ==> (#[trigger] sorted[j]).erasure_shard_index() is Ok
                && position_of(sorted[j]) < t.num_shards() && sorted[j].common().signature
                == t.common_header.signature,
{
    let front = sorted.take(q);
    if placed(t, front) is Err {
        lemma_placed_prefix(t, sorted, q);
    }
    lemma_placed(t, sorted);
    lemma_placed(t, front);
    if q > 0 {
        assert(front.last() == sorted[q - 1]);
        assert forall|j: int| 0 <= j < q implies position_of(#[trigger] sorted[j]) < placed(
            t,
            front,
        )->Ok_0.len() by {
            assert(front[j] == sorted[j]);
        }
    }
}

/// Placed shreds are in the order of their positions.
proof fn lemma_placed_in_order(t: TemplateView, sorted: Seq<ShredView>, i: int, j: int)
    requires
        placed(t, sorted) is Ok,
        0 <= i <= j < sorted.len(),
    ensures
        position_of(sorted[i]) <= position_of(sorted[j]),
{
    lemma_placed(t, sorted);
}

/// Shreds that are in order and one of which is there twice cannot be placed.
proof fn lemma_placed_twice(t: TemplateView, sorted: Seq<ShredView>, j: int, q: int)
    requires
        placed(t, sorted) is Ok,
        0 <= j < sorted.len(),
        0 <= q <= sorted.len(),
        forall|i: nat| i < t.num_shards() ==> (#[trigger] stub_of(t, i)) is Ok,
    ensures
        placed(t, sorted.insert(q, sorted[j])) == Err::<Seq<ShredView>, _>(
            Error::Erasure(ErasureError::InvalidIndex),
        ),
{
    let more = sorted.insert(q, sorted[j]);
    lemma_placed_front(t, sorted, q);
    assert(more.take(q) =~= sorted.take(q));
    assert(more[q] == sorted[j]);
    if j < q {
        lemma_placed_before(t, more, q);
    } else {
        lemma_placed_next(t, more, q);
        assert(more[q + 1] == sorted[q]);
        lemma_placed_in_order(t, sorted, q, j);
        lemma_placed_before(t, more, q + 1);
    }
}

/// Recovery fails as placing the shreds does.
proof fn lemma_refused(shreds: Seq<ShredView>, t: TemplateView)
    requires
        in_order(shreds).len() > 0,
        template_of(in_order(shreds).last()) == Ok::<_, Error>(t),
        in_order(shreds).last().merkle_root() is Ok,
        placed(t, in_order(shreds)) is Err,
    ensures
        recovery_of(shreds) == Err::<Seq<Result<ShredView, Error>>, _>(
            placed(t, in_order(shreds))->Err_0,
        ),
{
}

/// Shards that are present have one length.
proof fn lemma_present_lens(shards: Seq<(Seq<u8>, bool)>)
    requires
        present_len(shards) is Ok,
    ensures
        forall|i: int|
            0 <= i < shards.len() && (#[trigger] shards[i]).1 ==> present_len(shards)->Ok_0 == Some(
                shards[i].0.len(),
            ),
    decreases shards.len(),
{
    if shards.len() > 0 {
        let rest = shards.drop_last();
        lemma_present_lens(rest);
        assert forall|i: int| 0 <= i < shards.len() && (#[trigger] shards[i]).1 implies present_len(
            shards,
        )->Ok_0 == Some(shards[i].0.len()) by {
            if i < rest.len() {
                assert(rest[i] == shards[i]);
            }
        }
    }
}

/// The given shreds of a batch that can be rebuilt have erasure coded parts of one length.
proof fn lemma_given_lens(t: TemplateView, sorted: Seq<ShredView>, i: int, j: int)
    requires
        batch_of(t, sorted) is Ok,
        rebuilt(t, batch_of(t, sorted)->Ok_0, mask_of(sorted, t.num_shards())) is Ok,
        0 <= i < sorted.len(),
        0 <= j < sorted.len(),
    ensures
        sorted[i].erasure_shard() is Ok,
        sorted[j].erasure_shard() is Ok,
        sorted[i].erasure_shard()->Ok_0.len() == sorted[j].erasure_shard()->Ok_0.len(),
{
    let batch = batch_of(t, sorted)->Ok_0;
    let mask = mask_of(sorted, t.num_shards());
    lemma_batch(t, sorted);
    lemma_shards_in(batch, mask);
    lemma_present_lens(shards_in(batch, mask)->Ok_0);
    assert(batch[position_of(sorted[i])] == sorted[i]);
    assert(batch[position_of(sorted[j])] == sorted[j]);
    assert(has_position(sorted, position_of(sorted[i])));
    assert(has_position(sorted, position_of(sorted[j])));
    assert(mask[position_of(sorted[i])]);
    assert(mask[position_of(sorted[j])]);
}

/// Coding shreds whose erasure coded parts have one length have proofs of one size.
proof fn lemma_same_params(shred: ShredView, other: ShredView)
    requires
        shred.kind() == ShredType::Code,
        other.kind() == ShredType::Code,
        shred.erasure_shard() is Ok,
        other.erasure_shard() is Ok,
        shred.erasure_shard()->Ok_0.len() == other.erasure_shard()->Ok_0.len(),
    ensures
        shred.params() == other.params(),
        shred.proof_offset() == other.proof_offset(),
        shred.payload.len() == other.payload.len(),
        shred.common().shred_variant.entries() == other.common().shred_variant.entries(),
{
}

/// A proof that is long enough for an index is long enough for a smaller one.
proof fn lemma_climb_from_below(
    index: nat,
    node: Seq<u8>,
    branch: Seq<Seq<u8>>,
    larger: nat,
    other_node: Seq<u8>,
    other_branch: Seq<Seq<u8>>,
)
    requires
        index <= larger,
        branch.len() == other_branch.len(),
    ensures
        climb(index, node, branch).0 <= climb(larger, other_node, other_branch).0,
    decreases branch.len(),
{
    if branch.len() > 0 {
        let parent = if index % 2 == 0 {
            joined(node, branch[0])
        } else {
            joined(branch[0], node)
        };
        let other_parent = if larger % 2 == 0 {
            joined(other_node, other_branch[0])
        } else {
            joined(other_branch[0], other_node)
        };
        lemma_climb_from_below(
            index / 2,
            parent,
            branch.drop_first(),
            larger / 2,
            other_parent,
            other_branch.drop_first(),
        );
    }
}

/// A coding shred in front of one that has a root, with a proof of the same size, has a root.
proof fn lemma_root_before(shred: ShredView, other: ShredView)
    requires
        other.merkle_root() is Ok,
        shred.params() == other.params(),
        shred.proof_offset() == other.proof_offset(),
        shred.payload.len() == other.payload.len(),
        shred.erasure_shard_index() is Ok,
        position_of(shred) <= position_of(other),
    ensures
        shred.merkle_root() is Ok,
{
    let offset = shred.proof_offset()->Ok_0 as int;
    let proof_size = shred.params()->Ok_0.0;
    lemma_climb_from_below(
        position_of(shred) as nat,
        node_of(shred.payload, 64, offset)->Ok_0,
        proof_of(shred.payload, offset, proof_size)->Ok_0,
        position_of(other) as nat,
        node_of(other.payload, 64, offset)->Ok_0,
        proof_of(other.payload, offset, proof_size)->Ok_0,
    );
}

/// Shreds with the signature of the batch that have positions are placed, or one of them is in no
/// position that is left.
proof fn lemma_placed_or_not(t: TemplateView, shreds: Seq<ShredView>)
    requires
        forall|i: nat| i < t.num_shards() ==> (#[trigger] stub_of(t, i)) is Ok,
        forall|j: int|
            0 <= j < shreds.len() ==> (#[trigger] shreds[j]).erasure_shard_index() is Ok
                && shreds[j].common().signature == t.common_header.signature,
    ensures
        placed(t, shreds) is Err ==> placed(t, shreds)->Err_0 == Error::Erasure(
            ErasureError::InvalidIndex,
        ),
    decreases shreds.len(),
{
    if shreds.len() > 0 {
        let rest = shreds.drop_last();
        assert forall|j: int| 0 <= j < rest.len() implies (
        #[trigger] rest[j]).erasure_shard_index() is Ok && rest[j].common().signature
            == t.common_header.signature by {
            assert(rest[j] == shreds[j]);
        }
        lemma_placed_or_not(t, rest);
        assert(shreds[shreds.len() - 1] == shreds.last());
        if placed(t, rest) is Ok && position_of(shreds.last()) < t.num_shards() {
            lemma_padded_ok(t, placed(t, rest)->Ok_0, position_of(shreds.last()) as nat);
        }
    }
}

/// Shreds that have positions in a batch and a copy of one of them behind them cannot be placed,
/// whatever batch the copy tells of.
proof fn lemma_placed_with_last_copy(t: TemplateView, shreds: Seq<ShredView>, j: int)
    requires
        0 <= j < shreds.len(),
        forall|i: nat| i < t.num_shards() ==> (#[trigger] stub_of(t, i)) is Ok,
        forall|j: int|
            0 <= j < shreds.len() ==> (#[trigger] shreds[j]).erasure_shard_index() is Ok
                && shreds[j].common().signature == t.common_header.signature,
    ensures
        placed(t, shreds.push(shreds[j])) == Err::<Seq<ShredView>, _>(
            Error::Erasure(ErasureError::InvalidIndex),
        ),
{
    let more = shreds.push(shreds[j]);
    assert(more.drop_last() =~= shreds);
    assert(more.last() == shreds[j]);
    lemma_placed_or_not(t, shreds);
    if placed(t, shreds) is Ok {
        lemma_placed(t, shreds);
        assert(position_of(shreds[j]) < placed(t, shreds)->Ok_0.len());
    }
}

/// A copy that stands behind the last shred and so tells what the batch is.
proof fn lemma_last_copy_is_refused(shreds: Seq<ShredView>, more: Seq<ShredView>, j: int)
    requires
        recovery_of(shreds) is Ok,
        in_order(shreds).last().common().shred_variant.encodable(),
        0 <= j < in_order(shreds).len(),
        in_order(more) == in_order(shreds).push(in_order(shreds)[j]),
    ensures
        recovery_of(more) == Err::<Seq<Result<ShredView, Error>>, _>(
            Error::Erasure(ErasureError::InvalidIndex),
        ),
{
    let sorted = in_order(shreds);
    let s = sorted[j];
    let n = sorted.len() - 1;
    let (t, filled, batch, parsed, leaves) = lemma_recovery_steps(shreds);
    in_order_sorts(more);
    assert(in_order(more)[n] == sorted.last());
    assert(in_order(more)[n + 1] == s);
    assert(not_after(sorted.last(), s));
    assert(s.kind() == ShredType::Code);
    lemma_batch(t, sorted);
    lemma_given_lens(t, sorted, j, n);
    lemma_same_params(s, sorted.last());
    assert(position_of(s) <= position_of(sorted.last()));
    lemma_root_before(s, sorted.last());
    assert(template_of(s) is Ok);
    let u = template_of(s)->Ok_0;
    assert forall|k: nat| k < u.num_shards() implies (#[trigger] stub_of(u, k)) is Ok by {
        lemma_stub_can_be_made(s, k);
    }
    assert(u.common_header.signature == s.common().signature);
    lemma_placed_with_last_copy(u, sorted, j);
    lemma_refused(more, u);
}

/// Where recovery succeeds, it fails with a second copy of one of the shreds, given in any place.
pub proof fn second_copy_is_refused(shreds: Seq<ShredView>, i: int, p: int)
    requires
        recovery_of(shreds) is Ok,
        in_order(shreds).last().common().shred_variant.encodable(),
        0 <= i < shreds.len(),
        0 <= p <= shreds.len(),
    ensures
        recovery_of(shreds.insert(p, shreds[i])) == Err::<Seq<Result<ShredView, Error>>, _>(
            Error::Erasure(ErasureError::InvalidIndex),
        ),
{
    broadcast use vstd::seq_lib::group_to_multiset_ensures;

    let s = shreds[i];
    let sorted = in_order(shreds);
    let (t, filled, batch, parsed, leaves) = lemma_recovery_steps(shreds);
    in_order_sorts(shreds);
    assert(shreds.contains(s));
    assert(shreds.to_multiset().count(s) > 0);
    assert(sorted.contains(s));
    let j = choose|j: int| 0 <= j < sorted.len() && sorted[j] == s;
    let q = lemma_in_order_with(shreds, p, s);
    if q == sorted.len() {
        assert(sorted.insert(q, s) =~= sorted.push(s));
        lemma_last_copy_is_refused(shreds, shreds.insert(p, s), j);
    } else {
        assert(sorted.insert(q, s).last() == sorted.last());
        assert forall|k: nat| k < t.num_shards() implies (#[trigger] stub_of(t, k)) is Ok by {
            lemma_stub_can_be_made(sorted.last(), k);
        }
        lemma_placed_twice(t, sorted, j, q);
        lemma_refused(shreds.insert(p, s), t);
    }
}

} // verus!
