//! Recovery of the data alone does not look at Merkle proofs.
use crate::error::Error;
use crate::model::ShredView;
use crate::recover::{
    batch_of, data_recovery_of, has_position, in_order, inserted, mask_of, not_after, padded,
    placed, rebuilt, recovered_data, shards_in, stub_of, template_of, TemplateView,
};
use crate::recover_laws::lemma_batch;
use vstd::prelude::*;

verus! {

/// Whether the shreds differ, one by one, at most in the bytes of their Merkle proofs.
pub open spec fn same_but_proofs(shreds: Seq<ShredView>, other: Seq<ShredView>) -> bool {
    &&& shreds.len() == other.len()
    &&& forall|i: int|
        0 <= i < shreds.len() ==> (#[trigger] shreds[i]).same_but_proof(other[i])
}

/// What of a shred does not depend on its proof.
proof fn lemma_same_parts(a: ShredView, b: ShredView)
    requires
        a.same_but_proof(b),
    ensures
        a.kind() == b.kind(),
        a.common() == b.common(),
        a.erasure_shard_index() == b.erasure_shard_index(),
        a.erasure_shard() == b.erasure_shard(),
        a.chained_merkle_root() == b.chained_merkle_root(),
        a.retransmitter_signature() == b.retransmitter_signature(),
        template_of(a) == template_of(b),
{
    if a.erasure_shard() is Ok {
        assert(a.erasure_shard()->Ok_0 =~= b.erasure_shard()->Ok_0);
    }
    if a.chained_merkle_root() is Ok {
        assert(a.chained_merkle_root()->Ok_0 =~= b.chained_merkle_root()->Ok_0);
    }
    if a.retransmitter_signature() is Ok {
        assert(a.retransmitter_signature()->Ok_0 =~= b.retransmitter_signature()->Ok_0);
    }
}

proof fn lemma_same_inserted(
    z: Seq<ShredView>,
    w: Seq<ShredView>,
    x: ShredView,
    y: ShredView,
)
    requires
        same_but_proofs(z, w),
        x.same_but_proof(y),
    ensures
        same_but_proofs(inserted(z, x), inserted(w, y)),
    decreases z.len(),
{
    lemma_same_parts(x, y);
    if z.len() > 0 {
        assert(z[z.len() - 1] == z.last());
        lemma_same_parts(z.last(), w.last());
        if !not_after(z.last(), x) {
            assert forall|i: int| 0 <= i < z.len() - 1 implies (
            #[trigger] z.drop_last()[i]).same_but_proof(w.drop_last()[i]) by {
                assert(z[i] == z.drop_last()[i]);
            }
            lemma_same_inserted(z.drop_last(), w.drop_last(), x, y);
        }
    }
}

proof fn lemma_same_in_order(a: Seq<ShredView>, b: Seq<ShredView>)
    requires
        same_but_proofs(a, b),
    ensures
        same_but_proofs(in_order(a), in_order(b)),
    decreases a.len(),
{
    if a.len() > 0 {
        assert forall|i: int| 0 <= i < a.len() - 1 implies (
        #[trigger] a.drop_last()[i]).same_but_proof(b.drop_last()[i]) by {
            assert(a[i] == a.drop_last()[i]);
        }
        lemma_same_in_order(a.drop_last(), b.drop_last());
        assert(a[a.len() - 1] == a.last());
        lemma_same_inserted(in_order(a.drop_last()), in_order(b.drop_last()), a.last(), b.last());
    }
}

/// Whether two results are the same error, or shreds that differ at most in their proofs.
spec fn same_results(
    a: Result<Seq<ShredView>, Error>,
    b: Result<Seq<ShredView>, Error>,
) -> bool {
    match (a, b) {
        (Ok(a), Ok(b)) => same_but_proofs(a, b),
        (Err(e), Err(f)) => e == f,
        _ => false,
    }
}

proof fn lemma_same_padded(t: TemplateView, a: Seq<ShredView>, b: Seq<ShredView>, end: nat)
    requires
        same_but_proofs(a, b),
    ensures
        same_results(padded(t, a, end), padded(t, b, end)),
    decreases end - a.len(),
{
    if a.len() < end && stub_of(t, a.len()) is Ok {
        let stub = stub_of(t, a.len())->Ok_0;
        lemma_same_padded(t, a.push(stub), b.push(stub), end);
    }
}

proof fn lemma_same_placed(t: TemplateView, a: Seq<ShredView>, b: Seq<ShredView>)
    requires
        same_but_proofs(a, b),
    ensures
        same_results(placed(t, a), placed(t, b)),
    decreases a.len(),
{
    if a.len() > 0 {
        assert forall|i: int| 0 <= i < a.len() - 1 implies (
        #[trigger] a.drop_last()[i]).same_but_proof(b.drop_last()[i]) by {
            assert(a[i] == a.drop_last()[i]);
        }
        lemma_same_placed(t, a.drop_last(), b.drop_last());
        assert(a[a.len() - 1] == a.last());
        lemma_same_parts(a.last(), b.last());
        if let (Ok(z), Ok(w), Ok(index)) = (
            placed(t, a.drop_last()),
            placed(t, b.drop_last()),
            a.last().erasure_shard_index(),
        ) {
            lemma_same_padded(t, z, w, index as nat);
        }
    }
}

proof fn lemma_same_mask(a: Seq<ShredView>, b: Seq<ShredView>, n: nat)
    requires
        same_but_proofs(a, b),
    ensures
        mask_of(a, n) == mask_of(b, n),
{
    assert forall|i: int| 0 <= i < n implies #[trigger] mask_of(a, n)[i] == mask_of(b, n)[i] by {
        assert forall|j: int| 0 <= j < a.len() implies (#[trigger] a[j]).erasure_shard_index()
            == b[j].erasure_shard_index() by {
            lemma_same_parts(a[j], b[j]);
        }
        if has_position(a, i) {
            let j = choose|j: int|
                0 <= j < a.len() && (#[trigger] a[j]).erasure_shard_index() == Ok::<_, Error>(
                    i as usize,
                );
            assert(b[j].erasure_shard_index() == Ok::<_, Error>(i as usize));
        }
        if has_position(b, i) {
            let j = choose|j: int|
                0 <= j < b.len() && (#[trigger] b[j]).erasure_shard_index() == Ok::<_, Error>(
                    i as usize,
                );
            assert(a[j].erasure_shard_index() == Ok::<_, Error>(i as usize));
        }
    }
    assert(mask_of(a, n) =~= mask_of(b, n));
}

proof fn lemma_same_shards(a: Seq<ShredView>, b: Seq<ShredView>, mask: Seq<bool>)
    requires
        same_but_proofs(a, b),
    ensures
        shards_in(a, mask) == shards_in(b, mask),
    decreases a.len(),
{
    if a.len() > 0 {
        assert forall|i: int| 0 <= i < a.len() - 1 implies (
        #[trigger] a.drop_last()[i]).same_but_proof(b.drop_last()[i]) by {
            assert(a[i] == a.drop_last()[i]);
        }
        lemma_same_shards(a.drop_last(), b.drop_last(), mask);
        assert(a[a.len() - 1] == a.last());
        lemma_same_parts(a.last(), b.last());
    }
}

proof fn lemma_same_data(a: Seq<ShredView>, b: Seq<ShredView>, mask: Seq<bool>, n: nat)
    requires
        forall|i: int| 0 <= i < n && !mask[i] ==> #[trigger] a[i] == b[i],
    ensures
        recovered_data(a, mask, n) == recovered_data(b, mask, n),
    decreases n,
{
    if n > 0 {
        lemma_same_data(a, b, mask, (n - 1) as nat);
        assert(mask[n - 1] || a[n - 1] == b[n - 1]);
    }
}

/// A batch that is rebuilt from the same shreds but for their proofs has the same missing shreds.
proof fn lemma_same_rebuilt(t: TemplateView, a: Seq<ShredView>, b: Seq<ShredView>)
    requires
        same_but_proofs(a, b),
    ensures
        ({
            let mask = mask_of(a, t.num_shards());
            match (batch_of(t, a), batch_of(t, b)) {
                (Ok(z), Ok(w)) => match (rebuilt(t, z, mask), rebuilt(t, w, mask)) {
                    (Ok(x), Ok(y)) => recovered_data(x, mask, t.num_data()) == recovered_data(
                        y,
                        mask,
                        t.num_data(),
                    ),
                    (Err(e), Err(f)) => e == f,
                    _ => false,
                },
                (Err(e), Err(f)) => e == f,
                _ => false,
            }
        }),
{
    let mask = mask_of(a, t.num_shards());
    lemma_same_placed(t, a, b);
    lemma_same_mask(a, b, t.num_shards());
    if let (Ok(z), Ok(w)) = (placed(t, a), placed(t, b)) {
        lemma_same_padded(t, z, w, t.num_shards());
    }
    if let (Ok(z), Ok(w)) = (batch_of(t, a), batch_of(t, b)) {
        lemma_same_shards(z, w, mask);
        lemma_batch(t, a);
        lemma_batch(t, b);
        if let (Ok(x), Ok(y)) = (rebuilt(t, z, mask), rebuilt(t, w, mask)) {
            assert forall|i: int| 0 <= i < t.num_data() && !mask[i] implies #[trigger] x[i]
                == y[i] by {
                assert(!has_position(a, i));
                assert(mask_of(b, t.num_shards())[i] == mask[i]);
                assert(!has_position(b, i));
                assert(stub_of(t, i as nat) == Ok::<_, Error>(z[i]));
                assert(stub_of(t, i as nat) == Ok::<_, Error>(w[i]));
            }
            lemma_same_data(x, y, mask, t.num_data());
        }
    }
}

/// Recovery of the data alone gives the same whatever the Merkle proofs of the given shreds are.
pub proof fn proofs_do_not_matter_to_data_recovery(
    shreds: Seq<ShredView>,
    other: Seq<ShredView>,
)
    requires
        same_but_proofs(shreds, other),
    ensures
        data_recovery_of(shreds) == data_recovery_of(other),
{
    let a = in_order(shreds);
    let b = in_order(other);
    lemma_same_in_order(shreds, other);
    if a.len() > 0 {
        assert(a[a.len() - 1] == a.last());
        lemma_same_parts(a.last(), b.last());
        if let Ok(t) = template_of(a.last()) {
            lemma_same_mask(a, b, t.num_shards());
            lemma_same_rebuilt(t, a, b);
        }
    }
}

} // verus!
