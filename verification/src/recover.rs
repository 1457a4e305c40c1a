//! Recovery of the missing shreds of an erasure batch from the others.
use crate::{Digest, Signature};
use crate::batch_laws::{
    are_enough_of, is_leaders_batch, is_lost_data, lemma_data_is_lost, lemma_is_enough,
    lemma_missing_is_lost, lost_of, num_data_of,
};
use crate::bytes_util::{bytes_eq, splice, write_at};
use crate::error::{ErasureError, Error, ShredHeaders};
use crate::flags::ShredFlags;
use crate::geometry::shard_start;
use crate::header::{
    coding_headers_bytes, data_headers_of, deserialize_data_headers, serialize_coding_headers_into,
    CodingShredHeader, DataShredHeader, ShredCommonHeader,
};
use crate::merkle::{write_proof_result, written_proof};
use crate::merkle_tree::{
    all_digests, lemma_tree_size, made_proof_leads_to_root, proof_path, root_is_last_node,
    tree_nodes, tree_root, MerkleTree,
};
use crate::model::ShredView;
use crate::payload::Payload;
use crate::reed_solomon::{
    agrees, codec_for, encodes, reconstruct, reconstruct_result, reconstructed, shards_of,
    ReedSolomonCache,
};
use crate::restore::{
    are_missing_data, data_recovery_gives_back_lost_data, enough_of, is_whole_batch,
    lemma_given_template, missing_of, recovery_gives_back_lost_shreds,
};
use crate::shred::{shred_or_error, Shred};
use crate::shred_code::ShredCode;
use crate::shred_data::ShredData;
use crate::shred_type::{ShredType, ShredVariant};
use std::cmp::Ordering;
use vstd::prelude::*;
use vstd::slice::slice_to_vec;

verus! {

/// The headers and bytes of shreds.
pub open spec fn views(shreds: Seq<Shred>) -> Seq<ShredView> {
    shreds.map_values(|shred: Shred| shred@)
}

/// Whether `shred` may stand before `other`: data shreds come before coding shreds, and shreds of
/// one type go by their index.
pub open spec fn not_after(shred: ShredView, other: ShredView) -> bool {
    match (shred.kind(), other.kind()) {
        (ShredType::Code, ShredType::Data) => false,
        (ShredType::Data, ShredType::Code) => true,
        _ => shred.common().index <= other.common().index,
    }
}

/// `sorted` with `shred` behind all that may stand before it.
pub open spec fn inserted(sorted: Seq<ShredView>, shred: ShredView) -> Seq<ShredView>
    decreases sorted.len(),
{
    if sorted.len() == 0 || not_after(sorted.last(), shred) {
        sorted.push(shred)
    } else {
        inserted(sorted.drop_last(), shred).push(sorted.last())
    }
}

/// The shreds in the order of their positions in the batch; those that go by one index keep their
/// order.
pub open spec fn in_order(shreds: Seq<ShredView>) -> Seq<ShredView>
    decreases shreds.len(),
{
    if shreds.len() == 0 {
        shreds
    } else {
        inserted(in_order(shreds.drop_last()), shreds.last())
    }
}

/// Compares shreds by type, data first, and then by index.
pub fn cmp_shred_erasure_shard_index(shred: &Shred, other: &Shred) -> (order: Ordering)
    ensures
        (order is Greater) == !not_after(shred@, other@),
        (order is Less) == !not_after(other@, shred@),
{
    match (shred, other) {
        (Shred::ShredCode(_), Shred::ShredData(_)) => Ordering::Greater,
        (Shred::ShredData(_), Shred::ShredCode(_)) => Ordering::Less,
        _ => if shred.index() < other.index() {
            Ordering::Less
        } else if shred.index() == other.index() {
            Ordering::Equal
        } else {
            Ordering::Greater
        },
    }
}

/// Whether `shred` must not stand before `other`.
fn comes_after(shred: &Shred, other: &Shred) -> (after: bool)
    ensures
        after == !not_after(shred@, other@),
{
    matches!(cmp_shred_erasure_shard_index(shred, other), Ordering::Greater)
}

/// Sorts shreds by their positions in the batch.
pub fn sort_shreds(shreds: Vec<Shred>) -> (sorted: Vec<Shred>)
    ensures
        views(sorted@) == in_order(views(shreds@)),
{
    let ghost all = shreds@;
    let mut sorted: Vec<Shred> = Vec::new();
    assert(views(sorted@) =~= in_order(views(all.take(0))));
    for shred in iter: shreds
        invariant
            iter.seq() == all,
            sorted.len() == iter.index(),
            views(sorted@) == in_order(views(all.take(iter.index() as int))),
    {
        let ghost n = iter.index() as int;
        let ghost before = views(sorted@);
        proof {
            assert(views(all.take(n + 1)).drop_last() =~= views(all.take(n)));
            assert(views(all.take(n + 1)).last() == shred@);
        }
        let mut k: usize = sorted.len();
        assert(before.take(k as int) =~= before);
        assert(inserted(before, shred@) =~= inserted(before.take(k as int), shred@) + before.skip(
            k as int,
        ));
        while k > 0 && comes_after(&sorted[k - 1], &shred)
            invariant
                k <= sorted.len(),
                before == views(sorted@),
                inserted(before, shred@) == inserted(before.take(k as int), shred@) + before.skip(
                    k as int,
                ),
            decreases k,
        {
            proof {
                let part = before.take(k as int);
                assert(part.last() == before[k - 1]);
                assert(part.drop_last() =~= before.take(k - 1));
                assert(inserted(before.take(k - 1), shred@).push(before[k - 1]) + before.skip(
                    k as int,
                ) =~= inserted(before.take(k - 1), shred@) + before.skip(k - 1));
            }
            k -= 1;
        }
        proof {
            let part = before.take(k as int);
            if k > 0 {
                assert(part.last() == before[k - 1]);
            }
            assert(inserted(part, shred@) == part.push(shred@));
        }
        let ghost item = shred@;
        sorted.insert(k, shred);
        assert(views(sorted@) =~= before.take(k as int).push(item) + before.skip(k as int));
    }
    assert(all.take(all.len() as int) =~= all);
    sorted
}

/// Sorting keeps the shreds, and leaves none behind one that it must not stand behind.
pub proof fn in_order_sorts(shreds: Seq<ShredView>)
    ensures
        in_order(shreds).to_multiset() == shreds.to_multiset(),
        forall|i: int, j: int|
            0 <= i < j < in_order(shreds).len() ==> not_after(
                #[trigger] in_order(shreds)[i],
                #[trigger] in_order(shreds)[j],
            ),
    decreases shreds.len(),
{
    broadcast use vstd::seq_lib::group_to_multiset_ensures;

    if shreds.len() > 0 {
        let rest = in_order(shreds.drop_last());
        in_order_sorts(shreds.drop_last());
        lemma_inserted(rest, shreds.last());
        assert(shreds =~= shreds.drop_last().push(shreds.last()));
    }
}

proof fn lemma_inserted(sorted: Seq<ShredView>, shred: ShredView)
    requires
        forall|i: int, j: int|
            0 <= i < j < sorted.len() ==> not_after(#[trigger] sorted[i], #[trigger] sorted[j]),
    ensures
        inserted(sorted, shred).to_multiset() == sorted.to_multiset().insert(shred),
        inserted(sorted, shred).len() == sorted.len() + 1,
        forall|i: int, j: int|
            0 <= i < j < inserted(sorted, shred).len() ==> not_after(
                #[trigger] inserted(sorted, shred)[i],
                #[trigger] inserted(sorted, shred)[j],
            ),
        forall|i: int|
            0 <= i < inserted(sorted, shred).len() ==> #[trigger] inserted(sorted, shred)[i]
                == shred || sorted.contains(inserted(sorted, shred)[i]),
    decreases sorted.len(),
{
    broadcast use vstd::seq_lib::group_to_multiset_ensures;

    if sorted.len() == 0 || not_after(sorted.last(), shred) {
        let all = sorted.push(shred);
        assert forall|i: int| 0 <= i < all.len() implies all[i] == shred || sorted.contains(
            all[i],
        ) by {
            if i < sorted.len() {
                assert(sorted[i] == all[i]);
            }
        }
    } else {
        let part = sorted.drop_last();
        let last = sorted.last();
        lemma_inserted(part, shred);
        let front = inserted(part, shred);
        assert(sorted =~= part.push(last));
        assert forall|i: int| 0 <= i < front.len() implies not_after(#[trigger] front[i], last) && (
        front[i] == shred || sorted.contains(front[i])) by {
            if front[i] != shred {
                let j = choose|j: int| 0 <= j < part.len() && part[j] == front[i];
                assert(sorted[j] == front[i]);
            }
        }
        assert(sorted[sorted.len() - 1] == last);
    }
}

/// What the recovered shreds of a batch have in common: the headers of the first coding shred, and
/// the Merkle root of the previous batch and the retransmitter's signature if there are any.
pub struct TemplateView {
    pub common_header: ShredCommonHeader,
    pub coding_header: CodingShredHeader,
    pub chained_merkle_root: Option<Seq<u8>>,
    pub retransmitter_signature: Option<Seq<u8>>,
}

/// What the recovered shreds of a batch have in common.
pub struct Template {
    pub common_header: ShredCommonHeader,
    pub coding_header: CodingShredHeader,
    pub chained_merkle_root: Option<Digest>,
    pub retransmitter_signature: Option<Signature>,
}

impl View for Template {
    type V = TemplateView;

    open spec fn view(&self) -> TemplateView {
        TemplateView {
            common_header: self.common_header,
            coding_header: self.coding_header,
            chained_merkle_root: match self.chained_merkle_root {
                Some(root) => Some(root@),
                None => None,
            },
            retransmitter_signature: match self.retransmitter_signature {
                Some(signature) => Some(signature@),
                None => None,
            },
        }
    }
}

impl TemplateView {
    pub open spec fn num_data(self) -> nat {
        self.coding_header.num_data_shreds as nat
    }

    pub open spec fn num_coding(self) -> nat {
        self.coding_header.num_coding_shreds as nat
    }

    /// The number of shreds of the batch.
    pub open spec fn num_shards(self) -> nat {
        self.num_data() + self.num_coding()
    }

    /// Whether the index of the shred in the given position, if there can be one, is a number of 32
    /// bits.
    pub open spec fn index_fits(self, erasure_shard_index: nat) -> bool {
        let position = erasure_shard_index - self.num_data();
        if position < 0 {
            self.common_header.shred_variant.kind() == ShredType::Code
                ==> self.common_header.fec_set_index + erasure_shard_index <= u32::MAX
        } else {
            position <= u16::MAX ==> self.common_header.index + position <= u32::MAX
        }
    }

    /// Whether the indices of all shreds of the batch are numbers of 32 bits.
    pub open spec fn indices_fit(self) -> bool {
        &&& self.common_header.index + self.num_coding() <= u32::MAX + 1
        &&& self.common_header.shred_variant.kind() == ShredType::Code
            ==> self.common_header.fec_set_index + self.num_data() <= u32::MAX + 1
    }
}

/// The template of the batch of a coding shred.
pub open spec fn template_of(shred: ShredView) -> Result<TemplateView, Error> {
    match shred.headers {
        ShredHeaders::Data(..) => Err(Error::Erasure(ErasureError::TooFewParityShards)),
        ShredHeaders::Code(common_header, coding_header) => if coding_header.position
            > common_header.index {
            Err(Error::Erasure(ErasureError::InvalidIndex))
        } else {
            Ok(
                TemplateView {
                    common_header: ShredCommonHeader {
                        index: (common_header.index - coding_header.position) as u32,
                        ..common_header
                    },
                    coding_header: CodingShredHeader { position: 0, ..coding_header },
                    chained_merkle_root: match shred.chained_merkle_root() {
                        Ok(root) => Some(root),
                        Err(_) => None,
                    },
                    retransmitter_signature: match shred.retransmitter_signature() {
                        Ok(signature) => Some(signature),
                        Err(_) => None,
                    },
                },
            )
        },
    }
}

/// `n` bytes zero.
pub open spec fn zeros(n: usize) -> Seq<u8> {
    Seq::new(n as nat, |i: int| 0u8)
}

/// The headers and the bytes known beforehand of the shred in the given position of a batch.
pub open spec fn bare_stub(t: TemplateView, erasure_shard_index: nat) -> Result<ShredView, Error> {
    if erasure_shard_index >= t.num_data() {
        let position = erasure_shard_index - t.num_data();
        if position > u16::MAX {
            Err(Error::Erasure(ErasureError::InvalidIndex))
        } else {
            let common_header = ShredCommonHeader {
                index: (t.common_header.index + position) as u32,
                ..t.common_header
            };
            let coding_header = CodingShredHeader { position: position as u16, ..t.coding_header };
            Ok(
                ShredView {
                    headers: ShredHeaders::Code(common_header, coding_header),
                    payload: splice(
                        zeros(ShredCode::SIZE_OF_PAYLOAD),
                        0,
                        coding_headers_bytes(common_header, coding_header),
                    ),
                },
            )
        }
    } else {
        match t.common_header.shred_variant {
            ShredVariant::MerkleData { .. } => Err(Error::InvalidShredVariant),
            ShredVariant::MerkleCode { proof_size, .. } => {
                let common_header = ShredCommonHeader {
                    shred_variant: ShredVariant::MerkleData {
                        proof_size,
                        resigned: t.retransmitter_signature is Some,
                    },
                    index: (t.common_header.fec_set_index + erasure_shard_index) as u32,
                    ..t.common_header
                };
                let data_header = DataShredHeader {
                    parent_offset: 0,
                    flags: ShredFlags { bits: 0 },
                    size: 0,
                };
                Ok(
                    ShredView {
                        headers: ShredHeaders::Data(common_header, data_header),
                        payload: splice(
                            zeros(ShredData::SIZE_OF_PAYLOAD),
                            0,
                            common_header.signature@,
                        ),
                    },
                )
            },
        }
    }
}

/// A shred with the given Merkle root of the previous batch.
pub open spec fn with_chained_merkle_root(shred: ShredView, root: Option<Seq<u8>>) -> Result<
    ShredView,
    Error,
> {
    match (root, shred.chained_merkle_root()) {
        (None, _) => Ok(shred),
        (Some(_), Err(e)) => Err(e),
        (Some(root), Ok(_)) => Ok(
            ShredView {
                payload: splice(
                    shred.payload,
                    shred.chained_merkle_root_offset()->Ok_0 as int,
                    root,
                ),
                ..shred
            },
        ),
    }
}

/// A shred with the given retransmitter's signature.
pub open spec fn with_retransmitter_signature(
    shred: ShredView,
    signature: Option<Seq<u8>>,
) -> Result<ShredView, Error> {
    match (signature, shred.retransmitter_signature()) {
        (None, _) => Ok(shred),
        (Some(_), Err(e)) => Err(e),
        (Some(signature), Ok(_)) => Ok(
            ShredView {
                payload: splice(
                    shred.payload,
                    shred.retransmitter_signature_offset()->Ok_0 as int,
                    signature,
                ),
                ..shred
            },
        ),
    }
}

/// What is known beforehand of the shred in the given position of a batch.
pub open spec fn stub_of(t: TemplateView, erasure_shard_index: nat) -> Result<ShredView, Error> {
    match bare_stub(t, erasure_shard_index) {
        Err(e) => Err(e),
        Ok(stub) => match with_chained_merkle_root(stub, t.chained_merkle_root) {
            Err(e) => Err(e),
            Ok(stub) => with_retransmitter_signature(stub, t.retransmitter_signature),
        },
    }
}

/// `batch` and stubs behind it up to the given position.
pub open spec fn padded(t: TemplateView, batch: Seq<ShredView>, end: nat) -> Result<
    Seq<ShredView>,
    Error,
>
    decreases end - batch.len(),
{
    if batch.len() >= end {
        Ok(batch)
    } else {
        match stub_of(t, batch.len()) {
            Err(e) => Err(e),
            Ok(stub) => padded(t, batch.push(stub), end),
        }
    }
}

/// The batch up to the last of the given shreds, which are in order, with stubs in between.
pub open spec fn placed(t: TemplateView, shreds: Seq<ShredView>) -> Result<Seq<ShredView>, Error>
    decreases shreds.len(),
{
    if shreds.len() == 0 {
        Ok(Seq::empty())
    } else {
        let shred = shreds.last();
        match (placed(t, shreds.drop_last()), shred.erasure_shard_index()) {
            (Err(e), _) => Err(e),
            (Ok(batch), index) => if shred.common().signature != t.common_header.signature {
                Err(Error::InvalidMerkleRoot)
            } else {
                match index {
                    Err(e) => Err(e),
                    Ok(index) => if !(batch.len() <= index < t.num_shards()) {
                        Err(Error::Erasure(ErasureError::InvalidIndex))
                    } else {
                        match padded(t, batch, index as nat) {
                            Ok(batch) => Ok(batch.push(shred)),
                            Err(e) => Err(e),
                        }
                    },
                }
            },
        }
    }
}

/// The whole batch: the given shreds, which are in order, and stubs in the other positions.
pub open spec fn batch_of(t: TemplateView, shreds: Seq<ShredView>) -> Result<Seq<ShredView>, Error> {
    match placed(t, shreds) {
        Ok(batch) => padded(t, batch, t.num_shards()),
        Err(e) => Err(e),
    }
}

/// Whether one of the shreds is in position `index` of its batch.
pub open spec fn has_position(shreds: Seq<ShredView>, index: int) -> bool {
    exists|j: int|
        0 <= j < shreds.len() && (#[trigger] shreds[j]).erasure_shard_index() == Ok::<_, Error>(
            index as usize,
        )
}

/// Which positions of a batch of `n` shreds the given ones are in.
pub open spec fn mask_of(shreds: Seq<ShredView>, n: nat) -> Seq<bool> {
    Seq::new(n, |i: int| has_position(shreds, i))
}

/// Makes what is known beforehand of the shred in the given position of a batch.
pub fn make_stub_shred(erasure_shard_index: usize, template: &Template) -> (stub: Result<
    Shred,
    Error,
>)
    requires
        template@.index_fits(erasure_shard_index as nat),
    ensures
        shred_or_error(stub) == stub_of(template@, erasure_shard_index as nat),
{
    let num_data_shreds: usize = template.coding_header.num_data_shreds as usize;
    let mut shred = if let Some(position) = erasure_shard_index.checked_sub(num_data_shreds) {
        if position > u16::MAX as usize {
            return Err(Error::Erasure(ErasureError::InvalidIndex));
        }
        let common_header = ShredCommonHeader {
            index: template.common_header.index + position as u32,
            ..template.common_header
        };
        let coding_header = CodingShredHeader {
            position: position as u16,
            ..template.coding_header
        };
        let mut payload: Vec<u8> = vec![0u8; ShredCode::SIZE_OF_PAYLOAD];
        assert(payload@ =~= zeros(ShredCode::SIZE_OF_PAYLOAD));
        match serialize_coding_headers_into(
            payload.as_mut_slice(),
            &common_header,
            &coding_header,
        ) {
            Ok(_) => {},
            Err(e) => return Err(Error::WincodeWrite(e)),
        }
        Shred::ShredCode(
            ShredCode { common_header, coding_header, payload: Payload::from(payload) },
        )
    } else {
        let ShredVariant::MerkleCode { proof_size, .. } = template.common_header.shred_variant else {
            return Err(Error::InvalidShredVariant);
        };
        let shred_variant = ShredVariant::MerkleData {
            proof_size,
            resigned: template.retransmitter_signature.is_some(),
        };
        let common_header = ShredCommonHeader {
            shred_variant,
            index: template.common_header.fec_set_index + erasure_shard_index as u32,
            ..template.common_header
        };
        let data_header = DataShredHeader {
            parent_offset: 0,
            flags: ShredFlags::empty(),
            size: 0,
        };
        let mut payload: Vec<u8> = vec![0u8; ShredData::SIZE_OF_PAYLOAD];
        assert(payload@ =~= zeros(ShredData::SIZE_OF_PAYLOAD));
        write_at(payload.as_mut_slice(), 0, common_header.signature.as_slice());
        Shred::ShredData(ShredData { common_header, data_header, payload: Payload::from(payload) })
    };
    assert(bare_stub(template@, erasure_shard_index as nat) == Ok::<_, Error>(shred@));
    if let Some(chained_merkle_root) = &template.chained_merkle_root {
        match shred.set_chained_merkle_root(chained_merkle_root) {
            Ok(_) => {},
            Err(e) => return Err(e),
        }
    }
    if let Some(signature) = &template.retransmitter_signature {
        match shred.set_retransmitter_signature(signature) {
            Ok(_) => {},
            Err(e) => return Err(e),
        }
    }
    Ok(shred)
}

/// Puts stubs behind `batch` up to the given position.
fn pad_batch(batch: &mut Vec<Shred>, template: &Template, end: usize) -> (done: Result<(), Error>)
    requires
        template@.indices_fit(),
        end <= template@.num_shards(),
    ensures
        match padded(template@, views(old(batch)@), end as nat) {
            Ok(all) => done is Ok && views(final(batch)@) == all,
            Err(e) => done == Err::<(), _>(e),
        },
{
    let ghost whole = padded(template@, views(batch@), end as nat);
    while batch.len() < end
        invariant
            template@.indices_fit(),
            end <= template@.num_shards(),
            padded(template@, views(batch@), end as nat) == whole,
            whole == padded(template@, views(old(batch)@), end as nat),
        decreases end - batch.len(),
    {
        let ghost before = batch@;
        match make_stub_shred(batch.len(), template) {
            Err(e) => return Err(e),
            Ok(stub) => {
                let ghost item = stub@;
                batch.push(stub);
                assert(views(batch@) =~= views(before).push(item));
            },
        }
    }
    Ok(())
}

pub(crate) proof fn lemma_placed_prefix(t: TemplateView, shreds: Seq<ShredView>, n: int)
    requires
        0 <= n <= shreds.len(),
        placed(t, shreds.take(n)) is Err,
    ensures
        placed(t, shreds) == placed(t, shreds.take(n)),
    decreases shreds.len(),
{
    if n == shreds.len() {
        assert(shreds.take(n) =~= shreds);
    } else {
        assert(shreds.drop_last().take(n) =~= shreds.take(n));
        lemma_placed_prefix(t, shreds.drop_last(), n);
    }
}

/// Puts shreds, which are in order, into their positions in the batch, and stubs into the others.
/// Tells the positions of the shreds.
pub fn fill_batch(shreds: Vec<Shred>, template: &Template) -> (filled: Result<
    (Vec<Shred>, Vec<bool>),
    Error,
>)
    requires
        template@.indices_fit(),
    ensures
        match (batch_of(template@, views(shreds@)), filled) {
            (Ok(batch), Ok((filled, mask))) => views(filled@) == batch && mask@ == mask_of(
                views(shreds@),
                template@.num_shards(),
            ),
            (Err(e), Err(f)) => e == f,
            _ => false,
        },
{
    let ghost all = views(shreds@);
    let ghost t = template@;
    let num_shards: usize = template.coding_header.num_data_shreds as usize
        + template.coding_header.num_coding_shreds as usize;
    let mut mask: Vec<bool> = vec![false; num_shards];
    let mut batch: Vec<Shred> = Vec::new();
    assert(views(batch@) =~= Seq::empty());
    assert(all.take(0) =~= Seq::empty());
    for shred in iter: shreds
        invariant
            all == views(iter.seq()),
            t == template@,
            t.indices_fit(),
            num_shards == t.num_shards(),
            placed(t, all.take(iter.index() as int)) == Ok::<_, Error>(views(batch@)),
            mask@ == mask_of(all.take(iter.index() as int), num_shards as nat),
    {
        let ghost n = iter.index() as int;
        let ghost item = shred@;
        proof {
            assert(all.take(n + 1).drop_last() =~= all.take(n));
            assert(all.take(n + 1).last() == shred@);
            if placed(t, all.take(n + 1)) is Err {
                lemma_placed_prefix(t, all, n + 1);
            }
        }
        if !bytes_eq(shred.signature(), &template.common_header.signature) {
            return Err(Error::InvalidMerkleRoot);
        }
        assert(shred@.common().signature =~= t.common_header.signature);
        let index: usize = match shred.erasure_shard_index() {
            Ok(index) => index,
            Err(e) => return Err(e),
        };
        if index < batch.len() || index >= num_shards {
            return Err(Error::Erasure(ErasureError::InvalidIndex));
        }
        match pad_batch(&mut batch, template, index) {
            Ok(_) => {},
            Err(e) => return Err(e),
        }
        mask[index] = true;
        let ghost before = batch@;
        batch.push(shred);
        proof {
            assert(views(batch@) =~= views(before).push(item));
            let now = all.take(n + 1);
            assert forall|i: int| 0 <= i < num_shards implies mask@[i] == has_position(now, i) by {
                if has_position(all.take(n), i) {
                    let j = choose|j: int|
                        0 <= j < n && (#[trigger] all.take(n)[j]).erasure_shard_index() == Ok::<
                            _,
                            Error,
                        >(i as usize);
                    assert(now[j] == all.take(n)[j]);
                }
                if has_position(now, i) {
                    let j = choose|j: int|
                        0 <= j < n + 1 && (#[trigger] now[j]).erasure_shard_index() == Ok::<
                            _,
                            Error,
                        >(i as usize);
                    if j < n {
                        assert(all.take(n)[j] == now[j]);
                    }
                }
                assert(now[n] == item);
            }
            assert(mask@ =~= mask_of(now, num_shards as nat));
        }
    }
    assert(all.take(all.len() as int) =~= all);
    match pad_batch(&mut batch, template, num_shards) {
        Ok(_) => Ok((batch, mask)),
        Err(e) => Err(e),
    }
}

/// The erasure coded parts of the shreds of a batch, each with whether it is present.
pub open spec fn shards_in(batch: Seq<ShredView>, mask: Seq<bool>) -> Result<
    Seq<(Seq<u8>, bool)>,
    Error,
>
    decreases batch.len(),
{
    if batch.len() == 0 {
        Ok(Seq::empty())
    } else {
        match (shards_in(batch.drop_last(), mask), batch.last().erasure_shard()) {
            (Err(e), _) => Err(e),
            (Ok(_), Err(e)) => Err(e),
            (Ok(shards), Ok(shard)) => Ok(shards.push((shard, mask[batch.len() - 1]))),
        }
    }
}

/// A shred with the given erasure coded part.
pub open spec fn with_shard(shred: ShredView, shard: Seq<u8>) -> ShredView {
    ShredView {
        payload: splice(shred.payload, shard_start(shred.kind()) as int, shard),
        ..shred
    }
}

/// The batch with the erasure coded parts of the missing shreds computed from the others.
pub open spec fn rebuilt(t: TemplateView, batch: Seq<ShredView>, mask: Seq<bool>) -> Result<
    Seq<ShredView>,
    Error,
> {
    let data = t.num_data() as usize;
    let coding = t.num_coding() as usize;
    match shards_in(batch, mask) {
        Err(e) => Err(e),
        Ok(shards) => match (codec_for(data, coding), reconstruct_result(data, coding, shards)) {
            (Err(e), _) => Err(Error::Erasure(e)),
            (Ok(_), Err(e)) => Err(Error::Erasure(e)),
            (Ok(_), Ok(_)) => Ok(
                Seq::new(
                    batch.len(),
                    |i: int|
                        if mask[i] {
                            batch[i]
                        } else {
                            with_shard(batch[i], reconstructed(data, coding, shards)[i])
                        },
                ),
            ),
        },
    }
}

/// Whether the erasure code, for the given shards, computes for each missing one that of any data
/// and parity shards that the present ones are some of.
pub open spec fn code_restores(data: usize, parity: usize, shards: Seq<(Seq<u8>, bool)>) -> bool {
    forall|full: Seq<Seq<u8>>, i: int|
        #![trigger full[i], reconstructed(data, parity, shards)[i]]
        encodes(data, parity, full) && agrees(shards, full) && 0 <= i < full.len() && !shards[i].1
            ==> reconstructed(data, parity, shards)[i] == full[i]
}

/// Whether the erasure code restores the batch of the given shreds, which are in order.
pub open spec fn restores_batch(t: TemplateView, sorted: Seq<ShredView>) -> bool {
    let mask = mask_of(sorted, t.num_shards());
    match batch_of(t, sorted) {
        Ok(filled) => rebuilt(t, filled, mask) is Ok ==> code_restores(
            t.num_data() as usize,
            t.num_coding() as usize,
            shards_in(filled, mask)->Ok_0,
        ),
        Err(_) => true,
    }
}

proof fn lemma_shards_prefix(batch: Seq<ShredView>, mask: Seq<bool>, n: int)
    requires
        0 <= n <= batch.len(),
        shards_in(batch.take(n), mask) is Err,
    ensures
        shards_in(batch, mask) == shards_in(batch.take(n), mask),
    decreases batch.len(),
{
    if n == batch.len() {
        assert(batch.take(n) =~= batch);
    } else {
        assert(batch.drop_last().take(n) =~= batch.take(n));
        lemma_shards_prefix(batch.drop_last(), mask, n);
    }
}

pub(crate) proof fn lemma_shards_in(batch: Seq<ShredView>, mask: Seq<bool>)
    requires
        shards_in(batch, mask) is Ok,
    ensures
        shards_in(batch, mask)->Ok_0.len() == batch.len(),
        forall|i: int|
            #![trigger batch[i]]
            0 <= i < batch.len() ==> batch[i].erasure_shard() == Ok::<_, Error>(
                shards_in(batch, mask)->Ok_0[i].0,
            ) && shards_in(batch, mask)->Ok_0[i].1 == mask[i],
    decreases batch.len(),
{
    if batch.len() > 0 {
        lemma_shards_in(batch.drop_last(), mask);
        assert forall|i: int| 0 <= i < batch.len() implies (#[trigger] batch[i]).erasure_shard()
            == Ok::<_, Error>(shards_in(batch, mask)->Ok_0[i].0) && shards_in(
            batch,
            mask,
        )->Ok_0[i].1 == mask[i] by {
            if i < batch.len() - 1 {
                assert(batch.drop_last()[i] == batch[i]);
            }
        }
    }
}

/// Copies the erasure coded parts of the shreds of a batch.
fn collect_shards(batch: &Vec<Shred>, mask: &Vec<bool>) -> (shards: Result<
    Vec<(Vec<u8>, bool)>,
    Error,
>)
    requires
        batch.len() == mask.len(),
    ensures
        match shards {
            Ok(shards) => shards_in(views(batch@), mask@) == Ok::<_, Error>(shards_of(shards@)),
            Err(e) => shards_in(views(batch@), mask@) == Err::<Seq<(Seq<u8>, bool)>, _>(e),
        },
{
    let ghost all = views(batch@);
    let mut shards: Vec<(Vec<u8>, bool)> = Vec::new();
    let mut k: usize = 0;
    assert(shards_of(shards@) =~= Seq::empty());
    while k < batch.len()
        invariant
            k <= batch.len(),
            all == views(batch@),
            batch.len() == mask.len(),
            shards_in(all.take(k as int), mask@) == Ok::<_, Error>(shards_of(shards@)),
        decreases batch.len() - k,
    {
        proof {
            assert(all.take(k + 1).drop_last() =~= all.take(k as int));
            assert(all.take(k + 1).last() == batch@[k as int]@);
            if shards_in(all.take(k + 1), mask@) is Err {
                lemma_shards_prefix(all, mask@, k + 1);
            }
        }
        match batch[k].erasure_shard() {
            Err(e) => return Err(e),
            Ok(shard) => {
                let ghost before = shards@;
                let copy: Vec<u8> = slice_to_vec(shard);
                shards.push((copy, mask[k]));
                assert(shards_of(shards@) =~= shards_of(before).push((copy@, mask@[k as int])));
            },
        }
        k += 1;
    }
    assert(all.take(k as int) =~= all);
    Ok(shards)
}

/// Overwrites the erasure coded part of a shred.
fn set_erasure_shard(shred: &mut Shred, shard: &[u8])
    requires
        old(shred)@.erasure_shard() matches Ok(old_shard) && old_shard.len() == shard@.len(),
    ensures
        final(shred)@ == with_shard(old(shred)@, shard@),
{
    match shred.erasure_shard_mut() {
        Ok(mut guard) => {
            guard.copy_from_slice(shard);
            guard.payload.share();
        },
        Err(_) => {},
    }
}

/// Computes the erasure coded parts of the missing shreds of a batch from the others.
fn rebuild_batch(
    batch: Vec<Shred>,
    mask: &Vec<bool>,
    template: &Template,
    reed_solomon_cache: &ReedSolomonCache,
) -> (rebuilt_batch: Result<Vec<Shred>, Error>)
    requires
        batch.len() == mask.len(),
    ensures
        match (rebuilt(template@, views(batch@), mask@), rebuilt_batch) {
            (Ok(all), Ok(batch)) => views(batch@) == all,
            (Err(e), Err(f)) => e == f,
            _ => false,
        },
        rebuilt_batch is Ok ==> code_restores(
            template@.num_data() as usize,
            template@.num_coding() as usize,
            shards_in(views(batch@), mask@)->Ok_0,
        ),
{
    let ghost all = views(batch@);
    let num_data: usize = template.coding_header.num_data_shreds as usize;
    let num_coding: usize = template.coding_header.num_coding_shreds as usize;
    let mut shards = match collect_shards(&batch, mask) {
        Ok(shards) => shards,
        Err(e) => return Err(e),
    };
    let ghost before = shards_of(shards@);
    let codec = match reed_solomon_cache.get(num_data, num_coding) {
        Ok(codec) => codec,
        Err(e) => return Err(Error::Erasure(e)),
    };
    match reconstruct(&codec, &mut shards) {
        Ok(_) => {},
        Err(e) => return Err(Error::Erasure(e)),
    }
    proof {
        lemma_shards_in(all, mask@);
        assert forall|full: Seq<Seq<u8>>, i: int|
            #![trigger full[i], reconstructed(num_data, num_coding, before)[i]]
            encodes(num_data, num_coding, full) && agrees(before, full) && 0 <= i < full.len()
                && !before[i].1 implies reconstructed(num_data, num_coding, before)[i]
            == full[i] by {
            assert(shards@[i].0@ == full[i]);
        }
    }
    let ghost expected = rebuilt(template@, all, mask@)->Ok_0;
    let mut batch = batch;
    let mut k: usize = 0;
    while k < batch.len()
        invariant
            k <= batch.len(),
            batch.len() == mask.len(),
            batch.len() == shards.len(),
            all.len() == batch.len(),
            expected.len() == all.len(),
            forall|i: int| 0 <= i < k ==> (#[trigger] batch@[i])@ == expected[i],
            forall|i: int| k <= i < batch.len() ==> (#[trigger] batch@[i])@ == all[i],
            forall|i: int|
                0 <= i < all.len() ==> (#[trigger] all[i]).erasure_shard() is Ok
                    && all[i].erasure_shard()->Ok_0.len() == shards@[i].0@.len(),
            forall|i: int|
                0 <= i < all.len() ==> #[trigger] expected[i] == if mask@[i] {
                    all[i]
                } else {
                    with_shard(all[i], shards@[i].0@)
                },
        decreases batch.len() - k,
    {
        assert(batch@[k as int]@ == all[k as int]);
        assert(expected[k as int] == expected[k as int]);
        if !mask[k] {
            set_erasure_shard(&mut batch[k], shards[k].0.as_slice());
        }
        k += 1;
    }
    assert(views(batch@) =~= expected);
    Ok(batch)
}

/// A recovered shred with the headers that its bytes tell, if they make sense in its position.
pub open spec fn checked(shred: ShredView, index: nat, num_data: nat) -> Result<ShredView, Error> {
    if index < num_data {
        match (shred.headers, data_headers_of(shred.payload)) {
            (ShredHeaders::Code(..), _) => Err(Error::InvalidRecoveredShred),
            (ShredHeaders::Data(..), Err(e)) => Err(Error::WincodeRead(e)),
            (ShredHeaders::Data(expected, _), Ok((common_header, data_header))) => {
                let parsed = ShredView {
                    headers: ShredHeaders::Data(common_header, data_header),
                    ..shred
                };
                if expected != common_header {
                    Err(Error::InvalidRecoveredShred)
                } else if parsed.sanitize() is Err {
                    Err(parsed.sanitize()->Err_0)
                } else {
                    Ok(parsed)
                }
            },
        }
    } else {
        match shred.headers {
            ShredHeaders::Data(..) => Err(Error::InvalidRecoveredShred),
            ShredHeaders::Code(..) => match shred.sanitize() {
                Err(e) => Err(e),
                Ok(_) => Ok(shred),
            },
        }
    }
}

/// The shreds of a rebuilt batch with their headers, and their leaves in the Merkle tree.
pub open spec fn leaves_of(batch: Seq<ShredView>, mask: Seq<bool>, num_data: nat) -> Result<
    (Seq<ShredView>, Seq<Seq<u8>>),
    Error,
>
    decreases batch.len(),
{
    if batch.len() == 0 {
        Ok((Seq::empty(), Seq::empty()))
    } else {
        let n = (batch.len() - 1) as nat;
        match leaves_of(batch.drop_last(), mask, num_data) {
            Err(e) => Err(e),
            Ok((before, leaves)) => {
                let shred = if mask[n as int] {
                    Ok(batch.last())
                } else {
                    checked(batch.last(), n, num_data)
                };
                match shred {
                    Err(e) => Err(e),
                    Ok(shred) => match shred.merkle_node() {
                        Err(e) => Err(e),
                        Ok(node) => Ok((before.push(shred), leaves.push(node))),
                    },
                }
            },
        }
    }
}

/// What writing a Merkle proof to a shred gives.
pub open spec fn with_proof(shred: ShredView, branch: Seq<Seq<u8>>) -> Result<ShredView, Error> {
    match (shred.params(), shred.proof_offset()) {
        (Ok((proof_size, _)), Ok(offset)) => {
            let room = (shred.payload.len() - offset) as nat;
            match write_proof_result(branch, proof_size, room) {
                Err(e) => Err(e),
                Ok(_) => Ok(
                    ShredView {
                        payload: splice(
                            shred.payload,
                            offset as int,
                            written_proof(branch, proof_size, room),
                        ),
                        ..shred
                    },
                ),
            }
        },
        (Err(e), _) => Err(e),
        (Ok(_), Err(e)) => Err(e),
    }
}

/// The shreds that were missing among the first `n` of a batch, with their proofs.
pub open spec fn recovered(
    batch: Seq<ShredView>,
    mask: Seq<bool>,
    leaves: Seq<Seq<u8>>,
    n: nat,
) -> Seq<Result<ShredView, Error>>
    decreases n,
{
    if n == 0 {
        Seq::empty()
    } else {
        let before = recovered(batch, mask, leaves, (n - 1) as nat);
        if mask[n - 1] {
            before
        } else {
            before.push(with_proof(batch[n - 1], proof_path(leaves, (n - 1) as nat)))
        }
    }
}

/// What recovering the missing shreds of a batch from the given ones gives: an error, or for each
/// missing shred the shred or what is wrong with its proof.
pub open spec fn recovery_of(shreds: Seq<ShredView>) -> Result<
    Seq<Result<ShredView, Error>>,
    Error,
> {
    let sorted = in_order(shreds);
    if sorted.len() == 0 {
        Err(Error::Erasure(ErasureError::TooFewParityShards))
    } else {
        match (template_of(sorted.last()), sorted.last().merkle_root()) {
            (Err(e), _) => Err(e),
            (Ok(_), Err(e)) => Err(e),
            (Ok(t), Ok(root)) => recovery_with(t, sorted, root),
        }
    }
}

/// What recovering the missing shreds of a batch gives, if the others are in order.
pub open spec fn recovery_with(t: TemplateView, sorted: Seq<ShredView>, root: Seq<u8>) -> Result<
    Seq<Result<ShredView, Error>>,
    Error,
> {
    let mask = mask_of(sorted, t.num_shards());
    match batch_of(t, sorted) {
        Err(e) => Err(e),
        Ok(filled) => match rebuilt(t, filled, mask) {
            Err(e) => Err(e),
            Ok(batch) => match leaves_of(batch, mask, t.num_data()) {
                Err(e) => Err(e),
                Ok((batch, leaves)) => if tree_root(leaves) != root {
                    Err(Error::InvalidMerkleRoot)
                } else {
                    Ok(recovered(batch, mask, leaves, t.num_shards()))
                },
            },
        },
    }
}

proof fn lemma_leaves_prefix(batch: Seq<ShredView>, mask: Seq<bool>, num_data: nat, n: int)
    requires
        0 <= n <= batch.len(),
        leaves_of(batch.take(n), mask, num_data) is Err,
    ensures
        leaves_of(batch, mask, num_data) == leaves_of(batch.take(n), mask, num_data),
    decreases batch.len(),
{
    if n == batch.len() {
        assert(batch.take(n) =~= batch);
    } else {
        assert(batch.drop_last().take(n) =~= batch.take(n));
        lemma_leaves_prefix(batch.drop_last(), mask, num_data, n);
    }
}

proof fn lemma_padded_len(t: TemplateView, batch: Seq<ShredView>, end: nat)
    requires
        padded(t, batch, end) is Ok,
    ensures
        padded(t, batch, end)->Ok_0.len() == if batch.len() >= end {
            batch.len()
        } else {
            end
        },
    decreases end - batch.len(),
{
    if batch.len() < end {
        lemma_padded_len(t, batch.push(stub_of(t, batch.len())->Ok_0), end);
    }
}

proof fn lemma_placed_len(t: TemplateView, shreds: Seq<ShredView>)
    requires
        placed(t, shreds) is Ok,
    ensures
        placed(t, shreds)->Ok_0.len() <= t.num_shards(),
        shreds.len() > 0 ==> placed(t, shreds)->Ok_0.len() > 0,
    decreases shreds.len(),
{
    if shreds.len() > 0 {
        lemma_placed_len(t, shreds.drop_last());
        lemma_padded_len(
            t,
            placed(t, shreds.drop_last())->Ok_0,
            shreds.last().erasure_shard_index()->Ok_0 as nat,
        );
    }
}

/// A batch holds as many shreds as its coding shreds say.
proof fn lemma_batch_len(t: TemplateView, shreds: Seq<ShredView>)
    requires
        batch_of(t, shreds) is Ok,
    ensures
        batch_of(t, shreds)->Ok_0.len() == t.num_shards(),
        shreds.len() > 0 ==> t.num_shards() > 0,
{
    lemma_placed_len(t, shreds);
    lemma_padded_len(t, placed(t, shreds)->Ok_0, t.num_shards());
}

/// The template of the batch of the last of the shreds, which are in order.
fn make_template(shreds: &Vec<Shred>) -> (template: Result<Template, Error>)
    ensures
        match template {
            Ok(template) => shreds.len() > 0 && template_of(shreds@.last()@) == Ok::<_, Error>(
                template@,
            ),
            Err(e) => if shreds.len() == 0 {
                e == Error::Erasure(ErasureError::TooFewParityShards)
            } else {
                template_of(shreds@.last()@) == Err::<TemplateView, _>(e)
            },
        },
{
    if shreds.len() == 0 {
        return Err(Error::Erasure(ErasureError::TooFewParityShards));
    }
    let shred = match &shreds[shreds.len() - 1] {
        Shred::ShredCode(shred) => shred,
        Shred::ShredData(_) => return Err(Error::Erasure(ErasureError::TooFewParityShards)),
    };
    let index: u32 = match shred.first_coding_index() {
        Some(index) => index,
        None => return Err(Error::Erasure(ErasureError::InvalidIndex)),
    };
    let chained_merkle_root = match shred.chained_merkle_root() {
        Ok(root) => Some(root),
        Err(_) => None,
    };
    let retransmitter_signature = match shred.retransmitter_signature() {
        Ok(signature) => Some(signature),
        Err(_) => None,
    };
    Ok(
        Template {
            common_header: ShredCommonHeader { index, ..shred.common_header },
            coding_header: CodingShredHeader { position: 0, ..shred.coding_header },
            chained_merkle_root,
            retransmitter_signature,
        },
    )
}

/// Reads the headers of a recovered shred off its bytes and checks them.
pub fn check_recovered(shred: Shred, index: usize, num_data: usize) -> (parsed: Result<Shred, Error>)
    ensures
        shred_or_error(parsed) == checked(shred@, index as nat, num_data as nat),
{
    let shred = if index < num_data {
        let Shred::ShredData(mut shred) = shred else {
            return Err(Error::InvalidRecoveredShred);
        };
        let (common_header, data_header) = match deserialize_data_headers(shred.payload.as_slice()) {
            Ok(headers) => headers,
            Err(e) => return Err(Error::WincodeRead(e)),
        };
        if shred.common_header != common_header {
            return Err(Error::InvalidRecoveredShred);
        }
        shred.data_header = data_header;
        Shred::ShredData(shred)
    } else {
        let Shred::ShredCode(shred) = shred else {
            return Err(Error::InvalidRecoveredShred);
        };
        Shred::ShredCode(shred)
    };
    match shred.sanitize() {
        Ok(_) => Ok(shred),
        Err(e) => Err(e),
    }
}

/// Reads the headers of the recovered shreds of a rebuilt batch and hashes all shreds.
fn make_leaves(batch: Vec<Shred>, mask: &Vec<bool>, num_data: usize) -> (made: Result<
    (Vec<Shred>, Vec<Result<Digest, Error>>),
    Error,
>)
    requires
        batch.len() == mask.len(),
    ensures
        match (leaves_of(views(batch@), mask@, num_data as nat), made) {
            (Ok((checked_batch, leaves)), Ok((batch, nodes))) => {
                &&& views(batch@) == checked_batch
                &&& all_digests(nodes@) == Ok::<_, Error>(leaves)
                &&& batch@.len() == nodes@.len() == mask@.len()
            },
            (Err(e), Err(f)) => e == f,
            _ => false,
        },
{
    let ghost all = views(batch@);
    let mut shreds: Vec<Shred> = Vec::new();
    let mut nodes: Vec<Result<Digest, Error>> = Vec::new();
    let ghost mut leaves: Seq<Seq<u8>> = Seq::empty();
    assert(views(shreds@) =~= Seq::empty());
    for shred in iter: batch
        invariant
            all == views(iter.seq()),
            all.len() == mask.len(),
            shreds.len() == nodes.len() == iter.index(),
            leaves_of(all.take(iter.index() as int), mask@, num_data as nat) == Ok::<_, Error>(
                (views(shreds@), leaves),
            ),
            all_digests(nodes@) == Ok::<_, Error>(leaves),
    {
        let ghost n = iter.index() as int;
        let k: usize = shreds.len();
        proof {
            assert(all.take(n + 1).drop_last() =~= all.take(n));
            assert(all.take(n + 1).last() == shred@);
            if leaves_of(all.take(n + 1), mask@, num_data as nat) is Err {
                lemma_leaves_prefix(all, mask@, num_data as nat, n + 1);
            }
        }
        let shred = if mask[k] {
            shred
        } else {
            match check_recovered(shred, k, num_data) {
                Ok(shred) => shred,
                Err(e) => return Err(e),
            }
        };
        let node = match shred.merkle_node() {
            Ok(node) => node,
            Err(e) => return Err(e),
        };
        let ghost item = shred@;
        let ghost before = shreds@;
        let ghost nodes_before = nodes@;
        shreds.push(shred);
        nodes.push(Ok(node));
        proof {
            assert(views(shreds@) =~= views(before).push(item));
            assert(nodes@.drop_last() =~= nodes_before);
            leaves = leaves.push(node@);
        }
    }
    assert(all.take(all.len() as int) =~= all);
    Ok((shreds, nodes))
}

/// The shreds and leaves of a rebuilt batch, position by position.
pub(crate) proof fn lemma_leaves_of(batch: Seq<ShredView>, mask: Seq<bool>, num_data: nat)
    requires
        leaves_of(batch, mask, num_data) is Ok,
    ensures
        ({
            let (shreds, leaves) = leaves_of(batch, mask, num_data)->Ok_0;
            &&& shreds.len() == leaves.len() == batch.len()
            &&& forall|i: int|
                #![trigger shreds[i]]
                #![trigger leaves[i]]
                0 <= i < batch.len() ==> shreds[i].merkle_node() == Ok::<_, Error>(leaves[i])
                    && if mask[i] {
                    shreds[i] == batch[i]
                } else {
                    checked(batch[i], i as nat, num_data) == Ok::<_, Error>(shreds[i])
                }
        }),
    decreases batch.len(),
{
    if batch.len() > 0 {
        lemma_leaves_of(batch.drop_last(), mask, num_data);
    }
}

/// The shreds of a list of results, or the errors in their places.
pub open spec fn results(shreds: Seq<Result<Shred, Error>>) -> Seq<Result<ShredView, Error>> {
    shreds.map_values(|shred: Result<Shred, Error>| shred_or_error(shred))
}

/// Writes the Merkle proofs of the recovered shreds, and leaves the others out.
fn finish_recovered(
    batch: Vec<Shred>,
    mask: &Vec<bool>,
    tree: &MerkleTree,
    Ghost(leaves): Ghost<Seq<Seq<u8>>>,
) -> (finished: Vec<Result<Shred, Error>>)
    requires
        batch.len() == mask.len(),
        leaves.len() == batch.len(),
        batch.len() <= 2 * u16::MAX,
        tree@ == tree_nodes(leaves),
        forall|i: int|
            0 <= i < batch.len() && !mask@[i] ==> (#[trigger] batch@[i])@.sanitize() is Ok,
    ensures
        results(finished@) == recovered(views(batch@), mask@, leaves, mask@.len()),
{
    let ghost all = views(batch@);
    let num_shards: usize = batch.len();
    let mut finished: Vec<Result<Shred, Error>> = Vec::new();
    let mut k: usize = 0;
    assert(results(finished@) =~= Seq::empty());
    for shred in iter: batch
        invariant
            all == views(iter.seq()),
            k == iter.index(),
            num_shards == all.len() == mask.len() == leaves.len(),
            num_shards <= 2 * u16::MAX,
            tree@ == tree_nodes(leaves),
            forall|i: int|
                0 <= i < all.len() && !mask@[i] ==> (#[trigger] all[i]).sanitize() is Ok,
            results(finished@) == recovered(all, mask@, leaves, k as nat),
    {
        assert(all[k as int] == shred@);
        if !mask[k] {
            let mut shred = shred;
            proof {
                made_proof_leads_to_root(leaves, k as nat);
            }
            let ghost before = finished@;
            match tree.make_merkle_proof(k, num_shards) {
                Err(e) => {
                    finished.push(Err(e));
                },
                Ok(branch) => match shred.set_merkle_proof(branch.as_slice()) {
                    Err(e) => {
                        finished.push(Err(e));
                    },
                    Ok(_) => {
                        finished.push(Ok(shred));
                    },
                },
            }
            assert(results(finished@) =~= results(before).push(shred_or_error(finished@.last())));
        }
        k += 1;
    }
    finished
}

/// Recovers the missing shreds of an erasure batch, and tells that the erasure code restored them.
#[verifier::rlimit(40)]
fn recover_batch(shreds: Vec<Shred>, reed_solomon_cache: &ReedSolomonCache) -> (recovery: Result<
    Vec<Result<Shred, Error>>,
    Error,
>)
    ensures
        match (recovery_of(views(shreds@)), recovery) {
            (Ok(all), Ok(recovery)) => results(recovery@) == all,
            (Err(e), Err(f)) => e == f,
            _ => false,
        },
        ({
            let sorted = in_order(views(shreds@));
            sorted.len() > 0 && sorted.last().merkle_root() is Ok ==> match template_of(
                sorted.last(),
            ) {
                Ok(t) => restores_batch(t, sorted),
                Err(_) => true,
            }
        }),
{
    let shreds = sort_shreds(shreds);
    let ghost sorted = views(shreds@);
    let template = match make_template(&shreds) {
        Ok(template) => template,
        Err(e) => return Err(e),
    };
    assert(sorted.last() == shreds@.last()@);
    let merkle_root = match shreds[shreds.len() - 1].merkle_root() {
        Ok(root) => root,
        Err(e) => return Err(e),
    };
    let ghost t = template@;
    let num_data: usize = template.coding_header.num_data_shreds as usize;
    let (filled, mask) = match fill_batch(shreds, &template) {
        Ok(filled) => filled,
        Err(e) => return Err(e),
    };
    proof {
        lemma_batch_len(t, sorted);
    }
    let rebuilt_batch = match rebuild_batch(filled, &mask, &template, reed_solomon_cache) {
        Ok(batch) => batch,
        Err(e) => return Err(e),
    };
    let ghost rebuilt_views = views(rebuilt_batch@);
    let (batch, nodes) = match make_leaves(rebuilt_batch, &mask, num_data) {
        Ok(made) => made,
        Err(e) => return Err(e),
    };
    let ghost leaves = leaves_of(rebuilt_views, mask@, num_data as nat)->Ok_0.1;
    proof {
        lemma_leaves_of(rebuilt_views, mask@, num_data as nat);
        lemma_tree_size(nodes@.len());
        root_is_last_node(leaves);
    }
    let tree = match MerkleTree::try_new(nodes) {
        Ok(tree) => tree,
        Err(e) => return Err(e),
    };
    if !bytes_eq(tree.root(), &merkle_root) {
        return Err(Error::InvalidMerkleRoot);
    }
    assert forall|i: int| 0 <= i < batch@.len() && !mask@[i] implies (
    #[trigger] batch@[i])@.sanitize() is Ok by {
        assert(views(batch@)[i] == batch@[i]@);
    }
    Ok(finish_recovered(batch, &mask, &tree, Ghost(leaves)))
}

/// The recovered data shreds among the first `n` of a rebuilt batch, but for those whose bytes do
/// not tell the headers that they must have.
pub open spec fn recovered_data(batch: Seq<ShredView>, mask: Seq<bool>, n: nat) -> Seq<ShredView>
    decreases n,
{
    if n == 0 {
        Seq::empty()
    } else {
        let before = recovered_data(batch, mask, (n - 1) as nat);
        let shred = batch[n - 1];
        match (shred.headers, data_headers_of(shred.payload)) {
            (ShredHeaders::Data(expected, _), Ok((common_header, data_header))) => if !mask[n - 1]
                && expected == common_header {
                before.push(
                    ShredView {
                        headers: ShredHeaders::Data(common_header, data_header),
                        ..shred
                    },
                )
            } else {
                before
            },
            _ => before,
        }
    }
}

/// Whether the indices of the batch that the last of the shreds tells of are numbers of 32 bits. They
/// are if the coding shreds are in positions that exist.
pub open spec fn batch_indices_fit(shreds: Seq<ShredView>) -> bool {
    in_order(shreds).len() > 0 ==> match template_of(in_order(shreds).last()) {
        Ok(t) => t.indices_fit(),
        Err(_) => true,
    }
}

/// The indices of a batch fit if its coding shreds are in positions that exist.
pub proof fn valid_positions_fit(shreds: Seq<ShredView>)
    requires
        forall|i: int|
            0 <= i < shreds.len() && (#[trigger] shreds[i]).kind() == ShredType::Code
                ==> shreds[i].erasure_shard_index() is Ok,
    ensures
        batch_indices_fit(shreds),
{
    broadcast use vstd::seq_lib::group_to_multiset_ensures;

    let sorted = in_order(shreds);
    if sorted.len() > 0 {
        in_order_sorts(shreds);
        assert(sorted.contains(sorted.last()));
        assert(sorted.to_multiset().count(sorted.last()) > 0);
        assert(shreds.contains(sorted.last()));
        let i = choose|i: int| 0 <= i < shreds.len() && shreds[i] == sorted.last();
        assert(shreds[i].kind() == ShredType::Code ==> shreds[i].erasure_shard_index() is Ok);
    }
}

/// What recovering the missing data shreds of a batch from the given shreds gives.
pub open spec fn data_recovery_of(shreds: Seq<ShredView>) -> Result<Seq<ShredView>, Error> {
    let sorted = in_order(shreds);
    if sorted.len() == 0 {
        Err(Error::Erasure(ErasureError::TooFewParityShards))
    } else {
        match template_of(sorted.last()) {
            Err(e) => Err(e),
            Ok(t) => {
                let mask = mask_of(sorted, t.num_shards());
                match batch_of(t, sorted) {
                    Err(e) => Err(e),
                    Ok(filled) => match rebuilt(t, filled, mask) {
                        Err(e) => Err(e),
                        Ok(batch) => Ok(recovered_data(batch, mask, t.num_data())),
                    },
                }
            },
        }
    }
}

/// Recovers the missing data shreds of an erasure batch, and tells that the erasure code restored
/// them.
fn recover_data_batch(shreds: Vec<Shred>, reed_solomon_cache: &ReedSolomonCache) -> (recovery: Result<
    Vec<Shred>,
    Error,
>)
    requires
        batch_indices_fit(views(shreds@)),
    ensures
        match (data_recovery_of(views(shreds@)), recovery) {
            (Ok(all), Ok(recovery)) => views(recovery@) == all,
            (Err(e), Err(f)) => e == f,
            _ => false,
        },
        ({
            let sorted = in_order(views(shreds@));
            sorted.len() > 0 ==> match template_of(sorted.last()) {
                Ok(t) => restores_batch(t, sorted),
                Err(_) => true,
            }
        }),
{
    let shreds = sort_shreds(shreds);
    let ghost sorted = views(shreds@);
    let template = match make_template(&shreds) {
        Ok(template) => template,
        Err(e) => return Err(e),
    };
    let ghost t = template@;
    assert(sorted.last() == shreds@.last()@);
    let num_data: usize = template.coding_header.num_data_shreds as usize;
    let (filled, mask) = match fill_batch(shreds, &template) {
        Ok(filled) => filled,
        Err(e) => return Err(e),
    };
    proof {
        lemma_batch_len(t, sorted);
    }
    let batch = match rebuild_batch(filled, &mask, &template, reed_solomon_cache) {
        Ok(batch) => batch,
        Err(e) => return Err(e),
    };
    let ghost all = views(batch@);
    let mut recovery: Vec<Shred> = Vec::new();
    let mut k: usize = 0;
    assert(views(recovery@) =~= Seq::empty());
    for shred in iter: batch
        invariant
            all == views(iter.seq()),
            k == iter.index(),
            all.len() == mask.len(),
            num_data <= mask.len(),
            views(recovery@) == recovered_data(
                all,
                mask@,
                if k < num_data {
                    k as nat
                } else {
                    num_data as nat
                },
            ),
    {
        assert(all[k as int] == shred@);
        if k < num_data && !mask[k] {
            if let Shred::ShredData(mut shred) = shred {
                if let Ok((common_header, data_header)) = deserialize_data_headers(
                    shred.payload.as_slice(),
                ) {
                    if shred.common_header == common_header {
                        let ghost before = recovery@;
                        shred.data_header = data_header;
                        recovery.push(Shred::ShredData(shred));
                        assert(views(recovery@) =~= views(before).push(recovery@.last()@));
                    }
                }
            }
        }
        k += 1;
    }
    Ok(recovery)
}

/// Recovers the missing shreds of an erasure batch from the others. The recovered shreds come in the
/// order of their positions.
///
/// From enough shreds of a whole batch come the other shreds of it.
pub fn recover(shreds: Vec<Shred>, reed_solomon_cache: &ReedSolomonCache) -> (recovery: Result<
    Vec<Result<Shred, Error>>,
    Error,
>)
    ensures
        match (recovery_of(views(shreds@)), recovery) {
            (Ok(all), Ok(recovery)) => results(recovery@) == all,
            (Err(e), Err(f)) => e == f,
            _ => false,
        },
        forall|full: Seq<ShredView>| #[trigger]
            is_whole_batch(full) && enough_of(views(shreds@), full) ==> (recovery matches Ok(
                recovery,
            ) && results(recovery@) == missing_of(
                full,
                mask_of(views(shreds@), full.len()),
                full.len(),
            )),
        forall|full: Seq<ShredView>| #[trigger]
            is_leaders_batch(full) && are_enough_of(views(shreds@), full) ==> {
                let lost = lost_of(full, views(shreds@), full.len());
                recovery matches Ok(recovery) && recovery@.len() == lost.len() && (forall|k: int|
                    0 <= k < lost.len() ==> (#[trigger] recovery@[k] matches Ok(shred) && shred@
                        == lost[k]))
            },
{
    let ghost given = views(shreds@);
    let recovery = recover_batch(shreds, reed_solomon_cache);
    assert forall|full: Seq<ShredView>| #[trigger]
        is_whole_batch(full) && enough_of(given, full) implies recovery_of(given) == Ok::<_, Error>(
        missing_of(full, mask_of(given, full.len()), full.len()),
    ) by {
        lemma_given_template(given, full);
        recovery_gives_back_lost_shreds(given, full);
    }
    proof {
        assert forall|full: Seq<ShredView>| #[trigger]
            is_leaders_batch(full) && are_enough_of(given, full) implies {
            let lost = lost_of(full, given, full.len());
            recovery matches Ok(recovery) && recovery@.len() == lost.len() && (forall|k: int|
                0 <= k < lost.len() ==> (#[trigger] recovery@[k] matches Ok(shred) && shred@
                    == lost[k]))
        } by {
            lemma_is_enough(given, full);
            let mask = mask_of(given, full.len());
            lemma_missing_is_lost(full, given, mask, full.len());
            let lost = lost_of(full, given, full.len());
            let all = recovery->Ok_0@;
            assert(results(all) == missing_of(full, mask, full.len()));
            assert forall|k: int| 0 <= k < lost.len() implies (#[trigger] all[k] matches Ok(shred)
                && shred@ == lost[k]) by {
                assert(results(all)[k] == shred_or_error(all[k]));
                assert(missing_of(full, mask, full.len())[k] == Ok::<_, Error>(lost[k]));
            }
        }
    }
    recovery
}

/// Recovers the missing data shreds of an erasure batch from the others, without the Merkle tree: the
/// recovered shreds carry no proof, and nothing but their headers is checked.
///
/// For callers that need only the data and do not retransmit the shreds. From enough shreds of a
/// whole batch come the other data shreds of it, but for their proofs. Shreds that were read satisfy
/// the second alternative of the condition on the indices, and with it the first.
pub fn recover_data_only(shreds: Vec<Shred>, reed_solomon_cache: &ReedSolomonCache) -> (recovery: Result<
    Vec<Shred>,
    Error,
>)
    requires
        batch_indices_fit(views(shreds@)) || (forall|i: int|
            0 <= i < shreds@.len() && (#[trigger] shreds@[i])@.kind() == ShredType::Code
                ==> shreds@[i]@.erasure_shard_index() is Ok),
    ensures
        match (data_recovery_of(views(shreds@)), recovery) {
            (Ok(all), Ok(recovery)) => views(recovery@) == all,
            (Err(e), Err(f)) => e == f,
            _ => false,
        },
        forall|full: Seq<ShredView>| #[trigger]
            is_whole_batch(full) && enough_of(views(shreds@), full) ==> (recovery matches Ok(
                recovery,
            ) && are_missing_data(
                views(recovery@),
                missing_of(full, mask_of(views(shreds@), full.len()), full.len()),
            )),
        forall|full: Seq<ShredView>| #[trigger]
            is_leaders_batch(full) && are_enough_of(views(shreds@), full) ==> {
                let lost = lost_of(full, views(shreds@), num_data_of(full));
                recovery matches Ok(recovery) && recovery@.len() == lost.len() && (forall|k: int|
                    0 <= k < lost.len() ==> is_lost_data((#[trigger] recovery@[k])@, lost[k]))
            },
{
    let ghost given = views(shreds@);
    proof {
        if !batch_indices_fit(given) {
            assert forall|i: int|
                0 <= i < given.len() && (#[trigger] given[i]).kind() == ShredType::Code implies given[i].erasure_shard_index()
                is Ok by {
                assert(given[i] == shreds@[i]@);
            }
            valid_positions_fit(given);
        }
    }
    let recovery = recover_data_batch(shreds, reed_solomon_cache);
    assert forall|full: Seq<ShredView>| #[trigger]
        is_whole_batch(full) && enough_of(given, full) implies (data_recovery_of(given) matches Ok(
        data,
    ) && are_missing_data(data, missing_of(full, mask_of(given, full.len()), full.len()))) by {
        lemma_given_template(given, full);
        data_recovery_gives_back_lost_data(given, full);
    }
    proof {
        assert forall|full: Seq<ShredView>| #[trigger]
            is_leaders_batch(full) && are_enough_of(given, full) implies {
            let lost = lost_of(full, given, num_data_of(full));
            recovery matches Ok(recovery) && recovery@.len() == lost.len() && (forall|k: int|
                0 <= k < lost.len() ==> is_lost_data((#[trigger] recovery@[k])@, lost[k]))
        } by {
            lemma_is_enough(given, full);
            let all = recovery->Ok_0@;
            lemma_data_is_lost(full, given, views(all));
            let lost = lost_of(full, given, num_data_of(full));
            assert forall|k: int| 0 <= k < lost.len() implies is_lost_data(
                (#[trigger] all[k])@,
                lost[k],
            ) by {
                assert(views(all)[k] == all[k]@);
            }
        }
    }
    recovery
}

} // verus!
