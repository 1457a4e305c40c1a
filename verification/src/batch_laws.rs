//! What recovery is for: a batch as a leader makes it, by the headers and bytes of its shreds, comes back
//! from enough of them.
use crate::bytes_util::{le_u16, le_u32, le_u64};
use crate::crypto::sha256;
use crate::error::{Error, ReadError, ShredHeaders};
use crate::format_laws::{
    coding_headers_are_written, data_headers_are_read, leaf_prefix, starts_with, tail_size,
};
use crate::header::{
    coding_headers_bytes, data_headers_of, CodingShredHeader, DataShredHeader, ShredCommonHeader,
};
use crate::merkle_tree::proof_path;
use crate::model::ShredView;
use crate::recover::{
    batch_of, data_recovery_of, has_position, in_order, mask_of, rebuilt, recovery_of,
    restores_batch, template_of, TemplateView,
};
use crate::recover_laws::{fits_position, position_of};
use crate::reed_solomon::encodes;
use crate::restore::{
    are_missing_data, coded_parts, common_part, data_recovery_gives_back_lost_data, enough_of,
    is_shred_at, is_whole_batch, leaves_in, lemma_filled_ok, lemma_positions_order,
    lemma_rebuilt_ok, missing_of, recovery_gives_back_lost_shreds, some_of,
};
use crate::shred_laws::{
    is_proof_at, lemma_one_header, parts_of_coding_shreds, parts_of_data_shreds,
    starts_with_coding_shred, starts_with_data_shred, which_coding_shreds_make_sense,
    which_data_shreds_make_sense,
};
use crate::shred_type::{ShredType, ShredVariant};
use vstd::prelude::*;

verus! {

/// What all shreds of a batch tell alike.
pub open spec fn is_of_one_batch(header: ShredCommonHeader, other: ShredCommonHeader) -> bool {
    &&& header.signature == other.signature
    &&& header.slot == other.slot
    &&& header.version == other.version
    &&& header.fec_set_index == other.fec_set_index
}

/// Whether a shred is the data shred in position `i` of the batch of a coding shred with the given
/// header: it makes sense, its bytes start with its headers, and its index counts from that of the
/// batch.
pub open spec fn is_data_in_batch(
    shred: ShredView,
    last: ShredCommonHeader,
    proof_size: u8,
    resigned: bool,
    i: int,
) -> bool {
    &&& shred.headers matches ShredHeaders::Data(header, data_header)
    &&& shred.payload.len() == 1203
    &&& starts_with_data_shred(shred.payload, header, data_header)
    &&& is_of_one_batch(header, last)
    &&& header.shred_variant == (ShredVariant::MerkleData { proof_size, resigned })
    &&& header.index == last.fec_set_index + i
}

/// Whether a shred is the coding shred in position `p` among those of the batch of a coding shred with
/// the given headers: it makes sense, its bytes start with its headers, and its index counts on from
/// that of the first coding shred, whichever that is.
pub open spec fn is_code_in_batch(
    shred: ShredView,
    last: ShredCommonHeader,
    size: CodingShredHeader,
    proof_size: u8,
    resigned: bool,
    p: int,
) -> bool {
    &&& shred.headers matches ShredHeaders::Code(header, coding_header)
    &&& shred.payload.len() == 1228
    &&& starts_with_coding_shred(shred.payload, header, coding_header)
    &&& is_of_one_batch(header, last)
    &&& header.shred_variant == (ShredVariant::MerkleCode { proof_size, resigned })
    &&& coding_header.num_data_shreds == size.num_data_shreds
    &&& coding_header.num_coding_shreds == size.num_coding_shreds
    &&& coding_header.position == p
    &&& header.index - p == last.index - size.position
}

/// Where the Merkle root of the previous batch starts in the payload of a shred.
pub open spec fn tail_start(shred: ShredView, proof_size: u8, resigned: bool) -> int {
    shred.payload.len() - tail_size(proof_size, resigned)
}

/// The leaves of the Merkle tree of a batch: the hashes of all bytes behind the signatures and in front
/// of the proofs.
pub open spec fn leaf_hashes(full: Seq<ShredView>, proof_size: u8, resigned: bool) -> Seq<Seq<u8>> {
    Seq::new(
        full.len(),
        |i: int|
            sha256(
                leaf_prefix() + full[i].payload.subrange(
                    64,
                    tail_start(full[i], proof_size, resigned) + 32,
                ),
            ),
    )
}

/// The erasure coded bytes of a batch: of data shreds those behind the signature, of coding shreds those
/// behind the headers.
pub open spec fn coded_bytes(full: Seq<ShredView>, proof_size: u8, resigned: bool) -> Seq<Seq<u8>> {
    Seq::new(
        full.len(),
        |i: int|
            full[i].payload.subrange(
                if full[i].headers is Data {
                    64
                } else {
                    89
                },
                tail_start(full[i], proof_size, resigned),
            ),
    )
}

/// Whether a shred of a batch ends as all of them do, with its own proof.
pub open spec fn ends_as_in_batch(
    full: Seq<ShredView>,
    proof_size: u8,
    resigned: bool,
    i: int,
) -> bool {
    let s = full[i].payload;
    let at = tail_start(full[i], proof_size, resigned);
    let t = full.last().payload;
    let end = tail_start(full.last(), proof_size, resigned);
    &&& s.subrange(at, at + 32) == t.subrange(end, end + 32)
    &&& resigned ==> s.subrange(s.len() - 64, s.len() as int) == t.subrange(
        t.len() - 64,
        t.len() as int,
    )
    &&& is_proof_at(
        s,
        at + 32,
        proof_size,
        proof_path(leaf_hashes(full, proof_size, resigned), i as nat),
    )
}

/// Whether `full` is a batch as a leader makes it: first the data shreds, then the coding shreds, all
/// with the signature, slot, version and batch index of the last one; the coding shreds hold the code
/// of the data shreds, all hold the Merkle root of one previous batch and one retransmitter's
/// signature, and each its proof in the tree over all of them.
pub open spec fn is_leaders_batch(full: Seq<ShredView>) -> bool {
    &&& full.len() > 0
    &&& full.last().headers matches ShredHeaders::Code(last, size)
    &&& last.shred_variant matches ShredVariant::MerkleCode { proof_size, resigned }
    &&& full.len() == size.num_data_shreds + size.num_coding_shreds
    &&& forall|i: int|
        0 <= i < size.num_data_shreds ==> is_data_in_batch(
            #[trigger] full[i],
            last,
            proof_size,
            resigned,
            i,
        )
    &&& forall|i: int|
        size.num_data_shreds <= i < full.len() ==> is_code_in_batch(
            #[trigger] full[i],
            last,
            size,
            proof_size,
            resigned,
            i - size.num_data_shreds,
        )
    &&& forall|i: int|
        0 <= i < full.len() ==> #[trigger] ends_as_in_batch(full, proof_size, resigned, i)
    &&& encodes(
        size.num_data_shreds as usize,
        size.num_coding_shreds as usize,
        coded_bytes(full, proof_size, resigned),
    )
}

/// Whether the shreds are different ones of a batch, at least one coding shred among them.
pub open spec fn are_some_of(shreds: Seq<ShredView>, full: Seq<ShredView>) -> bool {
    &&& shreds.no_duplicates()
    &&& exists|j: int| 0 <= j < shreds.len() && (#[trigger] shreds[j]).headers is Code
    &&& forall|j: int| 0 <= j < shreds.len() ==> full.contains(#[trigger] shreds[j])
}

/// Whether the shreds are different ones of a batch: as many as it has data shreds, or more, and at
/// least one coding shred.
pub open spec fn are_enough_of(shreds: Seq<ShredView>, full: Seq<ShredView>) -> bool {
    shreds.len() >= num_data_of(full) && are_some_of(shreds, full)
}

/// Those of the first `n` shreds of a batch that were not given, in their order.
pub open spec fn lost_of(full: Seq<ShredView>, shreds: Seq<ShredView>, n: nat) -> Seq<ShredView>
    decreases n,
{
    if n == 0 {
        Seq::empty()
    } else if shreds.contains(full[n - 1]) {
        lost_of(full, shreds, (n - 1) as nat)
    } else {
        lost_of(full, shreds, (n - 1) as nat).push(full[n - 1])
    }
}

/// The number of data shreds that a batch has.
pub open spec fn num_data_of(full: Seq<ShredView>) -> nat {
    full.last().headers->Code_1.num_data_shreds as nat
}

/// Whether a shred is a data shred as it was lost, but for the bytes of its proof.
pub open spec fn is_lost_data(shred: ShredView, lost: ShredView) -> bool {
    &&& lost.headers matches ShredHeaders::Data(header, data_header)
    &&& header.shred_variant matches ShredVariant::MerkleData { proof_size, resigned }
    &&& shred.headers == lost.headers
    &&& shred.payload.len() == 1203
    &&& forall|k: int|
        0 <= k < 1203 && !(1203 - tail_size(proof_size, resigned) + 32 <= k < 1203 - tail_size(
            proof_size,
            resigned,
        ) + 32 + 20 * proof_size) ==> #[trigger] shred.payload[k] == lost.payload[k]
}

proof fn lemma_le_bytes(s: Seq<u8>, t: Seq<u8>, at: int)
    ensures
        le_u16(s, at) == le_u16(t, at) ==> s[at] == t[at] && s[at + 1] == t[at + 1],
        le_u32(s, at) == le_u32(t, at) ==> s[at] == t[at] && s[at + 1] == t[at + 1] && s[at + 2] == t[at
            + 2] && s[at + 3] == t[at + 3],
{
}

proof fn lemma_halves(low: u32, high: u32, other_low: u32, other_high: u32)
    requires
        (low + 0x1_0000_0000 * high) as u64 == (other_low + 0x1_0000_0000 * other_high) as u64,
    ensures
        low == other_low,
        high == other_high,
{
}

proof fn lemma_le_bytes_8(s: Seq<u8>, t: Seq<u8>, at: int)
    requires
        le_u64(s, at) == le_u64(t, at),
    ensures
        forall|k: int| at <= k < at + 8 ==> s[k] == t[k],
{
    lemma_halves(le_u32(s, at), le_u32(s, at + 4), le_u32(t, at), le_u32(t, at + 4));
    lemma_le_bytes(s, t, at);
    lemma_le_bytes(s, t, at + 4);
}

/// Bytes that start with headers of a coding shred are those that the headers are written as.
proof fn lemma_coding_front(s: Seq<u8>, header: ShredCommonHeader, coding_header: CodingShredHeader)
    requires
        s.len() >= 89,
        starts_with(s, header),
        le_u16(s, 83) == coding_header.num_data_shreds,
        le_u16(s, 85) == coding_header.num_coding_shreds,
        le_u16(s, 87) == coding_header.position,
    ensures
        s.take(89) == coding_headers_bytes(header, coding_header),
{
    let b = coding_headers_bytes(header, coding_header);
    coding_headers_are_written(header, coding_header);
    lemma_same_header(s, b, header);
    lemma_same_sizes(s, b);
    assert(s.take(89) =~= b);
}

/// Bytes that start with one header are the same up to its end.
proof fn lemma_same_header(s: Seq<u8>, b: Seq<u8>, header: ShredCommonHeader)
    requires
        starts_with(s, header),
        starts_with(b, header),
    ensures
        forall|k: int| 0 <= k < 83 ==> s[k] == b[k],
{
    assert forall|k: int| 0 <= k < 64 implies s[k] == b[k] by {
        assert(s.take(64)[k] == b.take(64)[k]);
    }
    assert(s[64] == b[64]);
    lemma_le_bytes_8(s, b, 65);
    lemma_le_bytes(s, b, 73);
    lemma_le_bytes(s, b, 77);
    lemma_le_bytes(s, b, 79);
}

/// Bytes that hold one coding header are the same there.
proof fn lemma_same_sizes(s: Seq<u8>, b: Seq<u8>)
    requires
        le_u16(s, 83) == le_u16(b, 83),
        le_u16(s, 85) == le_u16(b, 85),
        le_u16(s, 87) == le_u16(b, 87),
    ensures
        forall|k: int| 83 <= k < 89 ==> s[k] == b[k],
{
    lemma_le_bytes(s, b, 83);
    lemma_le_bytes(s, b, 85);
    lemma_le_bytes(s, b, 87);
}

/// A coding shred tells of its batch, whatever its index is, as soon as there is a first coding shred.
pub proof fn every_coding_shred_tells_of_its_batch(
    shred: ShredView,
    header: ShredCommonHeader,
    coding_header: CodingShredHeader,
)
    requires
        shred.headers == ShredHeaders::Code(header, coding_header),
    ensures
        coding_header.position <= header.index ==> (template_of(shred) matches Ok(t) && {
            &&& t.common_header == (ShredCommonHeader {
                index: (header.index - coding_header.position) as u32,
                ..header
            })
            &&& t.coding_header == (CodingShredHeader { position: 0, ..coding_header })
            &&& shred.chained_merkle_root() matches Ok(root) ==> t.chained_merkle_root == Some(root)
            &&& shred.chained_merkle_root() is Err ==> t.chained_merkle_root is None
            &&& shred.retransmitter_signature() matches Ok(signature) ==> t.retransmitter_signature
                == Some(signature)
            &&& shred.retransmitter_signature() is Err ==> t.retransmitter_signature is None
        }),
        coding_header.position > header.index ==> template_of(shred) == Err::<
            TemplateView,
            _,
        >(Error::Erasure(crate::error::ErasureError::InvalidIndex)),
{
}

/// The parts of the shred in position `i` of a batch.
proof fn lemma_parts_in_batch(full: Seq<ShredView>, i: int)
    requires
        is_leaders_batch(full),
        0 <= i < full.len(),
    ensures
        ({
            let shred = full[i];
            let (proof_size, resigned) = (
                full.last().common().shred_variant.entries(),
                full.last().common().shred_variant.signed_again(),
            );
            let at = tail_start(shred, proof_size, resigned);
            let s = shred.payload;
            &&& shred.sanitize() is Ok
            &&& shred.common().shred_variant.entries() == proof_size
            &&& shred.common().shred_variant.signed_again() == resigned
            &&& shred.chained_merkle_root() == Ok::<_, Error>(s.subrange(at, at + 32))
            &&& resigned ==> shred.retransmitter_signature() == Ok::<_, Error>(
                s.subrange(s.len() - 64, s.len() as int),
            )
            &&& !resigned ==> shred.retransmitter_signature() is Err
            &&& shred.merkle_node() == Ok::<_, Error>(leaf_hashes(full, proof_size, resigned)[i])
            &&& shred.erasure_shard() == Ok::<_, Error>(coded_bytes(full, proof_size, resigned)[i])
            &&& shred.merkle_proof() matches Ok(branch) && is_proof_at(
                s,
                at + 32,
                proof_size,
                branch,
            )
        }),
{
    if let ShredHeaders::Code(last, size) = full.last().headers {
        let proof_size = last.shred_variant.entries();
        let resigned = last.shred_variant.signed_again();
        if i < size.num_data_shreds {
            assert(is_data_in_batch(full[i], last, proof_size, resigned, i));
            if let ShredHeaders::Data(header, data_header) = full[i].headers {
                which_data_shreds_make_sense(full[i], header, data_header);
                parts_of_data_shreds(full[i], header, data_header, proof_size, resigned);
            }
        } else {
            assert(is_code_in_batch(
                full[i],
                last,
                size,
                proof_size,
                resigned,
                i - size.num_data_shreds,
            ));
            if let ShredHeaders::Code(header, coding_header) = full[i].headers {
                which_coding_shreds_make_sense(full[i], header, coding_header);
                parts_of_coding_shreds(full[i], header, coding_header, proof_size, resigned);
            }
        }
    }
}

/// The last shred of a batch tells what the batch is.
proof fn lemma_last_tells(full: Seq<ShredView>)
    requires
        is_leaders_batch(full),
    ensures
        template_of(full.last()) is Ok,
        ({
            let t = common_part(full);
            let last = full.last().headers->Code_0;
            let size = full.last().headers->Code_1;
            &&& t.num_data() == size.num_data_shreds
            &&& t.num_coding() == size.num_coding_shreds
            &&& full.len() == t.num_shards()
            &&& size.num_coding_shreds >= 1
            &&& is_of_one_batch(t.common_header, last)
            &&& t.common_header.shred_variant == last.shred_variant
            &&& t.common_header.index == last.index - size.position
            &&& t.coding_header == (CodingShredHeader { position: 0, ..size })
            &&& t.chained_merkle_root == Some(full.last().chained_merkle_root()->Ok_0)
            &&& t.retransmitter_signature == match full.last().retransmitter_signature() {
                Ok(signature) => Some(signature),
                Err(_) => None,
            }
        }),
{
    let n = full.len() - 1;
    if let ShredHeaders::Code(last, size) = full.last().headers {
        assert(full[n] == full.last());
        if n < size.num_data_shreds {
            assert(is_data_in_batch(
                full[n],
                last,
                last.shred_variant.entries(),
                last.shred_variant.signed_again(),
                n,
            ));
        }
        assert(is_code_in_batch(
            full[n],
            last,
            size,
            last.shred_variant.entries(),
            last.shred_variant.signed_again(),
            n - size.num_data_shreds,
        ));
        lemma_parts_in_batch(full, n);
        every_coding_shred_tells_of_its_batch(full.last(), last, size);
    }
}

/// The shred in position `i` of a batch is the one that the last shred tells of.
proof fn lemma_shred_at(full: Seq<ShredView>, i: int)
    requires
        is_leaders_batch(full),
        0 <= i < full.len(),
    ensures
        is_shred_at(common_part(full), full[i], i as nat),
{
    let t = common_part(full);
    lemma_last_tells(full);
    lemma_parts_in_batch(full, i);
    lemma_parts_in_batch(full, full.len() - 1);
    assert(full[full.len() - 1] == full.last());
    if let ShredHeaders::Code(last, size) = full.last().headers {
        let proof_size = last.shred_variant.entries();
        let resigned = last.shred_variant.signed_again();
        assert(ends_as_in_batch(full, proof_size, resigned, i));
        if i < size.num_data_shreds {
            assert(is_data_in_batch(full[i], last, proof_size, resigned, i));
            if let ShredHeaders::Data(header, data_header) = full[i].headers {
                lemma_data_front(full[i].payload, header, data_header);
                assert(fits_position(t, full[i], i as nat));
            }
        } else {
            assert(is_code_in_batch(
                full[i],
                last,
                size,
                proof_size,
                resigned,
                i - size.num_data_shreds,
            ));
            if let ShredHeaders::Code(header, coding_header) = full[i].headers {
                lemma_coding_front(full[i].payload, header, coding_header);
                assert(fits_position(t, full[i], i as nat));
            }
        }
    }
}

/// The headers of a data shred are read back from bytes that start with them.
proof fn lemma_data_front(s: Seq<u8>, header: ShredCommonHeader, data_header: DataShredHeader)
    requires
        starts_with_data_shred(s, header, data_header),
    ensures
        data_headers_of(s) == Ok::<_, ReadError>((header, data_header)),
{
    data_headers_are_read(s);
    let (found, found_data) = data_headers_of(s)->Ok_0;
    lemma_one_header(s, header, found);
    assert(found_data.flags == data_header.flags);
    assert(found_data == data_header);
}

/// A batch as a leader makes it is whole.
pub(crate) proof fn lemma_is_whole(full: Seq<ShredView>)
    requires
        is_leaders_batch(full),
    ensures
        is_whole_batch(full),
{
    let t = common_part(full);
    let proof_size = full.last().common().shred_variant.entries();
    let resigned = full.last().common().shred_variant.signed_again();
    lemma_last_tells(full);
    assert forall|i: int| 0 <= i < full.len() implies is_shred_at(
        t,
        #[trigger] full[i],
        i as nat,
    ) by {
        lemma_shred_at(full, i);
    }
    let leaves = leaf_hashes(full, proof_size, resigned);
    assert forall|i: int| 0 <= i < full.len() implies #[trigger] leaves[i] == leaves_in(full)[i] by {
        lemma_parts_in_batch(full, i);
    }
    assert(leaves_in(full) =~= leaves);
    assert forall|i: int| 0 <= i < full.len() implies #[trigger] coded_parts(full)[i] == coded_bytes(
        full,
        proof_size,
        resigned,
    )[i] by {
        lemma_parts_in_batch(full, i);
    }
    assert(coded_parts(full) =~= coded_bytes(full, proof_size, resigned));
    assert forall|i: int| 0 <= i < full.len() implies (#[trigger] full[i]).merkle_proof() == Ok::<
        _,
        Error,
    >(proof_path(leaves_in(full), i as nat)) by {
        lemma_parts_in_batch(full, i);
        assert(ends_as_in_batch(full, proof_size, resigned, i));
        let branch = full[i].merkle_proof()->Ok_0;
        let path = proof_path(leaves, i as nat);
        assert forall|k: int| 0 <= k < proof_size implies #[trigger] branch[k] == path[k] by {}
        assert(branch =~= path);
    }
}

/// Different shreds of a batch are in different positions.
pub(crate) proof fn lemma_is_some(shreds: Seq<ShredView>, full: Seq<ShredView>)
    requires
        is_leaders_batch(full),
        are_some_of(shreds, full),
    ensures
        is_whole_batch(full),
        some_of(shreds, full),
        common_part(full).num_data() == num_data_of(full),
        forall|i: int|
            0 <= i < full.len() ==> #[trigger] mask_of(shreds, full.len())[i] == shreds.contains(
                full[i],
            ),
{
    lemma_is_whole(full);
    lemma_last_tells(full);
    assert forall|j: int| 0 <= j < shreds.len() implies 0 <= position_of(#[trigger] shreds[j])
        < full.len() && full[position_of(shreds[j])] == shreds[j] by {
        let i = choose|i: int| 0 <= i < full.len() && full[i] == shreds[j];
        lemma_positions_order(full, i, i);
    }
    assert forall|j: int, k: int| 0 <= j < k < shreds.len() implies position_of(#[trigger] shreds[j])
        != position_of(#[trigger] shreds[k]) by {
        assert(shreds[j] != shreds[k]);
        assert(full[position_of(shreds[j])] == shreds[j]);
        assert(full[position_of(shreds[k])] == shreds[k]);
    }
    let c = choose|j: int| 0 <= j < shreds.len() && (#[trigger] shreds[j]).headers is Code;
    assert(shreds[c].kind() == ShredType::Code);
    assert forall|i: int| 0 <= i < full.len() implies #[trigger] mask_of(shreds, full.len())[i]
        == shreds.contains(full[i]) by {
        lemma_positions_order(full, i, i);
        if shreds.contains(full[i]) {
            let j = choose|j: int| 0 <= j < shreds.len() && shreds[j] == full[i];
            assert(shreds[j].erasure_shard_index() == Ok::<_, Error>(i as usize));
            assert(has_position(shreds, i));
        }
        if has_position(shreds, i) {
            let j = choose|j: int|
                0 <= j < shreds.len() && (#[trigger] shreds[j]).erasure_shard_index() == Ok::<
                    _,
                    Error,
                >(i as usize);
            assert(full[position_of(shreds[j])] == shreds[j]);
            assert(shreds.contains(full[i]));
        }
    }
}

/// Enough shreds of a batch are enough of a whole one.
pub(crate) proof fn lemma_is_enough(shreds: Seq<ShredView>, full: Seq<ShredView>)
    requires
        is_leaders_batch(full),
        are_enough_of(shreds, full),
    ensures
        is_whole_batch(full),
        enough_of(shreds, full),
        forall|i: int|
            0 <= i < full.len() ==> #[trigger] mask_of(shreds, full.len())[i] == shreds.contains(
                full[i],
            ),
{
    lemma_is_some(shreds, full);
}

/// The missing shreds are those that were lost.
pub(crate) proof fn lemma_missing_is_lost(
    full: Seq<ShredView>,
    shreds: Seq<ShredView>,
    mask: Seq<bool>,
    n: nat,
)
    requires
        n <= full.len(),
        forall|i: int|
            0 <= i < full.len() ==> #[trigger] mask[i] == shreds.contains(full[i]),
    ensures
        missing_of(full, mask, n).len() == lost_of(full, shreds, n).len(),
        forall|k: int|
            0 <= k < lost_of(full, shreds, n).len() ==> #[trigger] missing_of(full, mask, n)[k] == Ok::<
                _,
                Error,
            >(lost_of(full, shreds, n)[k]),
    decreases n,
{
    if n > 0 {
        lemma_missing_is_lost(full, shreds, mask, (n - 1) as nat);
        assert(mask[n - 1] == shreds.contains(full[n - 1]));
    }
}

/// The lost data shreds come first among the lost shreds, and are the data shreds among them.
pub(crate) proof fn lemma_lost_data_first(full: Seq<ShredView>, shreds: Seq<ShredView>, n: nat)
    requires
        is_leaders_batch(full),
        n <= full.len(),
    ensures
        ({
            let data = lost_of(full, shreds, num_data_of(full));
            let all = lost_of(full, shreds, n);
            &&& n >= num_data_of(full) ==> data.len() <= all.len() && (forall|k: int|
                0 <= k < data.len() ==> #[trigger] all[k] == data[k])
            &&& forall|k: int|
                0 <= k < all.len() ==> ((#[trigger] all[k]).headers is Data <==> k < data.len())
                    || n < num_data_of(full)
            &&& n <= num_data_of(full) ==> (forall|k: int|
                0 <= k < all.len() ==> (#[trigger] all[k]).headers is Data)
        }),
    decreases n,
{
    if n > 0 {
        lemma_lost_data_first(full, shreds, (n - 1) as nat);
        if let ShredHeaders::Code(last, size) = full.last().headers {
            let proof_size = last.shred_variant.entries();
            let resigned = last.shred_variant.signed_again();
            if n - 1 < size.num_data_shreds {
                assert(is_data_in_batch(full[n - 1], last, proof_size, resigned, n - 1));
            } else {
                assert(is_code_in_batch(
                    full[n - 1],
                    last,
                    size,
                    proof_size,
                    resigned,
                    n - 1 - size.num_data_shreds,
                ));
            }
        }
    }
}

/// What recovery of the data alone gives of a batch are the lost data shreds.
pub(crate) proof fn lemma_data_is_lost(
    full: Seq<ShredView>,
    shreds: Seq<ShredView>,
    data: Seq<ShredView>,
)
    requires
        is_leaders_batch(full),
        are_enough_of(shreds, full),
        are_missing_data(data, missing_of(full, mask_of(shreds, full.len()), full.len())),
    ensures
        data.len() == lost_of(full, shreds, num_data_of(full)).len(),
        forall|k: int|
            0 <= k < data.len() ==> is_lost_data(
                #[trigger] data[k],
                lost_of(full, shreds, num_data_of(full))[k],
            ),
{
    let mask = mask_of(shreds, full.len());
    lemma_is_enough(shreds, full);
    lemma_last_tells(full);
    lemma_missing_is_lost(full, shreds, mask, full.len());
    lemma_lost_data_first(full, shreds, full.len());
    lemma_data_among(
        missing_of(full, mask, full.len()),
        lost_of(full, shreds, full.len()),
        lost_of(full, shreds, num_data_of(full)),
        data,
    );
    assert forall|k: int| 0 <= k < data.len() implies is_lost_data(
        #[trigger] data[k],
        lost_of(full, shreds, num_data_of(full))[k],
    ) by {
        let lost = lost_of(full, shreds, num_data_of(full));
        assert(data[k].same_but_proof(lost[k]));
        lemma_lost_is_of_batch(full, shreds, num_data_of(full), k);
        let i = choose|i: int| 0 <= i < num_data_of(full) && #[trigger] full[i] == lost[k];
        lemma_same_bytes(full, i, data[k]);
    }
}

/// The data shreds among what was lost.
proof fn lemma_data_among(
    missing: Seq<Result<ShredView, Error>>,
    all: Seq<ShredView>,
    lost: Seq<ShredView>,
    data: Seq<ShredView>,
)
    requires
        are_missing_data(data, missing),
        missing.len() == all.len(),
        forall|k: int| 0 <= k < all.len() ==> #[trigger] missing[k] == Ok::<_, Error>(all[k]),
        lost.len() <= all.len(),
        forall|k: int| 0 <= k < lost.len() ==> #[trigger] all[k] == lost[k],
        forall|k: int|
            0 <= k < all.len() ==> ((#[trigger] all[k]).headers is Data <==> k < lost.len()),
    ensures
        data.len() == lost.len(),
        forall|k: int|
            0 <= k < data.len() ==> (#[trigger] data[k]).same_but_proof(lost[k])
                && lost[k].headers is Data,
{
    if data.len() < lost.len() {
        let k = data.len() as int;
        assert(missing[k] == Ok::<_, Error>(all[k]));
        assert(all[k].headers is Data);
    }
    assert forall|k: int| 0 <= k < data.len() implies k < lost.len() && (
    #[trigger] data[k]).same_but_proof(lost[k]) && lost[k].headers is Data by {
        assert(missing[k] == Ok::<_, Error>(all[k]));
        assert(data[k].headers == all[k].headers);
        assert(all[k].headers is Data);
        assert(all[k] == lost[k]);
    }
    if data.len() > lost.len() {
        assert(data[lost.len() as int] == data[lost.len() as int]);
    }
}

/// What was lost is of the batch.
proof fn lemma_lost_is_of_batch(full: Seq<ShredView>, shreds: Seq<ShredView>, n: nat, k: int)
    requires
        n <= full.len(),
        0 <= k < lost_of(full, shreds, n).len(),
    ensures
        exists|i: int| 0 <= i < n && #[trigger] full[i] == lost_of(full, shreds, n)[k],
    decreases n,
{
    if n > 0 {
        if k < lost_of(full, shreds, (n - 1) as nat).len() {
            lemma_lost_is_of_batch(full, shreds, (n - 1) as nat, k);
            let i = choose|i: int|
                0 <= i < n - 1 && #[trigger] full[i] == lost_of(full, shreds, (n - 1) as nat)[k];
            assert(full[i] == lost_of(full, shreds, n)[k]);
        } else {
            assert(full[n - 1] == lost_of(full, shreds, n)[k]);
        }
    }
}

/// A shred that differs from a data shred of a batch at most in the proof does so in numbers.
proof fn lemma_same_bytes(full: Seq<ShredView>, i: int, shred: ShredView)
    requires
        is_leaders_batch(full),
        0 <= i < full.len(),
        full[i].headers is Data,
        shred.same_but_proof(full[i]),
    ensures
        is_lost_data(shred, full[i]),
{
    if let ShredHeaders::Code(last, size) = full.last().headers {
        let proof_size = last.shred_variant.entries();
        let resigned = last.shred_variant.signed_again();
        if i >= size.num_data_shreds {
            assert(is_code_in_batch(
                full[i],
                last,
                size,
                proof_size,
                resigned,
                i - size.num_data_shreds,
            ));
        }
        assert(is_data_in_batch(full[i], last, proof_size, resigned, i));
        if let ShredHeaders::Data(header, data_header) = full[i].headers {
            parts_of_data_shreds(full[i], header, data_header, proof_size, resigned);
        }
    }
}

/// Enough shreds of a batch are never refused: their data are recovered, whatever the erasure code
/// computes.
pub proof fn enough_shreds_are_not_refused(shreds: Seq<ShredView>, full: Seq<ShredView>)
    requires
        is_leaders_batch(full),
        are_enough_of(shreds, full),
    ensures
        data_recovery_of(shreds) is Ok,
{
    lemma_is_enough(shreds, full);
    lemma_filled_ok(shreds, full);
    lemma_rebuilt_ok(shreds, full);
    lemma_data_recovered(shreds, common_part(full));
}

proof fn lemma_data_recovered(shreds: Seq<ShredView>, t: TemplateView)
    requires
        in_order(shreds).len() > 0,
        template_of(in_order(shreds).last()) == Ok::<_, Error>(t),
        batch_of(t, in_order(shreds)) is Ok,
        rebuilt(
            t,
            batch_of(t, in_order(shreds))->Ok_0,
            mask_of(in_order(shreds), t.num_shards()),
        ) is Ok,
    ensures
        data_recovery_of(shreds) is Ok,
{
}

/// Where the erasure code restores what it coded, the lost shreds of a batch come back from enough
/// others, in their order and byte for byte, and their data come back but for the proofs.
pub proof fn lost_shreds_come_back(shreds: Seq<ShredView>, full: Seq<ShredView>)
    requires
        is_leaders_batch(full),
        are_enough_of(shreds, full),
        restores_batch(common_part(full), in_order(shreds)),
    ensures
        ({
            let lost = lost_of(full, shreds, full.len());
            recovery_of(shreds) matches Ok(out) && out.len() == lost.len() && forall|k: int|
                0 <= k < lost.len() ==> #[trigger] out[k] == Ok::<_, Error>(lost[k])
        }),
        ({
            let lost = lost_of(full, shreds, num_data_of(full));
            data_recovery_of(shreds) matches Ok(data) && data.len() == lost.len() && forall|k: int|
                0 <= k < lost.len() ==> is_lost_data(#[trigger] data[k], lost[k])
        }),
{
    lemma_is_enough(shreds, full);
    recovery_gives_back_lost_shreds(shreds, full);
    lemma_missing_is_lost(full, shreds, mask_of(shreds, full.len()), full.len());
    data_recovery_gives_back_lost_data(shreds, full);
    lemma_data_is_lost(full, shreds, data_recovery_of(shreds)->Ok_0);
}

} // verus!
