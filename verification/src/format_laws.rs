//! The format of a shred in numbers: what each byte of it is, and how large its parts are.
use crate::Digest;
use crate::bytes_util::{
    le_u16, le_u32, le_u64, lemma_array_of_view, splice, u16_le_bytes, u32_le_bytes, u64_le_bytes,
};
use crate::crypto::{concat, sha256};
use crate::error::{Error, ReadError};
use crate::flags::{ShredFlags, DATA_COMPLETE_SHRED, LAST_SHRED_IN_SLOT, SHRED_TICK_REFERENCE_MASK};
use crate::geometry::{
    capacity_of, chained_offset_of, headers_size, params_of, payload_size, proof_offset_of,
    retransmitter_offset_of, shard_start,
};
use crate::header::{
    coding_headers_bytes, coding_headers_of, data_headers_of, CodingShredHeader, ShredCommonHeader,
};
use crate::merkle_tree::{
    all_digests, climb, joined, parents, proof_path, proof_walk, root_of_proof, tree_nodes,
    tree_root, tree_size, MERKLE_HASH_PREFIX_LEAF, MERKLE_HASH_PREFIX_NODE,
};
use crate::model::{data_of, node_of, part_of, proof_of};
use crate::shred_type::{type_byte, variant_of_byte, ShredType, ShredVariant};
use vstd::prelude::*;

verus! {

/// An integer in bytes starts with its lowest byte.
pub proof fn integers_are_little_endian(s: Seq<u8>, at: int)
    ensures
        le_u16(s, at) == s[at] + 256 * s[at + 1],
        le_u32(s, at) == s[at] + 256 * s[at + 1] + 65_536 * s[at + 2] + 16_777_216 * s[at + 3],
        le_u64(s, at) == s[at] + 256 * s[at + 1] + 65_536 * s[at + 2] + 16_777_216 * s[at + 3]
            + 4_294_967_296 * (s[at + 4] + 256 * s[at + 5] + 65_536 * s[at + 6] + 16_777_216
            * s[at + 7]),
{
}

/// The bytes of an integer add up to it.
pub proof fn integers_are_written_little_endian(x: u16, y: u32, z: u64)
    ensures
        u16_le_bytes(x).len() == 2,
        u32_le_bytes(y).len() == 4,
        u64_le_bytes(z).len() == 8,
        le_u16(u16_le_bytes(x), 0) == x,
        le_u32(u32_le_bytes(y), 0) == y,
        le_u64(u64_le_bytes(z), 0) == z,
{
    crate::bytes_util::lemma_le_u16_round_trip(x);
    crate::bytes_util::lemma_le_u32_round_trip(y);
    crate::bytes_util::lemma_le_u64_round_trip(z);
}

/// Overwriting bytes changes those and no others.
pub proof fn overwriting_changes_nothing_else(s: Seq<u8>, at: int, b: Seq<u8>)
    requires
        0 <= at,
        at + b.len() <= s.len(),
    ensures
        splice(s, at, b) == s.take(at) + b + s.skip(at + b.len()),
{
    assert(splice(s, at, b) =~= s.take(at) + b + s.skip(at + b.len()));
}

/// The variant byte: the upper four bits tell the type and whether there is a retransmitter's
/// signature, the lower four how many entries the Merkle proof has. No other byte is one.
pub proof fn variant_bytes(byte: u8)
    ensures
        variant_of_byte(byte) == if 0x60 <= byte < 0x70 {
            Some(ShredVariant::MerkleCode { proof_size: (byte - 0x60) as u8, resigned: false })
        } else if 0x70 <= byte < 0x80 {
            Some(ShredVariant::MerkleCode { proof_size: (byte - 0x70) as u8, resigned: true })
        } else if 0x90 <= byte < 0xa0 {
            Some(ShredVariant::MerkleData { proof_size: (byte - 0x90) as u8, resigned: false })
        } else if 0xb0 <= byte < 0xc0 {
            Some(ShredVariant::MerkleData { proof_size: (byte - 0xb0) as u8, resigned: true })
        } else {
            None
        },
{
    assert(byte & 0x0F == byte % 16) by (bit_vector);
    assert(byte & 0xF0 == byte / 16 * 16) by (bit_vector);
}

/// The byte that a variant is written as, and what a variant tells.
pub proof fn variants_are_written(proof_size: u8, resigned: bool)
    requires
        proof_size < 16,
    ensures
        ({
            let code = ShredVariant::MerkleCode { proof_size, resigned };
            let data = ShredVariant::MerkleData { proof_size, resigned };
            &&& code.byte() == proof_size + if resigned {
                0x70int
            } else {
                0x60
            }
            &&& data.byte() == proof_size + if resigned {
                0xb0int
            } else {
                0x90
            }
            &&& code.kind() == ShredType::Code && data.kind() == ShredType::Data
            &&& code.entries() == proof_size && data.entries() == proof_size
            &&& code.signed_again() == resigned && data.signed_again() == resigned
        }),
        type_byte(ShredType::Data) == 0xa5,
        type_byte(ShredType::Code) == 0x5a,
{
    assert(proof_size < 16 ==> proof_size | 0x60 == proof_size + 0x60) by (bit_vector);
    assert(proof_size < 16 ==> proof_size | 0x70 == proof_size + 0x70) by (bit_vector);
    assert(proof_size < 16 ==> proof_size | 0x90 == proof_size + 0x90) by (bit_vector);
    assert(proof_size < 16 ==> proof_size | 0xb0 == proof_size + 0xb0) by (bit_vector);
}

/// What only a variant of the type of the shred tells.
pub proof fn variants_tell_their_own_type(proof_size: u8, resigned: bool)
    ensures
        ({
            let code = ShredVariant::MerkleCode { proof_size, resigned };
            let data = ShredVariant::MerkleData { proof_size, resigned };
            &&& params_of(ShredType::Code, code) == Ok::<_, Error>((proof_size, resigned))
            &&& params_of(ShredType::Data, data) == Ok::<_, Error>((proof_size, resigned))
            &&& params_of(ShredType::Data, code) == Err::<(u8, bool), _>(Error::InvalidShredVariant)
            &&& params_of(ShredType::Code, data) == Err::<(u8, bool), _>(Error::InvalidShredVariant)
        }),
{
}

/// How many bytes stand behind the last byte of data or code: the Merkle root of the previous batch,
/// the proof, and the retransmitter's signature if there is one.
pub open spec fn tail_size(proof_size: u8, resigned: bool) -> int {
    32 + 20 * proof_size + if resigned {
        64int
    } else {
        0
    }
}

/// Where the parts of a data shred lie: it has 1203 bytes, of which the first 88 are headers and those
/// behind the signature are erasure coded.
pub proof fn layout_of_data_shreds(proof_size: u8, resigned: bool)
    ensures
        payload_size(ShredType::Data) == 1203,
        headers_size(ShredType::Data) == 88,
        shard_start(ShredType::Data) == 64,
        ({
            let tail = tail_size(proof_size, resigned);
            if tail <= 1203 - 88 {
                &&& capacity_of(ShredType::Data, proof_size, resigned) == Ok::<_, Error>(
                    (1203 - 88 - tail) as usize,
                )
                &&& chained_offset_of(ShredType::Data, proof_size, resigned) == Ok::<_, Error>(
                    (1203 - tail) as usize,
                )
                &&& proof_offset_of(ShredType::Data, proof_size, resigned) == Ok::<_, Error>(
                    (1203 - tail + 32) as usize,
                )
                &&& resigned ==> retransmitter_offset_of(ShredType::Data, proof_size, resigned)
                    == Ok::<_, Error>(1139usize)
            } else {
                let e = Err::<usize, _>(Error::InvalidProofSize(proof_size));
                &&& capacity_of(ShredType::Data, proof_size, resigned) == e
                &&& chained_offset_of(ShredType::Data, proof_size, resigned) == e
                &&& proof_offset_of(ShredType::Data, proof_size, resigned) == e
                &&& resigned ==> retransmitter_offset_of(ShredType::Data, proof_size, resigned) == e
            }
        }),
        !resigned ==> retransmitter_offset_of(ShredType::Data, proof_size, resigned) == Err::<
            usize,
            _,
        >(Error::InvalidShredVariant),
{
}

/// Where the parts of a coding shred lie: it has 1228 bytes, of which the first 89 are headers and
/// are not erasure code.
pub proof fn layout_of_coding_shreds(proof_size: u8, resigned: bool)
    ensures
        payload_size(ShredType::Code) == 1228,
        headers_size(ShredType::Code) == 89,
        shard_start(ShredType::Code) == 89,
        ({
            let tail = tail_size(proof_size, resigned);
            if tail <= 1228 - 89 {
                &&& capacity_of(ShredType::Code, proof_size, resigned) == Ok::<_, Error>(
                    (1228 - 89 - tail) as usize,
                )
                &&& chained_offset_of(ShredType::Code, proof_size, resigned) == Ok::<_, Error>(
                    (1228 - tail) as usize,
                )
                &&& proof_offset_of(ShredType::Code, proof_size, resigned) == Ok::<_, Error>(
                    (1228 - tail + 32) as usize,
                )
                &&& resigned ==> retransmitter_offset_of(ShredType::Code, proof_size, resigned)
                    == Ok::<_, Error>(1164usize)
            } else {
                let e = Err::<usize, _>(Error::InvalidProofSize(proof_size));
                &&& capacity_of(ShredType::Code, proof_size, resigned) == e
                &&& chained_offset_of(ShredType::Code, proof_size, resigned) == e
                &&& proof_offset_of(ShredType::Code, proof_size, resigned) == e
                &&& resigned ==> retransmitter_offset_of(ShredType::Code, proof_size, resigned) == e
            }
        }),
        !resigned ==> retransmitter_offset_of(ShredType::Code, proof_size, resigned) == Err::<
            usize,
            _,
        >(Error::InvalidShredVariant),
{
}

/// Whether the first 83 bytes of `s` are a common header: the signature, the variant byte, the slot,
/// the index, the version and the index of the batch.
pub open spec fn starts_with(s: Seq<u8>, header: ShredCommonHeader) -> bool {
    &&& s.len() >= 83
    &&& s.take(64) == header.signature@
    &&& header.shred_variant == (match header.shred_variant {
        ShredVariant::MerkleCode { resigned: false, .. } => ShredVariant::MerkleCode {
            proof_size: (s[64] - 0x60) as u8,
            resigned: false,
        },
        ShredVariant::MerkleCode { resigned: true, .. } => ShredVariant::MerkleCode {
            proof_size: (s[64] - 0x70) as u8,
            resigned: true,
        },
        ShredVariant::MerkleData { resigned: false, .. } => ShredVariant::MerkleData {
            proof_size: (s[64] - 0x90) as u8,
            resigned: false,
        },
        ShredVariant::MerkleData { resigned: true, .. } => ShredVariant::MerkleData {
            proof_size: (s[64] - 0xb0) as u8,
            resigned: true,
        },
    })
    &&& match header.shred_variant {
        ShredVariant::MerkleCode { resigned: false, .. } => 0x60 <= s[64] < 0x70,
        ShredVariant::MerkleCode { resigned: true, .. } => 0x70 <= s[64] < 0x80,
        ShredVariant::MerkleData { resigned: false, .. } => 0x90 <= s[64] < 0xa0,
        ShredVariant::MerkleData { resigned: true, .. } => 0xb0 <= s[64] < 0xc0,
    }
    &&& le_u64(s, 65) == header.slot
    &&& le_u32(s, 73) == header.index
    &&& le_u16(s, 77) == header.version
    &&& le_u32(s, 79) == header.fec_set_index
}

/// Whether a byte is the variant byte of a data or a coding shred.
pub open spec fn is_variant_byte(byte: u8) -> bool {
    0x60 <= byte < 0x80 || 0x90 <= byte < 0xa0 || 0xb0 <= byte < 0xc0
}

/// The headers of a data shred are read from its first 88 bytes, and only a variant byte that is none
/// or too few bytes can stop that.
pub proof fn data_headers_are_read(s: Seq<u8>)
    ensures
        match data_headers_of(s) {
            Ok((header, data_header)) => {
                &&& s.len() >= 88
                &&& starts_with(s, header)
                &&& data_header.parent_offset == le_u16(s, 83)
                &&& data_header.flags.bits == s[85]
                &&& data_header.size == le_u16(s, 86)
            },
            Err(ReadError::ReadSizeLimit(n)) => s.len() < 88 && n == 88,
            Err(ReadError::InvalidTagEncoding(n)) => s.len() >= 88 && n == s[64]
                && !is_variant_byte(s[64]),
        },
{
    if s.len() >= 88 {
        variant_bytes(s[64]);
        lemma_array_of_view::<64>(s.subrange(0, 64));
    }
}

/// The headers of a coding shred are read from its first 89 bytes, and only a variant byte that is
/// none or too few bytes can stop that.
pub proof fn coding_headers_are_read(s: Seq<u8>)
    ensures
        match coding_headers_of(s) {
            Ok((header, coding_header)) => {
                &&& s.len() >= 89
                &&& starts_with(s, header)
                &&& coding_header.num_data_shreds == le_u16(s, 83)
                &&& coding_header.num_coding_shreds == le_u16(s, 85)
                &&& coding_header.position == le_u16(s, 87)
            },
            Err(ReadError::ReadSizeLimit(n)) => s.len() < 89 && n == 89,
            Err(ReadError::InvalidTagEncoding(n)) => s.len() >= 89 && n == s[64]
                && !is_variant_byte(s[64]),
        },
{
    if s.len() >= 89 {
        variant_bytes(s[64]);
        lemma_array_of_view::<64>(s.subrange(0, 64));
    }
}

/// A part of a shred is the bytes in its place, and it is there whenever the shred is long enough.
pub proof fn parts_are_the_bytes_in_their_place(s: Seq<u8>, start: int, len: int)
    requires
        0 <= start,
        0 <= len,
        s.len() <= usize::MAX,
    ensures
        match part_of(s, start, len) {
            Ok(part) => {
                &&& start + len <= s.len()
                &&& part.len() == len
                &&& forall|i: int| 0 <= i < len ==> #[trigger] part[i] == s[start + i]
            },
            Err(e) => start + len > s.len() && e == Error::InvalidPayloadSize(s.len() as usize),
        },
{
}

/// A Merkle proof is as many groups of 20 bytes as the variant tells.
pub proof fn proofs_are_groups_of_20_bytes(s: Seq<u8>, offset: int, proof_size: u8)
    requires
        0 <= offset,
        s.len() <= usize::MAX,
    ensures
        match proof_of(s, offset, proof_size) {
            Ok(branch) => {
                &&& offset + 20 * proof_size <= s.len()
                &&& branch.len() == proof_size
                &&& forall|i: int, j: int|
                    0 <= i < proof_size && 0 <= j < 20 ==> (#[trigger] branch[i]).len() == 20
                        && #[trigger] branch[i][j] == s[offset + 20 * i + j]
            },
            Err(e) => offset + 20 * proof_size > s.len() && e == Error::InvalidPayloadSize(
                s.len() as usize,
            ),
        },
{
}

/// The data of a data shred are the bytes from 88 up to the size that its header tells, for every size
/// that leaves room for the headers, the proof and the rest.
pub proof fn data_are_the_bytes_behind_the_headers(
    s: Seq<u8>,
    proof_size: u8,
    resigned: bool,
    size: u16,
)
    requires
        s.len() <= usize::MAX,
    ensures
        match data_of(s, proof_size, resigned, size) {
            Ok(data) => {
                &&& 88 <= size <= s.len()
                &&& size + tail_size(proof_size, resigned) <= 1203
                &&& data.len() == size - 88
                &&& forall|i: int| 0 <= i < data.len() ==> #[trigger] data[i] == s[88 + i]
            },
            Err(Error::InvalidProofSize(p)) => p == proof_size && 88 + tail_size(proof_size, resigned)
                > 1203,
            Err(Error::InvalidDataSize { size: told, payload }) => {
                &&& told == size && payload == s.len()
                &&& 88 + tail_size(proof_size, resigned) <= 1203
                &&& size < 88 || size > s.len() || size + tail_size(proof_size, resigned) > 1203
            },
            Err(_) => false,
        },
{
}

/// The bytes that the hash of a leaf starts with: zero, and the name of the purpose.
pub open spec fn leaf_prefix() -> Seq<u8> {
    seq![
        0u8, 83, 79, 76, 65, 78, 65, 95, 77, 69, 82, 75, 76, 69, 95, 83, 72, 82, 69, 68, 83, 95, 76, 69,
        65, 70,
    ]
}

/// The bytes that the hash of an inner node starts with: one, and the name of the purpose.
pub open spec fn node_prefix() -> Seq<u8> {
    seq![
        1u8, 83, 79, 76, 65, 78, 65, 95, 77, 69, 82, 75, 76, 69, 95, 83, 72, 82, 69, 68, 83, 95, 78, 79,
        68, 69,
    ]
}

/// A leaf of the Merkle tree is the hash of the bytes of the shred behind the signature up to the
/// proof; a node is the hash of the first 20 bytes of each of its children.
pub proof fn leaves_and_nodes_are_hashes(s: Seq<u8>, end: int, left: Seq<u8>, right: Seq<u8>)
    requires
        64 <= end <= s.len(),
        left.len() >= 20,
        right.len() >= 20,
    ensures
        node_of(s, 64, end) == Ok::<_, Error>(sha256(leaf_prefix() + s.subrange(64, end))),
        joined(left, right) == sha256(node_prefix() + left.take(20) + right.take(20)),
{
    assert(MERKLE_HASH_PREFIX_LEAF@ =~= leaf_prefix());
    assert(MERKLE_HASH_PREFIX_NODE@ =~= node_prefix());
    assert(crate::merkle_tree::proof_entry(left) =~= left.take(20));
    assert(crate::merkle_tree::proof_entry(right) =~= right.take(20));
}

/// Each level of a Merkle tree joins the nodes of the one below two by two, the last one of an odd
/// number with itself; the nodes of a tree are those of all levels, and the root is alone on the last.
pub proof fn levels_of_a_tree(level: Seq<Seq<u8>>, i: int)
    requires
        level.len() >= 2,
        0 <= 2 * i < level.len(),
    ensures
        2 * parents(level).len() == level.len() || 2 * parents(level).len() == level.len() + 1,
        2 * i + 1 < level.len() ==> parents(level)[i] == joined(level[2 * i], level[2 * i + 1]),
        2 * i + 1 == level.len() ==> parents(level)[i] == joined(level[2 * i], level[2 * i]),
        tree_nodes(level) == level + tree_nodes(parents(level)),
        tree_root(level) == tree_root(parents(level)),
        tree_nodes(level.take(1)) == level.take(1),
        tree_root(level.take(1)) == level[0],
        tree_nodes(level.take(0)) == level.take(0),
{
}

/// A proof holds the first 20 bytes of the other child of each node on the way to the root.
pub proof fn proofs_hold_the_siblings(level: Seq<Seq<u8>>, i: nat)
    requires
        i < level.len(),
    ensures
        level.len() == 1 ==> proof_path(level, i).len() == 0,
        level.len() >= 2 ==> ({
            let other = if i % 2 == 1 {
                i - 1
            } else if i + 1 == level.len() {
                i as int
            } else {
                (i + 1) as int
            };
            &&& proof_path(level, i).len() > 0
            &&& level[other].len() >= 20 ==> proof_path(level, i)[0] == level[other].take(20)
            &&& proof_path(level, i).drop_first() == proof_path(parents(level), i / 2)
        }),
{
    if level.len() >= 2 {
        let other = level[crate::merkle_tree::sibling(i, level.len()) as int];
        if other.len() >= 20 {
            assert(crate::merkle_tree::proof_entry(other) =~= other.take(20));
        }
        assert(proof_path(level, i).drop_first() =~= proof_path(parents(level), i / 2));
    }
}

/// A proof is climbed entry by entry, the node left of the entry where its index is even; it must end
/// with index zero.
pub proof fn proofs_are_climbed(index: nat, node: Seq<u8>, branch: Seq<Seq<u8>>)
    ensures
        branch.len() == 0 ==> climb(index, node, branch) == (index, node),
        branch.len() > 0 && index % 2 == 0 ==> climb(index, node, branch) == climb(
            index / 2,
            joined(node, branch[0]),
            branch.drop_first(),
        ),
        branch.len() > 0 && index % 2 == 1 ==> climb(index, node, branch) == climb(
            index / 2,
            joined(branch[0], node),
            branch.drop_first(),
        ),
        root_of_proof(index, node, branch) == if climb(index, node, branch).0 == 0 {
            Ok(climb(index, node, branch).1)
        } else {
            Err(Error::InvalidMerkleProof)
        },
{
}

/// What the first 89 bytes of a coding shred are, is what its headers are read back as.
pub proof fn coding_headers_are_written(header: ShredCommonHeader, coding_header: CodingShredHeader)
    requires
        match header.shred_variant {
            ShredVariant::MerkleCode { proof_size, .. } => proof_size < 16,
            ShredVariant::MerkleData { proof_size, .. } => proof_size < 16,
        },
    ensures
        ({
            let s = coding_headers_bytes(header, coding_header);
            &&& s.len() == 89
            &&& starts_with(s, header)
            &&& le_u16(s, 83) == coding_header.num_data_shreds
            &&& le_u16(s, 85) == coding_header.num_coding_shreds
            &&& le_u16(s, 87) == coding_header.position
        }),
{
    let s = coding_headers_bytes(header, coding_header);
    assert(s.subrange(0, 89) =~= s);
    crate::header::coding_headers_round_trip(header, coding_header, s);
    coding_headers_are_read(s);
}

/// The flags byte: six bits of reference tick, one bit for complete data, and both upper bits for the
/// last shred of a slot.
pub proof fn flags_are_bits(flags: ShredFlags)
    ensures
        flags.has(DATA_COMPLETE_SHRED) <==> flags.bits % 128 >= 64,
        flags.has(LAST_SHRED_IN_SLOT) <==> flags.bits >= 192,
        flags.bits & SHRED_TICK_REFERENCE_MASK == flags.bits % 64,
        SHRED_TICK_REFERENCE_MASK == 63,
{
    let bits = flags.bits;
    assert(bits & 0b0100_0000 == 0b0100_0000 <==> bits % 128 >= 64) by (bit_vector);
    assert(bits & 0b1100_0000 == 0b1100_0000 <==> bits >= 192) by (bit_vector);
    assert(bits & 0b0011_1111 == bits % 64) by (bit_vector);
}

/// Parts are hashed one behind the other.
pub proof fn parts_are_hashed_in_order(parts: Seq<&[u8]>, part: &[u8])
    ensures
        concat(Seq::<&[u8]>::empty()) == Seq::<u8>::empty(),
        concat(parts.push(part)) == concat(parts) + part@,
{
    assert(parts.push(part).drop_last() =~= parts);
}

/// The number of nodes of a tree: those of the leaves, of half as many parents, and so on.
pub proof fn nodes_are_counted_by_levels(n: nat)
    ensures
        tree_size(0) == 0,
        tree_size(1) == 1,
        n >= 2 ==> tree_size(n) == n + tree_size((n + 1) / 2),
{
}

/// The leaves of a tree are the given digests, all of them, or the first error comes back.
pub proof fn leaves_are_the_given_digests(nodes: Seq<Result<Digest, Error>>)
    ensures
        all_digests(Seq::empty()) == Ok::<_, Error>(Seq::<Seq<u8>>::empty()),
        nodes.len() > 0 && all_digests(nodes.drop_last()) is Err ==> all_digests(nodes) == all_digests(
            nodes.drop_last(),
        ),
        all_digests(nodes) is Ok ==> ({
            let all = all_digests(nodes)->Ok_0;
            all.len() == nodes.len() && forall|i: int|
                0 <= i < nodes.len() ==> (#[trigger] nodes[i] matches Ok(node) && node@ == all[i])
        }),
        all_digests(nodes) is Err ==> exists|i: int|
            0 <= i < nodes.len() && (#[trigger] nodes[i] matches Err(e) && all_digests(nodes) == Err::<
                Seq<Seq<u8>>,
                _,
            >(e)),
    decreases nodes.len(),
{
    if nodes.len() > 0 {
        leaves_are_the_given_digests(nodes.drop_last());
        let before = all_digests(nodes.drop_last());
        if before is Ok {
            assert(nodes[nodes.len() - 1] == nodes.last());
            if all_digests(nodes) is Ok {
                let all = all_digests(nodes)->Ok_0;
                assert forall|i: int| 0 <= i < nodes.len() implies (#[trigger] nodes[i] matches Ok(node)
                    && node@ == all[i]) by {
                    if i < nodes.len() - 1 {
                        assert(nodes.drop_last()[i] == nodes[i]);
                    }
                }
            }
        } else {
            let i = choose|i: int|
                0 <= i < nodes.len() - 1 && (#[trigger] nodes.drop_last()[i] matches Err(e)
                    && all_digests(nodes.drop_last()) == Err::<Seq<Seq<u8>>, _>(e));
            assert(nodes[i] == nodes.drop_last()[i]);
        }
    }
}

/// What is read off nodes as a proof are the first 20 bytes of siblings, and it is a proof only if the
/// nodes are as many as a tree of that size has.
pub proof fn proofs_are_read_off_nodes(nodes: Seq<Seq<u8>>, offset: nat, i: nat, size: nat)
    requires
        i < size,
    ensures
        proof_walk(nodes, offset, i, size) is Some ==> offset + tree_size(size) == nodes.len(),
        offset + tree_size(size) == nodes.len() ==> proof_walk(nodes, offset, i, size) is Some,
        size >= 2 && proof_walk(nodes, offset, i, size) is Some ==> ({
            let path = proof_walk(nodes, offset, i, size)->0;
            let other = offset + if i % 2 == 1 {
                i - 1
            } else if i + 1 == size {
                i as int
            } else {
                (i + 1) as int
            };
            &&& path.len() > 0
            &&& nodes[other].len() >= 20 ==> path[0] == nodes[other].take(20)
            &&& proof_walk(nodes, offset + size, i / 2, (size + 1) / 2) == Some(path.drop_first())
        }),
        size == 1 && offset + 1 == nodes.len() ==> proof_walk(nodes, offset, i, size) == Some(
            Seq::<Seq<u8>>::empty(),
        ),
    decreases size,
{
    if size >= 2 {
        proofs_are_read_off_nodes(nodes, offset + size, i / 2, (size + 1) / 2);
        crate::merkle_tree::lemma_tree_size((size + 1) / 2);
        if proof_walk(nodes, offset, i, size) is Some {
            let path = proof_walk(nodes, offset, i, size)->0;
            let at = offset + crate::merkle_tree::sibling(i, size);
            if nodes[at as int].len() >= 20 {
                assert(crate::merkle_tree::proof_entry(nodes[at as int]) =~= nodes[at as int].take(20));
            }
            assert(path.drop_first() =~= proof_walk(nodes, offset + size, i / 2, (size + 1) / 2)->0);
        }
    }
}

} // verus!
