//! Reading and writing the Merkle proof and the other parts of a payload.
use crate::{merkle_tree, Digest, SIZE_OF_SIGNATURE};
use crate::bytes_util::{read_array, splice};
use crate::crypto::{hashv, lemma_concat_2};
use crate::error::{Error, IoError};
use crate::merkle_tree::{
    digest_or_error, entries, MerkleProofEntry, MERKLE_HASH_PREFIX_LEAF,
    SIZE_OF_MERKLE_PROOF_ENTRY,
};
use crate::model::{array_or_error, node_of, part_of, passed, proof_of, root_of};
use crate::payload::Payload;
use vstd::prelude::*;

verus! {

/// The bytes of proof entries, or the error in their place.
pub open spec fn entries_or_error(branch: Result<Vec<MerkleProofEntry>, Error>) -> Result<
    Seq<Seq<u8>>,
    Error,
> {
    match branch {
        Ok(branch) => Ok(entries(branch@)),
        Err(e) => Err(e),
    }
}

/// The bytes of a slice, or the error in its place.
pub open spec fn slice_or_error(slice: Result<&[u8], Error>) -> Result<Seq<u8>, Error> {
    match slice {
        Ok(slice) => Ok(slice@),
        Err(e) => Err(e),
    }
}

/// Proof entries in a row.
pub open spec fn flat(branch: Seq<Seq<u8>>) -> Seq<u8> {
    Seq::new(
        branch.len() * SIZE_OF_MERKLE_PROOF_ENTRY as nat,
        |i: int|
            branch[i / (SIZE_OF_MERKLE_PROOF_ENTRY as int)][i % (SIZE_OF_MERKLE_PROOF_ENTRY as int)],
    )
}

/// The part of `branch` that is written to a payload with room for a proof of `proof_size` entries
/// and `room` bytes from the start of the proof on.
pub open spec fn written_proof(branch: Seq<Seq<u8>>, proof_size: u8, room: nat) -> Seq<u8> {
    let stream = if branch.len() > proof_size {
        flat(branch.take(proof_size as int))
    } else {
        flat(branch)
    };
    if stream.len() > room {
        stream.take(room as int)
    } else {
        stream
    }
}

/// What writing a proof to such a payload gives.
pub open spec fn write_proof_result(branch: Seq<Seq<u8>>, proof_size: u8, room: nat) -> Result<
    (),
    Error,
> {
    let written = if branch.len() > proof_size {
        proof_size as nat
    } else {
        branch.len()
    };
    if written * SIZE_OF_MERKLE_PROOF_ENTRY > room {
        Err(Error::Io(IoError::WriteZero))
    } else if branch.len() != proof_size {
        Err(Error::InvalidMerkleProof)
    } else {
        Ok(())
    }
}

/// Copies `N` bytes of a payload.
pub(crate) fn get_part<const N: usize>(shred: &[u8], offset: usize) -> (part: Result<[u8; N], Error>)
    requires
        offset + N <= usize::MAX,
    ensures
        array_or_error(part) == part_of(shred@, offset as int, N as int),
{
    if offset + N <= shred.len() {
        Ok(read_array::<N>(shred, offset))
    } else {
        Err(Error::InvalidPayloadSize(shred.len()))
    }
}

/// Overwrites bytes of a payload.
pub(crate) fn set_part(payload: &mut Payload, offset: usize, bytes: &[u8]) -> (done: Result<(), Error>)
    requires
        offset + bytes.len() <= usize::MAX,
    ensures
        done == passed(part_of(old(payload)@, offset as int, bytes@.len() as int)),
        final(payload)@ == if done is Ok {
            splice(old(payload)@, offset as int, bytes@)
        } else {
            old(payload)@
        },
{
    let len: usize = payload.as_slice().len();
    let Some(mut buffer) = payload.get_mut(offset..offset + bytes.len()) else {
        return Err(Error::InvalidPayloadSize(len));
    };
    buffer.copy_from_slice(bytes);
    payload.share();
    Ok(())
}

/// The Merkle proof of `proof_size` entries at the given offset.
pub(crate) fn get_merkle_proof(shred: &[u8], proof_offset: usize, proof_size: u8) -> (branch:
    Result<Vec<MerkleProofEntry>, Error>)
    requires
        proof_offset + proof_size * SIZE_OF_MERKLE_PROOF_ENTRY <= usize::MAX,
    ensures
        entries_or_error(branch) == proof_of(shred@, proof_offset as int, proof_size),
{
    let proof_bytes: usize = (proof_size as usize) * SIZE_OF_MERKLE_PROOF_ENTRY;
    if proof_offset + proof_bytes > shred.len() {
        return Err(Error::InvalidPayloadSize(shred.len()));
    }
    let ghost whole = proof_of(shred@, proof_offset as int, proof_size)->Ok_0;
    let mut branch: Vec<MerkleProofEntry> = Vec::new();
    let mut k: usize = 0;
    while k < proof_size as usize
        invariant
            k <= proof_size,
            k == branch.len(),
            proof_offset + proof_size * SIZE_OF_MERKLE_PROOF_ENTRY <= shred.len(),
            proof_of(shred@, proof_offset as int, proof_size) == Ok::<_, Error>(whole),
            entries(branch@) =~= whole.take(k as int),
        decreases proof_size - k,
    {
        let entry = read_array::<20>(shred, proof_offset + k * SIZE_OF_MERKLE_PROOF_ENTRY);
        let ghost before = branch@;
        branch.push(entry);
        proof {
            assert(entries(branch@) =~= entries(before).push(entry@));
            assert(entry@ == whole[k as int]);
        }
        k += 1;
    }
    assert(whole.take(k as int) =~= whole);
    Ok(branch)
}

/// The leaf of the Merkle tree for the bytes of a shred from `start` up to `end`.
pub(crate) fn get_merkle_node(shred: &[u8], start: usize, end: usize) -> (node: Result<
    Digest,
    Error,
>)
    ensures
        digest_or_error(node) == node_of(shred@, start as int, end as int),
{
    if start > end || end > shred.len() {
        return Err(Error::InvalidPayloadSize(shred.len()));
    }
    let prefix = MERKLE_HASH_PREFIX_LEAF;
    let parts: [&[u8]; 2] = [prefix.as_slice(), &shred[start..end]];
    proof {
        lemma_concat_2(parts@);
    }
    Ok(hashv(parts.as_slice()))
}

/// The root that the proof and the leaf of a shred lead to.
pub(crate) fn get_merkle_root(shred: &[u8], index: usize, proof_offset: usize, proof_size: u8) -> (root:
    Result<Digest, Error>)
    requires
        proof_offset + proof_size * SIZE_OF_MERKLE_PROOF_ENTRY <= usize::MAX,
    ensures
        digest_or_error(root) == root_of(shred@, index as nat, proof_offset as int, proof_size),
{
    let branch = match get_merkle_proof(shred, proof_offset, proof_size) {
        Ok(branch) => branch,
        Err(e) => return Err(e),
    };
    let node = match get_merkle_node(shred, SIZE_OF_SIGNATURE, proof_offset) {
        Ok(node) => node,
        Err(e) => return Err(e),
    };
    merkle_tree::get_merkle_root(index, node, branch.as_slice())
}

/// Writes a proof to the payload of a shred.
pub(crate) fn set_proof(
    payload: &mut Payload,
    proof_offset: usize,
    proof_size: u8,
    branch: &[MerkleProofEntry],
) -> (done: Result<(), Error>)
    requires
        proof_offset <= old(payload)@.len(),
    ensures
        done == write_proof_result(
            entries(branch@),
            proof_size,
            (old(payload)@.len() - proof_offset) as nat,
        ),
        final(payload)@ == splice(
            old(payload)@,
            proof_offset as int,
            written_proof(
                entries(branch@),
                proof_size,
                (old(payload)@.len() - proof_offset) as nat,
            ),
        ),
{
    let room: usize = payload.as_slice().len() - proof_offset;
    let count: usize = if branch.len() > proof_size as usize {
        proof_size as usize
    } else {
        branch.len()
    };
    let mut stream: Vec<u8> = Vec::new();
    let ghost all = entries(branch@);
    let ghost whole = flat(all.take(count as int));
    assert(all.take(all.len() as int) =~= all);
    let mut k: usize = 0;
    while k < count && stream.len() < room
        invariant
            k <= count <= branch.len(),
            count <= proof_size,
            all == entries(branch@),
            whole == flat(all.take(count as int)),
            stream@ =~= if k * SIZE_OF_MERKLE_PROOF_ENTRY <= room {
                whole.take(k * SIZE_OF_MERKLE_PROOF_ENTRY)
            } else {
                whole.take(room as int)
            },
            stream.len() <= room,
        decreases count - k,
    {
        let mut i: usize = 0;
        let ghost start = k * SIZE_OF_MERKLE_PROOF_ENTRY;
        while i < SIZE_OF_MERKLE_PROOF_ENTRY && stream.len() < room
            invariant
                i <= SIZE_OF_MERKLE_PROOF_ENTRY,
                start == k * SIZE_OF_MERKLE_PROOF_ENTRY,
                k < count <= branch.len(),
                all == entries(branch@),
                whole == flat(all.take(count as int)),
                stream.len() == start + i,
                stream.len() <= room,
                stream@ =~= whole.take(start + i),
            decreases SIZE_OF_MERKLE_PROOF_ENTRY - i,
        {
            let ghost at = start + i;
            proof {
                assert(at / 20 == k && at % 20 == i);
                assert(whole[at] == branch@[k as int][i as int]);
            }
            stream.push(branch[k][i]);
            i += 1;
        }
        k += 1;
    }
    proof {
        if count * SIZE_OF_MERKLE_PROOF_ENTRY <= room {
            assert(whole.take(count * SIZE_OF_MERKLE_PROOF_ENTRY) =~= whole);
        }
        assert(stream@ == written_proof(all, proof_size, room as nat));
    }
    let _ = set_part(payload, proof_offset, stream.as_slice());
    if count * SIZE_OF_MERKLE_PROOF_ENTRY > room {
        Err(Error::Io(IoError::WriteZero))
    } else if branch.len() != proof_size as usize {
        Err(Error::InvalidMerkleProof)
    } else {
        Ok(())
    }
}

} // verus!
