//! The Merkle tree over the shreds of an erasure batch.
//!
//! The leaves are the hashes of the shreds. Each further level joins the nodes of the level below
//! two by two; where their number is odd, the last one is joined with itself. Only the first 20
//! bytes of a node enter the hash of its parent, so that an entry of a proof takes 20 bytes.
use crate::Digest;
use crate::bytes_util::read_array;
use crate::crypto::{hashv, lemma_concat_3, sha256};
use crate::error::Error;
use vstd::prelude::*;

verus! {

pub const SIZE_OF_MERKLE_ROOT: usize = 32;

pub const SIZE_OF_MERKLE_PROOF_ENTRY: usize = 20;

/// Number of proof entries for a batch of 64 shreds.
pub const PROOF_ENTRIES_FOR_32_32_BATCH: u8 = 6;

/// Leaves and inner nodes are hashed with different prefixes, against second preimages: the byte 0
/// and `SOLANA_MERKLE_SHREDS_LEAF`.
pub const MERKLE_HASH_PREFIX_LEAF: [u8; 26] = [
    0x00, 0x53, 0x4f, 0x4c, 0x41, 0x4e, 0x41, 0x5f, 0x4d, 0x45, 0x52, 0x4b, 0x4c,
    0x45, 0x5f, 0x53, 0x48, 0x52, 0x45, 0x44, 0x53, 0x5f, 0x4c, 0x45, 0x41, 0x46,
];

/// The byte 1 and `SOLANA_MERKLE_SHREDS_NODE`.
pub const MERKLE_HASH_PREFIX_NODE: [u8; 26] = [
    0x01, 0x53, 0x4f, 0x4c, 0x41, 0x4e, 0x41, 0x5f, 0x4d, 0x45, 0x52, 0x4b, 0x4c,
    0x45, 0x5f, 0x53, 0x48, 0x52, 0x45, 0x44, 0x53, 0x5f, 0x4e, 0x4f, 0x44, 0x45,
];

/// The first 20 bytes of a node.
pub type MerkleProofEntry = [u8; 20];

/// The part of a node that enters the hash of its parent.
pub open spec fn proof_entry(node: Seq<u8>) -> Seq<u8> {
    Seq::new(SIZE_OF_MERKLE_PROOF_ENTRY as nat, |i: int| node[i])
}

/// The parent of two nodes.
pub open spec fn joined(node: Seq<u8>, other: Seq<u8>) -> Seq<u8> {
    sha256(MERKLE_HASH_PREFIX_NODE@ + proof_entry(node) + proof_entry(other))
}

/// Number of parents of `n` nodes.
pub open spec fn half(n: nat) -> nat {
    (n + 1) / 2
}

/// The other child of the parent of node `index`, among `size` nodes; the last one of an odd number
/// is its own.
pub open spec fn sibling(index: nat, size: nat) -> nat {
    if index % 2 == 1 {
        (index - 1) as nat
    } else if index + 1 < size {
        index + 1
    } else {
        index
    }
}

/// The level above `level`.
pub open spec fn parents(level: Seq<Seq<u8>>) -> Seq<Seq<u8>> {
    Seq::new(
        half(level.len()),
        |i: int| joined(level[2 * i], level[sibling((2 * i) as nat, level.len()) as int]),
    )
}

/// The nodes of the tree over `level`, level by level.
pub open spec fn tree_nodes(level: Seq<Seq<u8>>) -> Seq<Seq<u8>>
    decreases level.len(),
{
    if level.len() <= 1 {
        level
    } else {
        level + tree_nodes(parents(level))
    }
}

/// The root of the tree over `level`.
pub open spec fn tree_root(level: Seq<Seq<u8>>) -> Seq<u8>
    decreases level.len(),
{
    if level.len() <= 1 {
        level[0]
    } else {
        tree_root(parents(level))
    }
}

/// The siblings on the way from leaf `index` to the root of the tree over `level`.
pub open spec fn proof_path(level: Seq<Seq<u8>>, index: nat) -> Seq<Seq<u8>>
    decreases level.len(),
{
    if level.len() <= 1 {
        Seq::empty()
    } else {
        seq![proof_entry(level[sibling(index, level.len()) as int])] + proof_path(
            parents(level),
            index / 2,
        )
    }
}

/// Number of levels above the leaves of a tree with `n` leaves.
pub open spec fn tree_depth(n: nat) -> nat
    decreases n,
{
    if n <= 1 {
        0
    } else {
        1 + tree_depth(half(n))
    }
}

/// Number of nodes of a tree with `n` leaves.
pub open spec fn tree_size(n: nat) -> nat
    decreases n,
{
    if n <= 1 {
        n
    } else {
        n + tree_size(half(n))
    }
}

/// Where one gets from node `index` of a level, joining with one entry of `proof` after the other.
pub open spec fn climb(index: nat, node: Seq<u8>, branch: Seq<Seq<u8>>) -> (nat, Seq<u8>)
    decreases branch.len(),
{
    if branch.len() == 0 {
        (index, node)
    } else {
        let parent = if index % 2 == 0 {
            joined(node, branch[0])
        } else {
            joined(branch[0], node)
        };
        climb(index / 2, parent, branch.drop_first())
    }
}

/// The root that a leaf and its proof lead to; an error if the proof is too short for the index.
pub open spec fn root_of_proof(index: nat, node: Seq<u8>, branch: Seq<Seq<u8>>) -> Result<
    Seq<u8>,
    Error,
> {
    let (top, root) = climb(index, node, branch);
    if top == 0 {
        Ok(root)
    } else {
        Err(Error::InvalidMerkleProof)
    }
}

/// The bytes of digests.
pub open spec fn digests(nodes: Seq<Digest>) -> Seq<Seq<u8>> {
    nodes.map_values(|node: Digest| node@)
}

/// The bytes of proof entries.
pub open spec fn entries(branch: Seq<MerkleProofEntry>) -> Seq<Seq<u8>> {
    branch.map_values(|entry: MerkleProofEntry| entry@)
}

/// The bytes of a digest, or the error in its place.
pub open spec fn digest_or_error(digest: Result<Digest, Error>) -> Result<Seq<u8>, Error> {
    match digest {
        Ok(digest) => Ok(digest@),
        Err(e) => Err(e),
    }
}

/// The bytes of all digests, or the first error among them.
pub open spec fn all_digests(nodes: Seq<Result<Digest, Error>>) -> Result<Seq<Seq<u8>>, Error>
    decreases nodes.len(),
{
    if nodes.len() == 0 {
        Ok(Seq::empty())
    } else {
        match (all_digests(nodes.drop_last()), nodes.last()) {
            (Ok(before), Ok(node)) => Ok(before.push(node@)),
            (Ok(_), Err(e)) => Err(e),
            (Err(e), _) => Err(e),
        }
    }
}

/// The siblings on the way from node `index` of the level of `size` nodes at `offset` of `nodes` to
/// the last node; `None` if the levels above do not end with `nodes`.
pub open spec fn proof_walk(nodes: Seq<Seq<u8>>, offset: nat, index: nat, size: nat) -> Option<
    Seq<Seq<u8>>,
>
    decreases size,
{
    if size > 1 {
        let at = offset + sibling(index, size);
        if at >= nodes.len() {
            None
        } else {
            match proof_walk(nodes, offset + size, index / 2, half(size)) {
                Some(rest) => Some(seq![proof_entry(nodes[at as int])] + rest),
                None => None,
            }
        }
    } else if offset + 1 == nodes.len() {
        Some(Seq::empty())
    } else {
        None
    }
}

proof fn lemma_all_digests_prefix(nodes: Seq<Result<Digest, Error>>, n: int)
    requires
        0 <= n <= nodes.len(),
        all_digests(nodes.take(n)) is Err,
    ensures
        all_digests(nodes) == all_digests(nodes.take(n)),
    decreases nodes.len(),
{
    if n == nodes.len() {
        assert(nodes.take(n) =~= nodes);
    } else {
        assert(nodes.drop_last().take(n) =~= nodes.take(n));
        lemma_all_digests_prefix(nodes.drop_last(), n);
    }
}

/// A tree has at least as many nodes as leaves, and at most three times as many.
pub proof fn lemma_tree_size(n: nat)
    ensures
        n <= tree_size(n) <= 3 * n,
        n > 1 ==> tree_size(n) > n,
    decreases n,
{
    if n > 1 {
        lemma_tree_size(half(n));
    }
}

/// The last of the nodes of a tree is its root.
pub proof fn root_is_last_node(level: Seq<Seq<u8>>)
    requires
        level.len() > 0,
    ensures
        tree_nodes(level).len() > 0,
        tree_nodes(level).last() == tree_root(level),
    decreases level.len(),
{
    if level.len() > 1 {
        root_is_last_node(parents(level));
    }
}

/// A proof has one entry for each level above the leaves.
pub proof fn proof_has_one_entry_per_level(level: Seq<Seq<u8>>, index: nat)
    requires
        index < level.len(),
    ensures
        proof_path(level, index).len() == tree_depth(level.len()),
    decreases level.len(),
{
    if level.len() > 1 {
        proof_has_one_entry_per_level(parents(level), index / 2);
    }
}

/// A proof entry is all of a node that its parent depends on.
proof fn lemma_joined_by_entries(node: Seq<u8>, other: Seq<u8>)
    ensures
        joined(proof_entry(node), other) == joined(node, other),
        joined(node, proof_entry(other)) == joined(node, other),
{
    assert(proof_entry(proof_entry(node)) =~= proof_entry(node));
    assert(proof_entry(proof_entry(other)) =~= proof_entry(other));
}

/// Each leaf of a tree and its proof lead to the root of the tree.
pub proof fn proof_leads_to_root(level: Seq<Seq<u8>>, index: nat)
    requires
        index < level.len(),
    ensures
        climb(index, level[index as int], proof_path(level, index)) == (0nat, tree_root(level)),
        root_of_proof(index, level[index as int], proof_path(level, index)) == Ok::<_, Error>(
            tree_root(level),
        ),
    decreases level.len(),
{
    if level.len() > 1 {
        let up = parents(level);
        let path = proof_path(level, index);
        let other = level[sibling(index, level.len()) as int];
        lemma_joined_by_entries(level[index as int], other);
        lemma_joined_by_entries(other, level[index as int]);
        assert(path.drop_first() =~= proof_path(up, index / 2));
        proof_leads_to_root(up, index / 2);
    }
}

/// What `make_merkle_proof` reads off the nodes of a tree is the proof of the leaf.
proof fn lemma_proof_walk(before: Seq<Seq<u8>>, level: Seq<Seq<u8>>, index: nat)
    requires
        index < level.len(),
    ensures
        proof_walk(before + tree_nodes(level), before.len(), index, level.len()) == Some(
            proof_path(level, index),
        ),
    decreases level.len(),
{
    if level.len() > 1 {
        let up = parents(level);
        let nodes = before + tree_nodes(level);
        assert(nodes =~= (before + level) + tree_nodes(up));
        lemma_proof_walk(before + level, up, index / 2);
        assert(nodes[(before.len() + sibling(index, level.len())) as int] == level[sibling(
            index,
            level.len(),
        ) as int]);
    }
}

/// A Merkle tree.
pub struct MerkleTree {
    nodes: Vec<Digest>,
}

impl View for MerkleTree {
    type V = Seq<Seq<u8>>;

    closed spec fn view(&self) -> Seq<Seq<u8>> {
        digests(self.nodes@)
    }
}

impl MerkleTree {
    /// Builds the tree over the given leaves.
    pub fn try_new(shreds: Vec<Result<Digest, Error>>) -> (tree: Result<MerkleTree, Error>)
        requires
            tree_size(shreds.len() as nat) <= usize::MAX,
        ensures
            match tree {
                Ok(tree) => shreds.len() > 0 && (all_digests(shreds@) matches Ok(leaves)
                    && tree@ == tree_nodes(leaves)),
                Err(e) => if shreds.len() == 0 {
                    e is EmptyIterator
                } else {
                    all_digests(shreds@) == Err::<Seq<Seq<u8>>, _>(e)
                },
            },
    {
        if shreds.len() == 0 {
            return Err(Error::EmptyIterator);
        }
        let ghost all = shreds@;
        let mut size: usize = shreds.len();
        let capacity = get_merkle_tree_size(size);
        let mut nodes: Vec<Digest> = Vec::with_capacity(capacity);
        assert(digests(nodes@) =~= Seq::empty());
        for shred in iter: shreds
            invariant
                iter.seq() == all,
                all_digests(all.take(iter.index() as int)) == Ok::<_, Error>(digests(nodes@)),
                nodes.len() == iter.index(),
        {
            let ghost k = iter.index() as int;
            assert(all.take(k + 1).drop_last() =~= all.take(k));
            match shred {
                Err(e) => {
                    proof {
                        lemma_all_digests_prefix(all, k + 1);
                    }
                    return Err(e);
                },
                Ok(node) => {
                    let ghost before = nodes@;
                    nodes.push(node);
                    assert(digests(nodes@) =~= digests(before).push(node@));
                },
            }
        }
        assert(all.take(all.len() as int) =~= all);
        let ghost leaves = digests(nodes@);
        let mut offset: usize = 0;
        assert(leaves.subrange(0, 0) + tree_nodes(leaves.subrange(0, leaves.len() as int))
            =~= tree_nodes(leaves)) by {
            assert(leaves.subrange(0, leaves.len() as int) =~= leaves);
        }
        while size > 1
            invariant
                size >= 1,
                offset + size == nodes.len(),
                offset + tree_size(size as nat) <= usize::MAX,
                ({
                    let done = digests(nodes@);
                    tree_nodes(leaves) == done.subrange(0, offset as int) + tree_nodes(
                        done.subrange(offset as int, offset + size),
                    )
                }),
            decreases size,
        {
            let ghost done = digests(nodes@);
            let ghost level = done.subrange(offset as int, offset + size);
            proof {
                lemma_tree_size(half(size as nat));
            }
            let mut k: usize = 0;
            let parents_size: usize = (size + 1) / 2;
            while k < parents_size
                invariant
                    k <= parents_size,
                    parents_size == half(size as nat),
                    size > 1,
                    level.len() == size,
                    level == done.subrange(offset as int, offset + size),
                    done.len() == offset + size,
                    offset + size + parents_size <= usize::MAX,
                    nodes.len() == offset + size + k,
                    digests(nodes@) =~= done + parents(level).subrange(0, k as int),
                decreases parents_size - k,
            {
                let index: usize = offset + 2 * k;
                let last: usize = offset + size - 1;
                let other: usize = if index + 1 < last {
                    index + 1
                } else {
                    last
                };
                proof {
                    assert(digests(nodes@)[index as int] == level[2 * k]);
                    assert(digests(nodes@)[other as int] == level[sibling(
                        (2 * k) as nat,
                        level.len(),
                    ) as int]);
                }
                let parent = join_nodes(nodes[index].as_slice(), nodes[other].as_slice());
                let ghost before = nodes@;
                nodes.push(parent);
                proof {
                    assert(parent@ == parents(level)[k as int]);
                    assert(digests(nodes@) =~= digests(before).push(parent@));
                    assert(parents(level).subrange(0, k + 1) =~= parents(level).subrange(
                        0,
                        k as int,
                    ).push(parents(level)[k as int]));
                }
                k += 1;
            }
            proof {
                assert(parents(level).subrange(0, k as int) =~= parents(level));
                let now = digests(nodes@);
                assert(now.subrange(0, offset + size) =~= done.subrange(0, offset as int) + level);
                assert(now.subrange(offset + size, offset + size + parents_size) =~= parents(level));
                assert(done.subrange(0, offset as int) + (level + tree_nodes(parents(level)))
                    =~= now.subrange(0, offset + size) + tree_nodes(parents(level)));
            }
            offset = offset + size;
            size = parents_size;
        }
        let tree = MerkleTree { nodes };
        proof {
            let done = digests(nodes@);
            assert(done.subrange(0, offset as int) + done.subrange(offset as int, offset + size)
                =~= done);
        }
        Ok(tree)
    }

    /// The last node.
    pub fn root(&self) -> (root: &Digest)
        requires
            self@.len() > 0,
        ensures
            root@ == self@.last(),
    {
        &self.nodes[self.nodes.len() - 1]
    }

    /// The proof of leaf `index` of a tree with `size` leaves.
    pub fn make_merkle_proof(&self, index: usize, size: usize) -> (branch: Result<
        Vec<MerkleProofEntry>,
        Error,
    >)
        ensures
            match branch {
                Ok(branch) => index < size && proof_walk(self@, 0, index as nat, size as nat)
                    == Some(entries(branch@)),
                Err(e) => e is InvalidMerkleProof && (index >= size || proof_walk(
                    self@,
                    0,
                    index as nat,
                    size as nat,
                ) is None),
            },
    {
        if index >= size {
            return Err(Error::InvalidMerkleProof);
        }
        let ghost whole = proof_walk(self@, 0, index as nat, size as nat);
        let count: usize = self.nodes.len();
        let mut at: usize = index;
        let mut width: usize = size;
        let mut offset: usize = 0;
        let mut branch: Vec<MerkleProofEntry> = Vec::new();
        assert(whole matches Some(path) ==> entries(branch@) + path =~= path);
        while width > 1
            invariant
                at < width,
                count == self.nodes.len(),
                whole == proof_walk(self@, 0, index as nat, size as nat),
                whole == match proof_walk(self@, offset as nat, at as nat, width as nat) {
                    Some(rest) => Some(entries(branch@) + rest),
                    None => None,
                },
            decreases width,
        {
            let other: usize = if at % 2 == 1 {
                at - 1
            } else if at + 1 < width {
                at + 1
            } else {
                at
            };
            let place: usize = match offset.checked_add(other) {
                Some(place) => place,
                None => return Err(Error::InvalidMerkleProof),
            };
            if place >= count {
                return Err(Error::InvalidMerkleProof);
            }
            let node = &self.nodes[place];
            let entry = read_array::<20>(node.as_slice(), 0);
            let ghost before = branch@;
            branch.push(entry);
            proof {
                let k = place as int;
                assert(self@[k] == node@);
                assert(entry@ =~= proof_entry(self@[k]));
                assert(entries(branch@) =~= entries(before).push(entry@));
                let up = proof_walk(
                    self@,
                    (offset + width) as nat,
                    (at / 2) as nat,
                    half(width as nat),
                );
                assert(up matches Some(rest) ==> entries(before) + (seq![entry@] + rest)
                    =~= entries(branch@) + rest);
            }
            let next: usize = match offset.checked_add(width) {
                Some(next) => next,
                None => return Err(Error::InvalidMerkleProof),
            };
            offset = next;
            width = width / 2 + width % 2;
            at = at / 2;
        }
        if offset < count && offset + 1 == count {
            assert(entries(branch@) + Seq::<Seq<u8>>::empty() =~= entries(branch@));
            Ok(branch)
        } else {
            Err(Error::InvalidMerkleProof)
        }
    }
}

/// The proofs that a tree makes for its leaves lead to its root.
pub proof fn made_proof_leads_to_root(leaves: Seq<Seq<u8>>, index: nat)
    requires
        index < leaves.len(),
    ensures
        proof_walk(tree_nodes(leaves), 0, index, leaves.len()) == Some(proof_path(leaves, index)),
        proof_path(leaves, index).len() == tree_depth(leaves.len()),
        root_of_proof(index, leaves[index as int], proof_path(leaves, index)) == Ok::<_, Error>(
            tree_nodes(leaves).last(),
        ),
{
    lemma_proof_walk(Seq::empty(), leaves, index);
    assert(Seq::<Seq<u8>>::empty() + tree_nodes(leaves) =~= tree_nodes(leaves));
    proof_has_one_entry_per_level(leaves, index);
    proof_leads_to_root(leaves, index);
    root_is_last_node(leaves);
}

/// The parent of two nodes, of which only the first 20 bytes count.
pub fn join_nodes(node: &[u8], other: &[u8]) -> (parent: Digest)
    requires
        node.len() >= SIZE_OF_MERKLE_PROOF_ENTRY,
        other.len() >= SIZE_OF_MERKLE_PROOF_ENTRY,
    ensures
        parent@ == joined(node@, other@),
{
    let prefix = MERKLE_HASH_PREFIX_NODE;
    let node_entry = read_array::<20>(node, 0);
    let other_entry = read_array::<20>(other, 0);
    let parts: [&[u8]; 3] = [prefix.as_slice(), node_entry.as_slice(), other_entry.as_slice()];
    proof {
        lemma_concat_3(parts@);
        assert(node_entry@ =~= proof_entry(node@));
        assert(other_entry@ =~= proof_entry(other@));
    }
    hashv(parts.as_slice())
}

/// The root that leaf `index` with the given proof belongs to.
pub fn get_merkle_root(index: usize, node: Digest, branch: &[MerkleProofEntry]) -> (root: Result<
    Digest,
    Error,
>)
    ensures
        digest_or_error(root) == root_of_proof(index as nat, node@, entries(branch@)),
{
    let ghost whole = climb(index as nat, node@, entries(branch@));
    let mut index: usize = index;
    let mut node: Digest = node;
    let mut k: usize = 0;
    assert(entries(branch@).skip(0) =~= entries(branch@));
    while k < branch.len()
        invariant
            k <= branch.len(),
            climb(index as nat, node@, entries(branch@).skip(k as int)) == whole,
        decreases branch.len() - k,
    {
        let other = &branch[k];
        assert(entries(branch@).skip(k as int)[0] == other@);
        assert(entries(branch@).skip(k as int).drop_first() =~= entries(branch@).skip(k + 1));
        node = if index % 2 == 0 {
            join_nodes(node.as_slice(), other.as_slice())
        } else {
            join_nodes(other.as_slice(), node.as_slice())
        };
        index = index / 2;
        k += 1;
    }
    if index == 0 {
        Ok(node)
    } else {
        Err(Error::InvalidMerkleProof)
    }
}

/// The number of nodes of a Merkle tree with the given number of leaves.
pub fn get_merkle_tree_size(num_shreds: usize) -> (size: usize)
    requires
        tree_size(num_shreds as nat) <= usize::MAX,
    ensures
        size == tree_size(num_shreds as nat),
{
    let mut size: usize = num_shreds;
    let mut level: usize = num_shreds;
    while level > 1
        invariant
            size - level + tree_size(level as nat) == tree_size(num_shreds as nat),
            level <= size,
            tree_size(num_shreds as nat) <= usize::MAX,
        decreases level,
    {
        proof {
            lemma_tree_size(level as nat);
            lemma_tree_size(half(level as nat));
        }
        level = (level + 1) / 2;
        size = size + level;
    }
    size
}

} // verus!
