//! Recovery of whole erasure batches, with real codes.
use lightweight_shred::error::{ErasureError, Error};
use lightweight_shred::merkle_tree::MerkleTree;
use lightweight_shred::recover::{check_recovered, cmp_shred_erasure_shard_index, fill_batch, make_stub_shred, sort_shreds, Template};
use lightweight_shred::{recover, recover_data_only, Payload, ReedSolomonCache, Shred, ShredCode, ShredType};
use reed_solomon_erasure::galois_8::ReedSolomon;
use std::cmp::Ordering;

const SLOT: u64 = 4321;
const FEC_SET_INDEX: u32 = 64;
const FIRST_CODING_INDEX: u32 = 96;

fn depth(n: usize) -> u8 {
    (0..16u8).find(|d| n <= 1usize << d).unwrap()
}

fn parse(s: &[u8]) -> Shred {
    Shred::new_from_serialized_shred(Payload::from(s.to_vec())).unwrap()
}

fn common_header(s: &mut [u8], variant: u8, index: u32) {
    for (k, byte) in s[..64].iter_mut().enumerate() {
        *byte = k as u8 ^ 0x5c;
    }
    s[64] = variant;
    s[65..73].copy_from_slice(&SLOT.to_le_bytes());
    s[73..77].copy_from_slice(&index.to_le_bytes());
    s[77..79].copy_from_slice(&0x1234u16.to_le_bytes());
    s[79..83].copy_from_slice(&FEC_SET_INDEX.to_le_bytes());
}

/// A whole batch as a leader makes it.
fn make_batch(num_data: usize, num_coding: usize, resigned: bool, proof_size: u8) -> Vec<Shred> {
    let n = num_data + num_coding;
    let tail = 32 + 20 * proof_size as usize + if resigned { 64 } else { 0 };
    let mut payloads: Vec<Vec<u8>> = Vec::new();
    let mut shards: Vec<Vec<u8>> = Vec::new();
    for i in 0..num_data {
        let mut s: Vec<u8> = (0..1203usize).map(|k| (k * 13 + i * 101 + k * k * i) as u8).collect();
        let variant = proof_size | if resigned { 0xb0 } else { 0x90 };
        common_header(&mut s, variant, FEC_SET_INDEX + i as u32);
        s[83..85].copy_from_slice(&3u16.to_le_bytes());
        s[85] = if i + 1 == num_data { 0b0100_0101 } else { 5 };
        s[86..88].copy_from_slice(&(88 + 10 * i as u16).to_le_bytes());
        shards.push(s[64..1203 - tail].to_vec());
        payloads.push(s);
    }
    shards.resize(n, vec![0u8; 1203 - tail - 64]);
    ReedSolomon::new(num_data, num_coding).unwrap().encode(&mut shards).unwrap();
    for i in 0..num_coding {
        let mut s = vec![0u8; 1228];
        let variant = proof_size | if resigned { 0x70 } else { 0x60 };
        common_header(&mut s, variant, FIRST_CODING_INDEX + i as u32);
        s[83..85].copy_from_slice(&(num_data as u16).to_le_bytes());
        s[85..87].copy_from_slice(&(num_coding as u16).to_le_bytes());
        s[87..89].copy_from_slice(&(i as u16).to_le_bytes());
        s[89..1228 - tail].copy_from_slice(&shards[num_data + i]);
        payloads.push(s);
    }
    let mut shreds: Vec<Shred> = payloads.iter().map(|s| parse(s)).collect();
    for shred in shreds.iter_mut() {
        shred.set_chained_merkle_root(&[0x77; 32]).unwrap();
        if resigned {
            shred.set_retransmitter_signature(&[0x99; 64]).unwrap();
        }
    }
    prove(&mut shreds, proof_size);
    shreds
}

/// Writes the Merkle proofs of the shreds of a whole batch.
fn prove(shreds: &mut [Shred], proof_size: u8) {
    let n = shreds.len();
    let nodes = shreds.iter().map(|shred| shred.merkle_node()).collect();
    let tree = MerkleTree::try_new(nodes).unwrap();
    for (i, shred) in shreds.iter_mut().enumerate() {
        let mut branch = tree.make_merkle_proof(i, n).unwrap();
        branch.resize(proof_size as usize, [0u8; 20]);
        shred.set_merkle_proof(&branch).unwrap();
    }
}

fn batch(num_data: usize, num_coding: usize, resigned: bool) -> Vec<Shred> {
    make_batch(num_data, num_coding, resigned, depth(num_data + num_coding))
}

/// The shreds whose positions `keep` names, and the others.
fn split(full: &[Shred], keep: impl Fn(usize) -> bool) -> (Vec<Shred>, Vec<Shred>) {
    let mut kept = Vec::new();
    let mut lost = Vec::new();
    for (i, shred) in full.iter().enumerate() {
        if keep(i) {
            kept.push(shred.clone());
        } else {
            lost.push(shred.clone());
        }
    }
    (kept, lost)
}

fn check_restored(full: &[Shred], keep: impl Fn(usize) -> bool) {
    let (kept, lost) = split(full, keep);
    let cache = ReedSolomonCache::default();
    let recovery = recover(kept.clone(), &cache).unwrap();
    let recovered: Vec<Shred> = recovery.into_iter().map(|shred| shred.unwrap()).collect();
    assert_eq!(recovered, lost);
    for shred in &recovered {
        assert!(shred.sanitize().is_ok());
        assert_eq!(shred.merkle_root().unwrap(), kept[0].merkle_root().unwrap());
        assert_eq!(parse(shred.payload().as_slice()), *shred);
    }
    let data = recover_data_only(kept, &cache).unwrap();
    let lost_data: Vec<&Shred> = lost.iter().filter(|shred| shred.is_data()).collect();
    assert_eq!(data.len(), lost_data.len());
    for (shred, expected) in data.iter().zip(lost_data) {
        let (Shred::ShredData(shred), Shred::ShredData(expected)) = (shred, expected) else {
            panic!("data shreds");
        };
        assert!(shred.common_header() == expected.common_header());
        assert_eq!(shred.data_header(), expected.data_header());
        assert_eq!(shred.data().unwrap(), expected.data().unwrap());
        assert_eq!(shred.erasure_shard().unwrap(), expected.erasure_shard().unwrap());
        assert_eq!(shred.chained_merkle_root().unwrap(), [0x77; 32]);
        assert_eq!(without_proof(shred.payload().as_slice()), without_proof(expected.payload().as_slice()));
    }
}

/// The bytes of a shred, with zeros for the Merkle proof.
fn without_proof(s: &[u8]) -> Vec<u8> {
    let resigned = s[64] & 0xf0 == 0xb0 || s[64] & 0xf0 == 0x70;
    let size = if s[64] & 0x80 != 0 { 1203 } else { 1228 };
    let end = size - if resigned { 64 } else { 0 };
    let start = end - 20 * (s[64] & 0x0f) as usize;
    let mut s = s.to_vec();
    s[start..end].fill(0);
    s
}

fn is_invalid_index<T>(recovery: Result<T, Error>) -> bool {
    matches!(recovery, Err(Error::Erasure(ErasureError::InvalidIndex)))
}

#[test]
fn a_second_copy_is_refused_in_any_place() {
    let full = batch(3, 3, false);
    let cache = ReedSolomonCache::default();
    let kept = split(&full, |i| i % 2 == 1 || i == 0).0;
    assert_eq!(recover(kept.clone(), &cache).unwrap().len(), 2);
    for i in 0..kept.len() {
        for p in 0..=kept.len() {
            let mut twice = kept.clone();
            twice.insert(p, kept[i].clone());
            assert!(is_invalid_index(recover(twice.clone(), &cache)));
            assert!(is_invalid_index(recover_data_only(twice, &cache)));
        }
    }
}

#[test]
fn a_second_copy_that_tells_of_another_batch_is_refused() {
    // Two coding shreds with one index: the one that is given last tells what the batch is.
    let mut full = batch(2, 2, false);
    let mut s = full[3].payload().as_slice().to_vec();
    s[73..77].copy_from_slice(&FIRST_CODING_INDEX.to_le_bytes());
    full[3] = parse(&s);
    prove(&mut full, 2);
    let cache = ReedSolomonCache::default();
    let kept = vec![full[0].clone(), full[2].clone(), full[3].clone()];
    let recovery = recover(kept.clone(), &cache).unwrap();
    assert_eq!(recovery.into_iter().map(|shred| shred.unwrap()).collect::<Vec<_>>(), full[1..2]);
    for i in 0..3 {
        for p in 0..=3 {
            let mut twice = kept.clone();
            twice.insert(p, kept[i].clone());
            assert!(is_invalid_index(recover(twice, &cache)));
        }
    }
}

#[test]
fn proofs_do_not_matter_to_the_data() {
    for resigned in [false, true] {
        let full = batch(4, 4, resigned);
        let cache = ReedSolomonCache::default();
        let kept = split(&full, |i| i % 2 == 1).0;
        let proofless: Vec<Shred> =
            kept.iter().map(|shred| parse(&without_proof(shred.payload().as_slice()))).collect();
        for (shred, other) in kept.iter().zip(&proofless) {
            assert_ne!(shred, other);
        }
        assert!(recover(proofless.clone(), &cache).is_err());
        assert_eq!(
            recover_data_only(proofless, &cache).unwrap(),
            recover_data_only(kept, &cache).unwrap()
        );
    }
}

#[test]
fn only_the_last_shred_tells_what_the_batch_is() {
    let full = batch(2, 2, false);
    // A coding shred in a position that its batch does not have, and that is not the last in order.
    let mut s = full[2].payload().as_slice().to_vec();
    s[87..89].copy_from_slice(&9u16.to_le_bytes());
    let payload = Payload::from(s);
    let odd = Shred::ShredCode(ShredCode::from_payload_unchecked(payload).unwrap());
    assert!(odd.erasure_shard_index().is_err());
    let given = vec![full[3].clone(), odd];
    assert!(matches!(
        recover_data_only(given, &ReedSolomonCache::default()),
        Err(Error::InvalidErasureShardIndex(_))
    ));
}

#[test]
fn half_of_a_batch_restores_the_rest() {
    for resigned in [false, true] {
        let full = batch(32, 32, resigned);
        check_restored(&full, |i| i % 2 == 0);
        check_restored(&full, |i| i >= 32);
        check_restored(&full, |i| i < 31 || i == 63);
    }
}

#[test]
fn small_and_uneven_batches() {
    for (num_data, num_coding) in [(1, 1), (1, 3), (2, 1), (3, 2), (5, 17), (20, 3)] {
        let full = batch(num_data, num_coding, false);
        check_restored(&full, |i| i >= num_coding);
    }
}

#[test]
fn whole_batches_leave_nothing_to_recover() {
    let full = batch(4, 4, false);
    check_restored(&full, |_| true);
    assert_eq!(recover(full, &ReedSolomonCache::default()).unwrap().len(), 0);
}

#[test]
fn the_order_of_the_shreds_does_not_matter() {
    let full = batch(8, 8, true);
    let (mut kept, lost) = split(&full, |i| i % 2 == 1);
    kept.reverse();
    kept.swap(1, 5);
    let recovery = recover(kept.clone(), &ReedSolomonCache::default()).unwrap();
    let recovered: Vec<Shred> = recovery.into_iter().map(|shred| shred.unwrap()).collect();
    assert_eq!(recovered, lost);
    let sorted = sort_shreds(kept);
    assert_eq!(sorted, split(&full, |i| i % 2 == 1).0);
}

#[test]
fn comparing_shreds() {
    let full = batch(2, 2, false);
    for (i, shred) in full.iter().enumerate() {
        for (j, other) in full.iter().enumerate() {
            assert_eq!(cmp_shred_erasure_shard_index(shred, other), i.cmp(&j));
        }
    }
    assert_eq!(cmp_shred_erasure_shard_index(&full[3], &full[0]), Ordering::Greater);
}

#[test]
fn too_few_shreds() {
    let full = batch(8, 8, false);
    let cache = ReedSolomonCache::default();
    let (kept, _) = split(&full, |i| i >= 9);
    assert!(matches!(
        recover(kept.clone(), &cache),
        Err(Error::Erasure(ErasureError::TooFewShardsPresent))
    ));
    assert!(matches!(
        recover_data_only(kept, &cache),
        Err(Error::Erasure(ErasureError::TooFewShardsPresent))
    ));
    // Without a coding shred nothing tells what the batch is.
    let (kept, _) = split(&full, |i| i < 8);
    assert!(matches!(
        recover(kept.clone(), &cache),
        Err(Error::Erasure(ErasureError::TooFewParityShards))
    ));
    assert!(matches!(
        recover_data_only(kept, &cache),
        Err(Error::Erasure(ErasureError::TooFewParityShards))
    ));
    assert!(matches!(
        recover(vec![], &cache),
        Err(Error::Erasure(ErasureError::TooFewParityShards))
    ));
    assert!(matches!(
        recover_data_only(vec![], &cache),
        Err(Error::Erasure(ErasureError::TooFewParityShards))
    ));
}

#[test]
fn shreds_that_do_not_belong_together() {
    let full = batch(4, 4, false);
    let cache = ReedSolomonCache::default();
    // Twice the same shred.
    let mut twice = split(&full, |i| i >= 3).0;
    twice.push(full[5].clone());
    assert!(matches!(
        recover(twice.clone(), &cache),
        Err(Error::Erasure(ErasureError::InvalidIndex))
    ));
    assert!(matches!(
        recover_data_only(twice, &cache),
        Err(Error::Erasure(ErasureError::InvalidIndex))
    ));
    // Another signature.
    let mut other = split(&full, |i| i >= 3).0;
    other[0].set_signature([1u8; 64]);
    assert!(matches!(recover(other.clone(), &cache), Err(Error::InvalidMerkleRoot)));
    assert!(matches!(recover_data_only(other, &cache), Err(Error::InvalidMerkleRoot)));
    // A larger batch than the last coding shred tells.
    let mut larger = split(&full, |i| i >= 4).0;
    larger.push(batch(9, 4, false)[8].clone());
    assert!(matches!(
        recover(larger, &cache),
        Err(Error::Erasure(ErasureError::InvalidIndex))
    ));
    // Shards of different lengths.
    let mut mixed = split(&full, |i| i >= 4).0;
    mixed.push(make_batch(4, 4, false, 4)[0].clone());
    assert!(matches!(
        recover(mixed, &cache),
        Err(Error::Erasure(ErasureError::IncorrectShardSize))
    ));
}

#[test]
fn more_shreds_than_the_code_has_room_for() {
    let full = batch(2, 2, false);
    let mut s = full[3].payload().as_slice().to_vec();
    s[83..85].copy_from_slice(&200u16.to_le_bytes());
    s[85..87].copy_from_slice(&100u16.to_le_bytes());
    assert!(matches!(
        recover_data_only(vec![parse(&s)], &ReedSolomonCache::default()),
        Err(Error::Erasure(ErasureError::TooManyShards))
    ));
}

#[test]
fn a_tampered_shred_spoils_the_root() {
    let full = batch(4, 4, false);
    let (mut kept, _) = split(&full, |i| i % 2 == 1);
    let mut s = kept[0].payload().as_slice().to_vec();
    s[200] ^= 1;
    kept[0] = parse(&s);
    // The byte spoils the rebuilt data shreds: their headers stay, their Merkle root does not.
    assert!(matches!(
        recover(kept.clone(), &ReedSolomonCache::default()),
        Err(Error::InvalidMerkleRoot)
    ));
    assert_eq!(recover_data_only(kept.clone(), &ReedSolomonCache::default()).unwrap().len(), 2);
    // A byte of the headers spoils the headers of the rebuilt ones.
    let mut s = full[1].payload().as_slice().to_vec();
    s[85] ^= 0x20;
    s[87] ^= 1;
    s[65] ^= 1;
    kept[0] = parse_unchecked(&s);
    assert!(recover(kept.clone(), &ReedSolomonCache::default()).is_err());
    assert_eq!(recover_data_only(kept, &ReedSolomonCache::default()).unwrap().len(), 0);
}

fn parse_unchecked(s: &[u8]) -> Shred {
    let payload = Payload::from(s.to_vec());
    Shred::ShredData(lightweight_shred::ShredData::from_payload_unchecked(payload).unwrap())
}

#[test]
fn recovered_headers_must_be_the_expected_ones() {
    let full = batch(4, 4, false);
    assert!(check_recovered(full[1].clone(), 1, 4).is_ok());
    assert_eq!(check_recovered(full[6].clone(), 6, 4).unwrap(), full[6]);
    assert!(matches!(
        check_recovered(full[6].clone(), 1, 4),
        Err(Error::InvalidRecoveredShred)
    ));
    assert!(matches!(
        check_recovered(full[1].clone(), 6, 4),
        Err(Error::InvalidRecoveredShred)
    ));
}

#[test]
fn proofs_of_another_size_than_the_tree() {
    // The tree of eight leaves has three levels, but the shreds have room for four entries.
    let full = make_batch(4, 4, false, 4);
    let cache = ReedSolomonCache::default();
    let (kept, lost) = split(&full, |i| i % 2 == 1);
    // The root that the longer proof leads to is not that of the tree.
    assert!(matches!(recover(kept.clone(), &cache), Err(Error::InvalidMerkleRoot)));
    let data = recover_data_only(kept, &cache).unwrap();
    assert_eq!(data.len(), 2);
    assert_eq!(data[0].erasure_shard().unwrap(), lost[0].erasure_shard().unwrap());
}

#[test]
fn stubs_and_filled_batches() {
    let full = batch(3, 2, true);
    let Shred::ShredCode(code) = &full[4] else { panic!("a coding shred") };
    let mut common_header = *code.common_header();
    common_header.index = FIRST_CODING_INDEX;
    let mut coding_header = *code.coding_header();
    coding_header.position = 0;
    let template = Template {
        common_header,
        coding_header,
        chained_merkle_root: Some([0x77; 32]),
        retransmitter_signature: Some([0x99; 64]),
    };
    for i in 0..5 {
        let stub = make_stub_shred(i, &template).unwrap();
        assert!(*stub.common_header() == *full[i].common_header());
        assert_eq!(stub.chained_merkle_root().unwrap(), [0x77; 32]);
        assert_eq!(stub.retransmitter_signature().unwrap(), [0x99; 64]);
        let (s, t) = (stub.payload().as_slice(), full[i].payload().as_slice());
        assert_eq!(s[..64], t[..64]);
        if i >= 3 {
            assert_eq!(s[..89], t[..89]);
        } else {
            assert_eq!(s[64..1000], [0u8; 936]);
        }
    }
    assert!(matches!(
        make_stub_shred(3 + 65536, &template),
        Err(Error::Erasure(ErasureError::InvalidIndex))
    ));
    let given = vec![full[1].clone(), full[3].clone()];
    let (filled, mask) = fill_batch(given, &template).unwrap();
    assert_eq!(mask, [false, true, false, true, false]);
    assert_eq!(filled.len(), 5);
    assert_eq!(filled[1], full[1]);
    assert_eq!(filled[3], full[3]);
    assert_eq!(filled[2].shred_type(), ShredType::Data);
    assert_eq!(filled[4].shred_type(), ShredType::Code);
}
