//! Parsing and checking single shreds.
use lightweight_shred::error::{Error, ReadError, ShredHeaders};
use lightweight_shred::shred_type::ShredVariant;
use lightweight_shred::{ErasureSetId, Payload, Shred, ShredCode, ShredData, ShredId, ShredType};

fn unhex(s: &str) -> Vec<u8> {
    (0..s.len() / 2).map(|i| u8::from_str_radix(&s[2 * i..2 * i + 2], 16).unwrap()).collect()
}

/// A data shred of slot 1000 with index 35 in the batch from 32 on.
fn data_bytes() -> Vec<u8> {
    let mut s: Vec<u8> = (0..1203usize).map(|k| (k * 7 + 3) as u8).collect();
    s[64] = 0x96;
    s[65..73].copy_from_slice(&1000u64.to_le_bytes());
    s[73..77].copy_from_slice(&35u32.to_le_bytes());
    s[77..79].copy_from_slice(&0xabcdu16.to_le_bytes());
    s[79..83].copy_from_slice(&32u32.to_le_bytes());
    s[83..85].copy_from_slice(&7u16.to_le_bytes());
    s[85] = 0b0100_0011;
    s[86..88].copy_from_slice(&188u16.to_le_bytes());
    s
}

/// A coding shred of slot 1000 in position 4 of the same batch, with a retransmitter's signature.
fn code_bytes() -> Vec<u8> {
    let mut s: Vec<u8> = (0..1228usize).map(|k| (k * 5 + 1) as u8).collect();
    s[64] = 0x76;
    s[65..73].copy_from_slice(&1000u64.to_le_bytes());
    s[73..77].copy_from_slice(&36u32.to_le_bytes());
    s[77..79].copy_from_slice(&0xabcdu16.to_le_bytes());
    s[79..83].copy_from_slice(&32u32.to_le_bytes());
    s[83..85].copy_from_slice(&32u16.to_le_bytes());
    s[85..87].copy_from_slice(&32u16.to_le_bytes());
    s[87..89].copy_from_slice(&4u16.to_le_bytes());
    s
}

fn parse(s: &[u8]) -> Result<Shred, Error> {
    Shred::new_from_serialized_shred(Payload::from(s.to_vec()))
}

fn with(mut s: Vec<u8>, at: usize, bytes: &[u8]) -> Vec<u8> {
    s[at..at + bytes.len()].copy_from_slice(bytes);
    s
}

#[test]
fn parts_of_a_data_shred() {
    let s = data_bytes();
    let shred = parse(&s).unwrap();
    assert_eq!(shred.id(), ShredId::new(1000, 35, ShredType::Data));
    assert_eq!(shred.slot(), 1000);
    assert_eq!(shred.index(), 35);
    assert_eq!(shred.version(), 0xabcd);
    assert_eq!(shred.fec_set_index(), 32);
    assert_eq!(shred.erasure_set(), ErasureSetId::new(1000, 32));
    assert_eq!(shred.signature()[..], s[..64]);
    assert_eq!(shred.shred_type(), ShredType::Data);
    assert!(shred.is_data() && !shred.is_code());
    assert_eq!(shred.parent().unwrap(), 993);
    assert_eq!(shred.reference_tick(), 3);
    assert!(shred.data_complete() && !shred.last_in_slot());
    assert_eq!(shred.first_coding_index(), None);
    assert!(matches!(shred.num_data_shreds(), Err(Error::InvalidShredType)));
    assert!(matches!(shred.num_coding_shreds(), Err(Error::InvalidShredType)));
    assert_eq!(shred.erasure_shard_index().unwrap(), 3);
    assert_eq!(shred.erasure_shard().unwrap(), &s[64..1203 - 120 - 32]);
    assert_eq!(shred.chained_merkle_root().unwrap()[..], s[1203 - 120 - 32..1203 - 120]);
    assert!(matches!(shred.retransmitter_signature(), Err(Error::InvalidShredVariant)));
    assert!(matches!(shred.retransmitter_signature_offset(), Err(Error::InvalidShredVariant)));
    let branch = shred.merkle_proof().unwrap();
    assert_eq!(branch.concat(), s[1203 - 120..]);
    assert_eq!(shred.payload().as_slice(), s);
    let Shred::ShredData(data) = &shred else { panic!("a data shred") };
    assert_eq!(data.data().unwrap(), &s[88..188]);
    assert_eq!(data.data_header().size, 188);
    assert_eq!(data.proof_size().unwrap(), 6);
    assert_eq!(
        data.common_header().shred_variant,
        ShredVariant::MerkleData { proof_size: 6, resigned: false }
    );
    assert_eq!(shred.into_payload().as_slice(), s);
}

#[test]
fn parts_of_a_coding_shred() {
    let s = code_bytes();
    let shred = parse(&s).unwrap();
    assert_eq!(shred.id(), ShredId::new(1000, 36, ShredType::Code));
    assert!(shred.is_code() && !shred.is_data());
    assert!(matches!(shred.parent(), Err(Error::InvalidShredType)));
    assert_eq!(shred.reference_tick(), 63);
    assert!(!shred.data_complete() && !shred.last_in_slot());
    assert_eq!(shred.first_coding_index(), Some(32));
    assert_eq!(shred.num_data_shreds().unwrap(), 32);
    assert_eq!(shred.num_coding_shreds().unwrap(), 32);
    assert_eq!(shred.erasure_shard_index().unwrap(), 36);
    assert_eq!(shred.erasure_shard().unwrap(), &s[89..1228 - 64 - 120 - 32]);
    assert_eq!(shred.retransmitter_signature_offset().unwrap(), 1228 - 64);
    assert_eq!(shred.retransmitter_signature().unwrap()[..], s[1228 - 64..]);
    assert_eq!(shred.chained_merkle_root().unwrap()[..], s[1228 - 64 - 152..1228 - 64 - 120]);
    assert_eq!(shred.clone(), shred);
    assert_ne!(shred, parse(&data_bytes()).unwrap());
    assert_ne!(shred, parse(&with(s, 500, &[0])).unwrap());
}

#[test]
fn trailing_bytes_are_dropped() {
    for s in [data_bytes(), code_bytes()] {
        let mut longer = s.clone();
        longer.extend_from_slice(&[1, 2, 3, 4]);
        let shred = parse(&longer).unwrap();
        assert_eq!(shred.payload().as_slice(), s);
        assert_eq!(shred, parse(&s).unwrap());
        assert_eq!(parse(shred.payload().as_slice()).unwrap(), shred);
    }
}

#[test]
fn merkle_root_and_signature_of_a_known_shred() {
    let mut shred = parse(&data_bytes()).unwrap();
    let root = shred.merkle_root().unwrap();
    assert_eq!(
        root.to_vec(),
        unhex("b3de2f53c4d3fb16cb812b4d1c737e99dc3e797e9d1f6324a7964a3526b23536")
    );
    assert_eq!(shred.signed_data().unwrap(), root);
    let key: [u8; 32] =
        unhex("d75a980182b10ab7d54bfed3c964073a0ee172f3daa62325af021a68f707511a").try_into().unwrap();
    assert!(!shred.verify(&key));
    let signature: [u8; 64] = unhex(
        "c99fff487a3fde695b2ed752cd64a2dfbbf8a8d7337c6902322f13cb18167add\
         f07f7e4f7e4c918a61774e4c9f5298ea5501e197398c72f918bd8a14c9148c0a",
    )
    .try_into()
    .unwrap();
    shred.set_signature(signature);
    assert_eq!(*shred.signature(), signature);
    assert_eq!(shred.payload().as_slice()[..64], signature);
    assert_eq!(shred.merkle_root().unwrap(), root);
    assert!(shred.verify(&key));
    assert!(!shred.verify(&[1u8; 32]));
    let mut wrong = parse(&with(data_bytes(), 100, &[0])).unwrap();
    wrong.set_signature(signature);
    assert!(!wrong.verify(&key));
    // The signature is of the root of the proof, which must fit the index.
    let other = parse(&with(with(data_bytes(), 73, &200u32.to_le_bytes()), 79, &[32])).unwrap();
    assert!(matches!(other.merkle_root(), Err(Error::InvalidMerkleProof)));
    assert!(!other.verify(&key));
}

#[test]
fn errors_of_data_shreds() {
    let s = data_bytes();
    assert!(matches!(parse(&s[..64]), Err(Error::InvalidPayloadSize(64))));
    assert!(matches!(parse(&[]), Err(Error::InvalidPayloadSize(0))));
    assert!(matches!(parse(&s[..1202]), Err(Error::InvalidPayloadSize(1202))));
    assert!(matches!(parse(&with(s.clone(), 64, &[0x5a])), Err(Error::InvalidShredVariant)));
    assert!(matches!(parse(&with(s.clone(), 64, &[0xa5])), Err(Error::InvalidShredVariant)));
    assert!(matches!(
        parse(&with(s.clone(), 73, &32768u32.to_le_bytes())),
        Err(Error::InvalidShredIndex(ShredType::Data, 32768))
    ));
    assert!(matches!(
        parse(&with(s.clone(), 85, &[0b1000_0001])),
        Err(Error::InvalidShredFlags(0b1000_0001))
    ));
    assert!(parse(&with(s.clone(), 85, &[0b1100_0001])).unwrap().last_in_slot());
    for size in [0u16, 87, 1203 - 152 + 1, 1203, 60000] {
        let bytes = with(s.clone(), 86, &size.to_le_bytes());
        match parse(&bytes) {
            Err(Error::InvalidDataSize { size: told, payload: 1203 }) => assert_eq!(told, size),
            other => panic!("{size}: {other:?}"),
        }
    }
    for size in [88u16, 1203 - 152] {
        assert!(parse(&with(s.clone(), 86, &size.to_le_bytes())).is_ok());
    }
    assert!(matches!(
        parse(&with(s.clone(), 83, &[0, 0])),
        Err(Error::InvalidParentOffset { slot: 1000, parent_offset: 0 })
    ));
    assert!(matches!(
        parse(&with(s.clone(), 83, &1001u16.to_le_bytes())),
        Err(Error::InvalidParentOffset { slot: 1000, parent_offset: 1001 })
    ));
    let first = with(with(s.clone(), 65, &0u64.to_le_bytes()), 83, &[0, 0]);
    assert_eq!(parse(&first).unwrap().parent().unwrap(), 0);
    match parse(&with(s.clone(), 79, &36u32.to_le_bytes())) {
        Err(Error::InvalidErasureShardIndex(headers)) => match *headers {
            ShredHeaders::Data(common, _) => assert_eq!(common.fec_set_index, 36),
            ShredHeaders::Code(..) => panic!("headers of a data shred"),
        },
        other => panic!("{other:?}"),
    }
    // A coding shred is not read as a data shred.
    assert!(matches!(
        ShredData::from_payload(Payload::from(code_bytes())),
        Err(Error::InvalidShredVariant)
    ));
    assert!(ShredData::from_payload_unchecked(Payload::from(code_bytes())).is_ok());
    assert!(matches!(
        ShredData::from_payload_unchecked(Payload::from(with(s, 64, &[0]))),
        Err(Error::WincodeRead(ReadError::InvalidTagEncoding(0)))
    ));
}

#[test]
fn errors_of_coding_shreds() {
    let s = code_bytes();
    assert!(matches!(
        parse(&s[..88]),
        Err(Error::WincodeRead(ReadError::ReadSizeLimit(89)))
    ));
    assert!(matches!(parse(&s[..1227]), Err(Error::InvalidPayloadSize(1227))));
    assert!(matches!(
        parse(&with(s.clone(), 73, &32768u32.to_le_bytes())),
        Err(Error::InvalidShredIndex(ShredType::Code, 32768))
    ));
    assert!(matches!(
        parse(&with(s.clone(), 85, &257u16.to_le_bytes())),
        Err(Error::InvalidNumCodingShreds(257))
    ));
    assert!(parse(&with(s.clone(), 85, &256u16.to_le_bytes())).is_ok());
    // No data shreds, no coding shreds, a position behind the last one, and batches that start
    // before the first or end behind the last index.
    for bytes in [
        with(s.clone(), 83, &[0, 0]),
        with(s.clone(), 85, &[0, 0]),
        with(s.clone(), 87, &32u16.to_le_bytes()),
        with(s.clone(), 73, &3u32.to_le_bytes()),
        with(s.clone(), 79, &(32768u32 - 31).to_le_bytes()),
        with(s.clone(), 79, &u32::MAX.to_le_bytes()),
        with(s.clone(), 73, &(32768u32 - 27).to_le_bytes()),
    ] {
        match parse(&bytes) {
            Err(Error::InvalidErasureShardIndex(headers)) => {
                assert!(matches!(*headers, ShredHeaders::Code(..)))
            }
            other => panic!("{other:?}"),
        }
    }
    assert!(parse(&with(s.clone(), 79, &(32768u32 - 32).to_le_bytes())).is_ok());
    assert!(parse(&with(s, 73, &(32768u32 - 28).to_le_bytes())).is_ok());
    assert!(matches!(
        ShredCode::from_payload(Payload::from(data_bytes())),
        Err(Error::InvalidShredVariant)
    ));
}

#[test]
fn room_in_payloads() {
    assert_eq!(ShredData::capacity(6, false).unwrap(), 963);
    assert_eq!(ShredCode::capacity(6, false).unwrap(), 987);
    assert_eq!(ShredData::capacity(6, true).unwrap(), 899);
    assert_eq!(ShredCode::capacity(55, false).unwrap(), 7);
    assert!(matches!(ShredData::capacity(55, false), Err(Error::InvalidProofSize(55))));
    assert!(matches!(ShredCode::capacity(56, false), Err(Error::InvalidProofSize(56))));
    assert_eq!(ShredData::const_capacity(6, false), Ok(963));
    assert_eq!(ShredData::const_capacity(200, false), Err(200));
    assert_eq!(ShredData::SIZE_OF_PAYLOAD, 1203);
    assert_eq!(ShredCode::SIZE_OF_PAYLOAD, 1228);
    for proof_size in 0..16 {
        for resigned in [false, true] {
            let data = ShredData::get_chained_merkle_root_offset(proof_size, resigned).unwrap();
            let code = ShredCode::get_chained_merkle_root_offset(proof_size, resigned).unwrap();
            assert_eq!(
                data - ShredData::ERASURE_SHARD_START_OFFSET,
                code - ShredCode::ERASURE_SHARD_START_OFFSET
            );
            assert_eq!(ShredData::get_proof_offset(proof_size, resigned).unwrap(), data + 32);
        }
    }
    assert_eq!(ShredCode::get_retransmitter_signature_offset(6, true).unwrap(), 1164);
    assert!(matches!(
        ShredCode::get_retransmitter_signature_offset(6, false),
        Err(Error::InvalidShredVariant)
    ));
}

#[test]
fn writing_parts() {
    let mut shred = parse(&code_bytes()).unwrap();
    let before = shred.clone();
    shred.set_retransmitter_signature(&[8u8; 64]).unwrap();
    assert_eq!(shred.retransmitter_signature().unwrap(), [8u8; 64]);
    assert_eq!(shred.merkle_root().unwrap(), before.merkle_root().unwrap());
    assert_eq!(shred.payload().as_slice()[..1164], before.payload().as_slice()[..1164]);
    let node = shred.merkle_node().unwrap();
    shred.set_chained_merkle_root(&[7u8; 32]).unwrap();
    assert_eq!(shred.chained_merkle_root().unwrap(), [7u8; 32]);
    assert_eq!(shred.erasure_shard().unwrap(), before.erasure_shard().unwrap());
    assert_ne!(shred.merkle_node().unwrap(), node);
    let branch: Vec<[u8; 20]> = (0..6u8).map(|k| [k; 20]).collect();
    shred.set_merkle_proof(&branch).unwrap();
    assert_eq!(shred.merkle_proof().unwrap(), branch);
    assert_eq!(shred.retransmitter_signature().unwrap(), [8u8; 64]);
    let mut data = parse(&data_bytes()).unwrap();
    assert!(matches!(
        data.set_retransmitter_signature(&[8u8; 64]),
        Err(Error::InvalidShredVariant)
    ));
    assert_eq!(data, parse(&data_bytes()).unwrap());
}

#[test]
fn proofs_of_the_wrong_size() {
    let mut shred = parse(&code_bytes()).unwrap();
    let offset = 1228 - 64 - 120;
    let branch: Vec<[u8; 20]> = (0..7u8).map(|k| [k + 100; 20]).collect();
    assert!(matches!(shred.set_merkle_proof(&branch), Err(Error::InvalidMerkleProof)));
    assert_eq!(shred.payload().as_slice()[offset..offset + 120], branch.concat()[..120]);
    assert_eq!(shred.retransmitter_signature().unwrap()[..], code_bytes()[1164..]);
    let mut shred = parse(&code_bytes()).unwrap();
    assert!(matches!(shred.set_merkle_proof(&branch[..2]), Err(Error::InvalidMerkleProof)));
    assert_eq!(shred.payload().as_slice()[offset..offset + 40], branch.concat()[..40]);
    assert_eq!(shred.payload().as_slice()[offset + 40..], code_bytes()[offset + 40..]);
}

#[test]
fn duplicates() {
    let shred = parse(&code_bytes()).unwrap();
    assert!(!shred.is_shred_duplicate(&shred));
    let mut signed = shred.clone();
    signed.set_retransmitter_signature(&[8u8; 64]).unwrap();
    assert_ne!(shred, signed);
    assert!(shred.is_shred_duplicate(&signed) && signed.is_shred_duplicate(&shred));
    let other = parse(&with(code_bytes(), 500, &[0])).unwrap();
    assert!(shred.is_shred_duplicate(&other) && other.is_shred_duplicate(&shred));
    assert!(signed.is_shred_duplicate(&other));
    let elsewhere = parse(&with(code_bytes(), 65, &[1])).unwrap();
    assert!(!shred.is_shred_duplicate(&elsewhere));
    let data = parse(&data_bytes()).unwrap();
    assert!(data.is_shred_duplicate(&parse(&with(data_bytes(), 1202, &[0])).unwrap()));
    assert!(!data.is_shred_duplicate(&shred));
}

#[test]
fn conflicts() {
    // What a retransmitter signed makes another payload, but no conflict.
    let shred = parse(&code_bytes()).unwrap();
    assert!(!shred.conflicts_with(&shred));
    let mut signed = shred.clone();
    signed.set_retransmitter_signature(&[8u8; 64]).unwrap();
    assert!(!shred.conflicts_with(&signed) && !signed.conflicts_with(&shred));
    let other = parse(&with(code_bytes(), 500, &[0])).unwrap();
    assert!(shred.conflicts_with(&other) && other.conflicts_with(&shred));
    assert!(signed.conflicts_with(&other));
    let elsewhere = parse(&with(code_bytes(), 65, &[1])).unwrap();
    assert!(!shred.conflicts_with(&elsewhere));
    let data = parse(&data_bytes()).unwrap();
    assert!(data.conflicts_with(&parse(&with(data_bytes(), 1202, &[0])).unwrap()));
    assert!(!data.conflicts_with(&shred));
}

#[test]
fn erasure_mismatches() {
    let shred = parse(&code_bytes()).unwrap();
    assert!(!shred.erasure_mismatch(&shred).unwrap());
    let next = with(with(code_bytes(), 73, &37u32.to_le_bytes()), 87, &[5]);
    assert!(!shred.erasure_mismatch(&parse(&next).unwrap()).unwrap());
    for bytes in [
        with(code_bytes(), 0, &[0]),
        with(code_bytes(), 83, &[31]),
        with(code_bytes(), 85, &[31]),
        with(code_bytes(), 87, &[5]),
    ] {
        assert!(shred.erasure_mismatch(&parse(&bytes).unwrap()).unwrap());
    }
    let data = parse(&data_bytes()).unwrap();
    assert!(matches!(shred.erasure_mismatch(&data), Err(Error::InvalidShredType)));
    assert!(matches!(data.erasure_mismatch(&data), Err(Error::InvalidShredType)));
}
