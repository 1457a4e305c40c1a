//! Types, flags, names and headers.
use lightweight_shred::bytes_util::{bytes_eq, bytes_of_u16, bytes_of_u32, bytes_of_u64, read_array, read_u16, read_u32, read_u64, write_at};
use lightweight_shred::error::{Error, ReadError, WriteError};
use lightweight_shred::flags::{DATA_COMPLETE_SHRED, LAST_SHRED_IN_SLOT, SHRED_TICK_REFERENCE_MASK};
use lightweight_shred::header::{deserialize_coding_headers, deserialize_data_headers, serialize_coding_headers_into, CodingShredHeader, ShredCommonHeader};
use lightweight_shred::shred_type::ShredVariant;
use lightweight_shred::{get_data_shred_bytes_per_batch_typical, ErasureSetId, ShredFlags, ShredId, ShredType};

fn unhex(s: &str) -> Vec<u8> {
    (0..s.len() / 2).map(|i| u8::from_str_radix(&s[2 * i..2 * i + 2], 16).unwrap()).collect()
}

#[test]
fn little_endian_integers() {
    let s = [0xff, 0x34, 0x12, 0x78, 0x56, 0x9a, 0xbc, 0xde, 0xf0];
    assert_eq!(read_u16(&s, 1), 0x1234);
    assert_eq!(read_u32(&s, 1), 0x56781234);
    assert_eq!(read_u64(&s, 1), 0xf0debc9a56781234);
    assert_eq!(bytes_of_u16(0x1234), [0x34, 0x12]);
    assert_eq!(bytes_of_u32(0x56781234), [0x34, 0x12, 0x78, 0x56]);
    assert_eq!(bytes_of_u64(0xf0debc9a56781234), s[1..9]);
    assert_eq!(read_array::<3>(&s, 2), [0x12, 0x78, 0x56]);
    let mut t = [0u8; 5];
    write_at(&mut t, 1, &[7, 8]);
    assert_eq!(t, [0, 7, 8, 0, 0]);
    assert!(bytes_eq(&t, &[0, 7, 8, 0, 0]));
    assert!(!bytes_eq(&t, &[0, 7, 8, 0]));
    assert!(!bytes_eq(&t, &[0, 7, 8, 0, 1]));
}

#[test]
fn shred_type_bytes() {
    assert_eq!(u8::from(ShredType::Data), 0b1010_0101);
    assert_eq!(u8::from(ShredType::Code), 0b0101_1010);
    for byte in 0..=255u8 {
        match ShredType::try_from(byte) {
            Ok(shred_type) => assert_eq!(u8::from(shred_type), byte),
            Err(e) => {
                assert_eq!(e.number, byte);
                assert!(byte != 0b1010_0101 && byte != 0b0101_1010);
            }
        }
    }
}

#[test]
fn variant_bytes_round_trip() {
    let mut known = 0;
    for byte in 0..=255u8 {
        match ShredVariant::try_from(byte) {
            Ok(variant) => {
                known += 1;
                assert_eq!(u8::from(variant), byte);
                let expected = match byte & 0xF0 {
                    0x60 => ShredVariant::MerkleCode { proof_size: byte & 15, resigned: false },
                    0x70 => ShredVariant::MerkleCode { proof_size: byte & 15, resigned: true },
                    0x90 => ShredVariant::MerkleData { proof_size: byte & 15, resigned: false },
                    _ => ShredVariant::MerkleData { proof_size: byte & 15, resigned: true },
                };
                assert_eq!(variant, expected);
            }
            Err(e) => {
                assert!(matches!(e, Error::InvalidShredVariant));
                assert!(!matches!(byte & 0xF0, 0x60 | 0x70 | 0x90 | 0xb0));
            }
        }
    }
    assert_eq!(known, 64);
    assert!(ShredVariant::try_from(u8::from(ShredType::Data)).is_err());
    assert!(ShredVariant::try_from(u8::from(ShredType::Code)).is_err());
}

#[test]
fn variant_types() {
    let code = ShredVariant::MerkleCode { proof_size: 3, resigned: true };
    let data = ShredVariant::MerkleData { proof_size: 3, resigned: false };
    assert_eq!(ShredType::from(code), ShredType::Code);
    assert_eq!(ShredType::from(data), ShredType::Data);
}

#[test]
fn flags() {
    assert_eq!(ShredFlags::from_bits(0xff).unwrap().bits(), 0xff);
    assert_eq!(ShredFlags::empty().bits(), 0);
    assert_eq!(ShredFlags::default(), ShredFlags::empty());
    assert_eq!(ShredFlags::from_reference_tick(5).bits(), 5);
    assert_eq!(ShredFlags::from_reference_tick(63).bits(), 63);
    assert_eq!(ShredFlags::from_reference_tick(64).bits(), SHRED_TICK_REFERENCE_MASK);
    assert_eq!(ShredFlags::from_reference_tick(255).bits(), 0b0011_1111);
    let last = ShredFlags::from_bits_retain(LAST_SHRED_IN_SLOT);
    assert!(last.contains(LAST_SHRED_IN_SLOT) && last.contains(DATA_COMPLETE_SHRED));
    let complete = ShredFlags::from_bits_retain(DATA_COMPLETE_SHRED | 9);
    assert!(complete.contains(DATA_COMPLETE_SHRED) && !complete.contains(LAST_SHRED_IN_SLOT));
    assert!(complete.intersects(LAST_SHRED_IN_SLOT));
    assert!(!ShredFlags::from_reference_tick(255).intersects(LAST_SHRED_IN_SLOT));
}

#[test]
fn shred_id_parts_and_seed() {
    let id = ShredId::new(5, 9, ShredType::Data);
    assert_eq!((id.slot(), id.index(), id.shred_type()), (5, 9, ShredType::Data));
    assert_eq!(id.unpack(), (5, 9, ShredType::Data));
    let seed = id.seed(&[7u8; 32]);
    assert_eq!(
        seed.to_vec(),
        unhex("97eb79a9d58fbdc3b958ec6fd60e48c9c8023cbe8d53586f28a0ce00b26eaf1f")
    );
    assert_ne!(ShredId::new(5, 9, ShredType::Code).seed(&[7u8; 32]), seed);
    // The same digest, from the hasher itself.
    let direct = solana_sha256_hasher::hashv(&[
        &5u64.to_le_bytes(),
        &[0b1010_0101],
        &9u32.to_le_bytes(),
        &[7u8; 32],
    ]);
    assert_eq!(seed, direct.to_bytes());
}

#[test]
fn erasure_set_id_parts() {
    let id = ErasureSetId::new(7, 64);
    assert_eq!((id.slot(), id.fec_set_index()), (7, 64));
    assert_eq!(id.store_key(), (7, 64));
    assert!(ErasureSetId::new(7, 32) < id && id < ErasureSetId::new(8, 0));
}

#[test]
fn typical_batch_size() {
    assert_eq!(get_data_shred_bytes_per_batch_typical(), 32 * (1203 - 88 - 32 - 6 * 20));
    assert_eq!(get_data_shred_bytes_per_batch_typical(), 30816);
}

#[test]
fn data_headers_as_wincode_reads_them() {
    let mut s: Vec<u8> = (0..100u8).collect();
    s[64] = 0xb5;
    let (common, data) = deserialize_data_headers(&s).unwrap();
    let ((signature, variant, slot, index, version, fec_set_index), (parent_offset, flags, size)) =
        wincode::deserialize::<(([u8; 64], u8, u64, u32, u16, u32), (u16, u8, u16))>(&s).unwrap();
    assert_eq!(common.signature, signature);
    assert_eq!(u8::from(common.shred_variant), variant);
    assert_eq!(common.slot, slot);
    assert_eq!(common.index, index);
    assert_eq!(common.version, version);
    assert_eq!(common.fec_set_index, fec_set_index);
    assert_eq!(data.parent_offset, parent_offset);
    assert_eq!(data.flags.bits(), flags);
    assert_eq!(data.size, size);
    assert_eq!(common.slot, 0x48_47_46_45_44_43_42_41);
    assert_eq!(size, 0x57_56);
}

#[test]
fn coding_headers_as_wincode_writes_them() {
    let common = ShredCommonHeader {
        signature: [9u8; 64],
        shred_variant: ShredVariant::MerkleCode { proof_size: 6, resigned: true },
        slot: 0x0102030405060708,
        index: 0x11121314,
        version: 0x2122,
        fec_set_index: 0x31323334,
    };
    let coding = CodingShredHeader { num_data_shreds: 32, num_coding_shreds: 33, position: 5 };
    let mut buffer = vec![0xeeu8; 100];
    serialize_coding_headers_into(&mut buffer, &common, &coding).unwrap();
    let expected = wincode::serialize(&(
        ([9u8; 64], 0x76u8, common.slot, common.index, common.version, common.fec_set_index),
        (32u16, 33u16, 5u16),
    ))
    .unwrap();
    assert_eq!(expected.len(), 89);
    assert_eq!(buffer[..89], expected[..]);
    assert_eq!(buffer[89..], [0xee; 11]);
    let (common_read, coding_read) = deserialize_coding_headers(&buffer).unwrap();
    assert!(common_read == common);
    assert_eq!(coding_read, coding);
}

#[test]
fn short_or_bad_headers() {
    let s = vec![0x96u8; 88];
    assert!(deserialize_data_headers(&s).is_ok());
    assert_eq!(deserialize_data_headers(&s[..87]).unwrap_err(), ReadError::ReadSizeLimit(88));
    assert_eq!(deserialize_coding_headers(&s).unwrap_err(), ReadError::ReadSizeLimit(89));
    assert!(matches!(
        wincode::deserialize::<(([u8; 64], u8, u64, u32, u16, u32), (u16, u8, u16))>(&s[..87]),
        Err(wincode::ReadError::Io(wincode::io::ReadError::ReadSizeLimit(88)))
    ));
    let bad = vec![0x5au8; 89];
    assert_eq!(
        deserialize_data_headers(&bad).unwrap_err(),
        ReadError::InvalidTagEncoding(0x5a)
    );
    assert_eq!(
        deserialize_coding_headers(&bad).unwrap_err(),
        ReadError::InvalidTagEncoding(0x5a)
    );
}

#[test]
fn short_buffer_for_headers() {
    let common = ShredCommonHeader {
        signature: [9u8; 64],
        shred_variant: ShredVariant::MerkleCode { proof_size: 6, resigned: true },
        slot: 1,
        index: 2,
        version: 3,
        fec_set_index: 4,
    };
    let coding = CodingShredHeader { num_data_shreds: 32, num_coding_shreds: 33, position: 5 };
    let mut buffer = vec![1u8; 88];
    assert_eq!(
        serialize_coding_headers_into(&mut buffer, &common, &coding).unwrap_err(),
        WriteError::WriteSizeLimit(89)
    );
    assert_eq!(buffer, vec![1u8; 88]);
}
