//! Reading pieces of shreds off their bytes, and discarding shreds on sight.
use lightweight_shred::blockstore_meta::ErasureConfig;
use lightweight_shred::discard::{check_fixed_fec_set, check_last_data_shred_index, verify_shred_slots};
use lightweight_shred::error::Error;
use lightweight_shred::{layout, should_discard_shred, wire, Payload, Shred, ShredFetchStats, ShredId, ShredType};

fn data_bytes() -> Vec<u8> {
    let mut s: Vec<u8> = (0..1203usize).map(|k| (k * 7 + 3) as u8).collect();
    s[64] = 0xb6;
    s[65..73].copy_from_slice(&1000u64.to_le_bytes());
    s[73..77].copy_from_slice(&35u32.to_le_bytes());
    s[77..79].copy_from_slice(&0xabcdu16.to_le_bytes());
    s[79..83].copy_from_slice(&32u32.to_le_bytes());
    s[83..85].copy_from_slice(&7u16.to_le_bytes());
    s[85] = 0b0000_0011;
    s[86..88].copy_from_slice(&188u16.to_le_bytes());
    s
}

fn code_bytes() -> Vec<u8> {
    let mut s: Vec<u8> = (0..1228usize).map(|k| (k * 5 + 1) as u8).collect();
    s[64] = 0x66;
    s[65..73].copy_from_slice(&1000u64.to_le_bytes());
    s[73..77].copy_from_slice(&36u32.to_le_bytes());
    s[77..79].copy_from_slice(&0xabcdu16.to_le_bytes());
    s[79..83].copy_from_slice(&32u32.to_le_bytes());
    s[83..85].copy_from_slice(&32u16.to_le_bytes());
    s[85..87].copy_from_slice(&32u16.to_le_bytes());
    s[87..89].copy_from_slice(&4u16.to_le_bytes());
    s
}

fn with(mut s: Vec<u8>, at: usize, bytes: &[u8]) -> Vec<u8> {
    s[at..at + bytes.len()].copy_from_slice(bytes);
    s
}

#[test]
fn pieces_agree_with_parsed_shreds() {
    for s in [data_bytes(), code_bytes()] {
        let shred = Shred::new_from_serialized_shred(Payload::from(s.clone())).unwrap();
        assert_eq!(layout::get_slot(&s), Some(shred.slot()));
        assert_eq!(layout::get_index(&s), Some(shred.index()));
        assert_eq!(layout::get_version(&s), Some(shred.version()));
        assert_eq!(layout::get_fec_set_index(&s), Some(shred.fec_set_index()));
        assert_eq!(layout::get_shred_id(&s), Some(shred.id()));
        assert_eq!(layout::get_shred_type(&s).unwrap(), shred.shred_type());
        assert_eq!(layout::get_signature(&s).unwrap(), *shred.signature());
        assert_eq!(layout::get_merkle_root(&s), Some(shred.merkle_root().unwrap()));
        assert_eq!(
            layout::get_chained_merkle_root(&s),
            Some(shred.chained_merkle_root().unwrap())
        );
        assert_eq!(
            layout::get_retransmitter_signature(&s).ok(),
            shred.retransmitter_signature().ok()
        );
        assert_eq!(layout::get_common_header_bytes(&s).unwrap(), &s[..83]);
    }
    let s = data_bytes();
    assert_eq!(wire::get_data(&s).unwrap(), &s[88..188]);
    assert_eq!(wire::get_parent_offset(&s), Some(7));
    assert_eq!(wire::get_flags(&s).unwrap().bits(), 3);
    assert_eq!(wire::get_reference_tick(&with(s, 85, &[0xc5])).unwrap(), 5);
    assert_eq!(
        wire::get_erasure_config(&code_bytes()).unwrap(),
        ErasureConfig { num_data: 32, num_coding: 32 }
    );
}

#[test]
fn pieces_of_short_buffers() {
    let s = data_bytes();
    assert_eq!(wire::get_slot(&s[..72]), None);
    assert_eq!(wire::get_slot(&s[..73]), Some(1000));
    assert_eq!(wire::get_index(&s[..76]), None);
    assert_eq!(wire::get_version(&s[..78]), None);
    assert_eq!(wire::get_fec_set_index(&s[..82]), None);
    assert_eq!(wire::get_fec_set_index(&s[..83]), Some(32));
    assert_eq!(wire::get_parent_offset(&s[..84]), None);
    assert_eq!(wire::get_common_header_bytes(&s[..82]), None);
    assert_eq!(wire::get_signature(&s[..63]), None);
    assert_eq!(wire::get_shred_id(&s[..76]), None);
    assert_eq!(wire::get_shred_id(&s[..77]), Some(ShredId::new(1000, 35, ShredType::Data)));
    assert!(matches!(wire::get_shred_variant(&s[..64]), Err(Error::InvalidPayloadSize(64))));
    assert!(matches!(wire::get_shred_type(&s[..10]), Err(Error::InvalidPayloadSize(10))));
    assert!(matches!(wire::get_flags(&s[..85]), Err(Error::InvalidPayloadSize(85))));
    assert!(matches!(wire::get_reference_tick(&s[..85]), Err(Error::InvalidPayloadSize(85))));
    assert!(matches!(wire::get_data(&s[..87]), Err(Error::InvalidPayloadSize(87))));
    assert!(matches!(
        wire::get_data(&s[..187]),
        Err(Error::InvalidDataSize { size: 188, payload: 187 })
    ));
    assert!(matches!(
        wire::get_erasure_config(&code_bytes()[..86]),
        Err(Error::InvalidPayloadSize(86))
    ));
    assert!(matches!(
        wire::get_retransmitter_signature(&s[..1202]),
        Err(Error::InvalidPayloadSize(1202))
    ));
    assert_eq!(wire::get_merkle_root(&s[..1000]), None);
    assert_eq!(wire::get_merkle_root(&code_bytes()[..88]), None);
    assert_eq!(wire::get_chained_merkle_root(&s[..1000]), None);
}

#[test]
fn pieces_of_the_other_type() {
    let data = data_bytes();
    let code = code_bytes();
    assert!(matches!(wire::get_flags(&code), Err(Error::InvalidShredType)));
    assert!(matches!(wire::get_reference_tick(&code), Err(Error::InvalidShredType)));
    assert!(matches!(wire::get_data(&code), Err(Error::InvalidShredType)));
    assert!(matches!(wire::get_erasure_config(&data), Err(Error::InvalidShredType)));
    assert!(matches!(
        wire::get_retransmitter_signature(&code),
        Err(Error::InvalidShredVariant)
    ));
    assert!(wire::is_retransmitter_signed_variant(&data).unwrap());
    assert!(!wire::is_retransmitter_signed_variant(&code).unwrap());
    assert!(matches!(
        wire::is_retransmitter_signed_variant(&with(data, 64, &[0x80])),
        Err(Error::InvalidShredVariant)
    ));
}

#[test]
fn shreds_in_buffers() {
    for (s, size) in [(data_bytes(), 1203), (code_bytes(), 1228)] {
        let mut buffer = s.clone();
        buffer.extend_from_slice(&[9; 4]);
        assert_eq!(wire::get_shred_from_buf(&buffer).unwrap(), s);
        assert_eq!(wire::get_shred_from_buf(&s[..size - 1]), None);
        wire::get_shred_mut(&mut buffer).unwrap()[size - 1] ^= 1;
        assert_eq!(buffer[..size - 1], s[..size - 1]);
        assert_eq!(buffer[size - 1], s[size - 1] ^ 1);
        assert_eq!(buffer[size..], [9; 4]);
        assert!(wire::get_shred_mut(&mut buffer[..size - 1]).is_none());
        assert_eq!(wire::get_shred_from_buf(&with(buffer, 64, &[0])), None);
    }
    assert_eq!(wire::get_shred_from_buf(&[]), None);
}

#[test]
fn retransmitter_signatures_on_the_wire() {
    let mut s = data_bytes();
    let root = wire::get_merkle_root(&s);
    wire::set_retransmitter_signature(&mut s, &[4u8; 64]).unwrap();
    assert_eq!(wire::get_retransmitter_signature(&s).unwrap(), [4u8; 64]);
    assert_eq!(s[..1203 - 64], data_bytes()[..1203 - 64]);
    assert_eq!(wire::get_merkle_root(&s), root);
    assert!(matches!(
        wire::set_retransmitter_signature(&mut s[..1202], &[5u8; 64]),
        Err(Error::InvalidPayloadSize(1202))
    ));
    assert!(matches!(
        wire::set_retransmitter_signature(&mut code_bytes(), &[5u8; 64]),
        Err(Error::InvalidShredVariant)
    ));
    assert_eq!(wire::get_retransmitter_signature(&s).unwrap(), [4u8; 64]);
}

fn discard(s: &[u8]) -> (bool, ShredFetchStats) {
    let mut stats = ShredFetchStats::default();
    let discard = should_discard_shred(s, 990, 1010, 0xabcd, |_| true, &mut stats);
    (discard, stats)
}

#[test]
fn good_shreds_are_kept() {
    let zero = ShredFetchStats::default();
    assert_eq!(
        discard(&data_bytes()),
        (false, ShredFetchStats { num_shreds_merkle_data_chained: 1, ..zero })
    );
    let code = with(code_bytes(), 73, &36u32.to_le_bytes());
    assert_eq!(
        discard(&code),
        (false, ShredFetchStats { num_shreds_merkle_code_chained: 1, ..zero })
    );
    let mut longer = data_bytes();
    longer.extend_from_slice(&[0; 4]);
    assert!(!discard(&longer).0);
    longer.extend_from_slice(&[0xff; 99]);
    assert_eq!(discard(&longer), discard(&data_bytes()));
}

#[test]
fn reasons_to_discard() {
    let data = data_bytes();
    let code = code_bytes();
    let zero = ShredFetchStats::default();
    let cases = [
        (data[..1202].to_vec(), ShredFetchStats { index_overrun: 1, ..zero }),
        (with(data.clone(), 64, &[0]), ShredFetchStats { index_overrun: 1, ..zero }),
        (with(data.clone(), 77, &[0]), ShredFetchStats { shred_version_mismatch: 1, ..zero }),
        (
            with(data.clone(), 65, &1011u64.to_le_bytes()),
            ShredFetchStats { slot_out_of_range: 1, ..zero },
        ),
        (
            with(code.clone(), 65, &990u64.to_le_bytes()),
            ShredFetchStats { slot_out_of_range: 1, ..zero },
        ),
        (
            with(data.clone(), 83, &11u16.to_le_bytes()),
            ShredFetchStats { slot_out_of_range: 1, ..zero },
        ),
        (with(data.clone(), 83, &[0, 0]), ShredFetchStats { slot_out_of_range: 1, ..zero }),
        (
            with(data.clone(), 83, &1001u16.to_le_bytes()),
            ShredFetchStats { bad_parent_offset: 1, ..zero },
        ),
        (
            with(data.clone(), 73, &32768u32.to_le_bytes()),
            ShredFetchStats { index_out_of_bounds: 1, ..zero },
        ),
        (
            with(code.clone(), 73, &32768u32.to_le_bytes()),
            ShredFetchStats { index_out_of_bounds: 1, ..zero },
        ),
        (with(code.clone(), 83, &[31]), ShredFetchStats { misaligned_erasure_config: 1, ..zero }),
        (with(code.clone(), 85, &[33]), ShredFetchStats { misaligned_erasure_config: 1, ..zero }),
        (
            with(data.clone(), 85, &[0b0100_0000]),
            ShredFetchStats { unexpected_data_complete_shred: 1, ..zero },
        ),
        (with(data.clone(), 73, &[64]), ShredFetchStats { misaligned_fec_set: 1, ..zero }),
        (with(code.clone(), 79, &[33]), ShredFetchStats { misaligned_fec_set: 1, ..zero }),
        (with(code, 79, &[0xff; 4]), ShredFetchStats { misaligned_fec_set: 1, ..zero }),
    ];
    for (k, (bytes, expected)) in cases.iter().enumerate() {
        assert_eq!(discard(bytes), (true, *expected), "case {k}");
    }
}

#[test]
fn data_that_end_early() {
    let early = with(data_bytes(), 85, &[0b0100_0000]);
    let mut stats = ShredFetchStats::default();
    let keep = |slot: u64| {
        assert_eq!(slot, 1000);
        false
    };
    assert!(!should_discard_shred(&early, 990, 1010, 0xabcd, keep, &mut stats));
    assert_eq!(stats.unexpected_data_complete_shred, 1);
    assert_eq!(stats.num_shreds_merkle_data_chained, 1);
    // The last one of a slot must end a batch all the same.
    let last = with(data_bytes(), 85, &[0b1100_0000]);
    assert!(should_discard_shred(&last, 990, 1010, 0xabcd, keep, &mut stats));
    assert_eq!(stats.unexpected_data_complete_shred, 2);
    assert_eq!(stats.misaligned_last_data_index, 1);
    let end = with(last, 73, &[63]);
    assert!(!discard(&end).0);
    // Nor does it help that the end of the batch cannot be told.
    let overflow = with(early, 79, &[0xff; 4]);
    assert_eq!(discard(&overflow).1.unexpected_data_complete_shred, 1);
}

#[test]
fn only_data_that_end_early_are_asked_about() {
    let never = |_: u64| -> bool { panic!("asked") };
    let mut stats = ShredFetchStats::default();
    let early = with(data_bytes(), 85, &[0b0100_0000]);
    for bytes in [
        data_bytes(),
        code_bytes(),
        with(early.clone(), 73, &[63]),
        with(early.clone(), 77, &[0]),
        with(early.clone(), 65, &1011u64.to_le_bytes()),
        with(early.clone(), 73, &[0xff; 4]),
        with(early.clone(), 83, &[0xff; 2]),
        early[..1202].to_vec(),
    ] {
        should_discard_shred(&bytes, 990, 1010, 0xabcd, never, &mut stats);
    }
    assert_eq!(stats.unexpected_data_complete_shred, 0);
}

#[test]
fn counters_add_up() {
    let mut stats = ShredFetchStats::default();
    stats.num_shreds_merkle_data_chained = usize::MAX;
    for _ in 0..3 {
        assert!(should_discard_shred(&[], 0, 1, 0, |_| true, &mut stats));
        assert!(!should_discard_shred(&data_bytes(), 990, 1010, 0xabcd, |_| true, &mut stats));
    }
    assert_eq!(stats.index_overrun, 3);
    assert_eq!(stats.num_shreds_merkle_data_chained, usize::MAX);
}

#[test]
fn slots_of_blocks() {
    assert!(verify_shred_slots(0, 0, 0));
    assert!(!verify_shred_slots(0, 0, 1));
    assert!(!verify_shred_slots(1, 1, 0));
    assert!(verify_shred_slots(2, 1, 1));
    assert!(!verify_shred_slots(2, 0, 1));
    assert!(!verify_shred_slots(1, 2, 0));
}

#[test]
fn places_in_batches() {
    assert!(check_fixed_fec_set(0, 0) && check_fixed_fec_set(31, 0));
    assert!(!check_fixed_fec_set(32, 0) && check_fixed_fec_set(32, 32));
    assert!(!check_fixed_fec_set(31, 32) && !check_fixed_fec_set(33, 33));
    assert!(!check_fixed_fec_set(u32::MAX, u32::MAX - 31));
    assert!(check_last_data_shred_index(31) && check_last_data_shred_index(63));
    assert!(!check_last_data_shred_index(0) && !check_last_data_shred_index(32));
}

#[test]
fn fixed_batch_size() {
    assert!(ErasureConfig { num_data: 32, num_coding: 32 }.is_fixed());
    assert!(!ErasureConfig { num_data: 32, num_coding: 31 }.is_fixed());
    assert!(!ErasureConfig { num_data: 33, num_coding: 32 }.is_fixed());
}
