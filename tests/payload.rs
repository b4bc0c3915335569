use pow_engine::fork::chain_work;
use pow_engine::payload::{decode_payload, encode_payload, Payload};

#[test]
fn payload_bytes_are_big_endian() {
    let p = Payload { nonce: 0x0102030405060708, difficulty: 10, timestamp: 0xaabb };
    let b = encode_payload(&p);
    assert_eq!(b.len(), 24);
    assert_eq!(&b[..8], &[1, 2, 3, 4, 5, 6, 7, 8]);
    assert_eq!(&b[8..16], &[0, 0, 0, 0, 0, 0, 0, 10]);
    assert_eq!(&b[16..], &[0, 0, 0, 0, 0, 0, 0xaa, 0xbb]);
}

#[test]
fn payload_round_trips() {
    for p in [
        Payload { nonce: 0, difficulty: 0, timestamp: 0 },
        Payload { nonce: u64::MAX, difficulty: 1, timestamp: 1_700_000_000 },
        Payload { nonce: 12345, difficulty: u64::MAX, timestamp: u64::MAX },
    ] {
        assert_eq!(decode_payload(&encode_payload(&p)), Some(p));
    }
}

#[test]
fn payload_of_wrong_length_is_rejected() {
    assert_eq!(decode_payload(&vec![]), None);
    assert_eq!(decode_payload(&vec![0; 23]), None);
    assert_eq!(decode_payload(&vec![0; 25]), None);
}

#[test]
fn chain_work_sums_difficulties() {
    assert_eq!(chain_work(&vec![]), Some(0));
    assert_eq!(chain_work(&vec![10, 10, 30]), Some(50));
    assert_eq!(chain_work(&vec![u64::MAX]), Some(u64::MAX));
    assert_eq!(chain_work(&vec![u64::MAX, 1]), None);
    assert_eq!(chain_work(&vec![u64::MAX - 1, 1, 0]), Some(u64::MAX));
}
