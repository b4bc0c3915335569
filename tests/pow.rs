use pow_engine::pow::{at_most, check_nonce, nonce_bytes, search, target_for};
use sha2::{Digest, Sha256};

fn digest_of(header: &[u8], nonce: u64) -> Vec<u8> {
    let mut data = header.to_vec();
    data.extend_from_slice(&nonce.to_be_bytes());
    Sha256::digest(&data).to_vec()
}

#[test]
fn nonce_bytes_are_big_endian() {
    assert_eq!(nonce_bytes(0x0102030405060708), vec![1, 2, 3, 4, 5, 6, 7, 8]);
    assert_eq!(nonce_bytes(0), vec![0; 8]);
}

#[test]
fn target_of_difficulty() {
    assert_eq!(target_for(1), vec![0xff; 32]);
    let t = target_for(2);
    assert_eq!(&t[..8], &[0x7f, 0xff, 0xff, 0xff, 0xff, 0xff, 0xff, 0xff]);
    assert!(t[8..].iter().all(|b| *b == 0xff));
    let u = target_for(u64::MAX);
    assert_eq!(&u[..8], &[0, 0, 0, 0, 0, 0, 0, 1]);
}

#[test]
fn at_most_reads_big_endian() {
    assert!(at_most(&vec![0, 5], &vec![0, 5]));
    assert!(at_most(&vec![0, 255], &vec![1, 0]));
    assert!(!at_most(&vec![1, 0], &vec![0, 255]));
    assert!(at_most(&vec![], &vec![]));
}

#[test]
fn check_nonce_uses_sha256_of_header_and_nonce() {
    let header = b"header bytes".to_vec();
    let d = digest_of(&header, 42);
    assert!(check_nonce(&header, 42, &d));
    let mut lower = d.clone();
    let last = lower.iter().rposition(|b| *b != 0).unwrap();
    lower[last] -= 1;
    for b in lower[last + 1..].iter_mut() {
        *b = 0xff;
    }
    assert!(!check_nonce(&header, 42, &lower));
}

#[test]
fn easiest_target_accepts_first_nonce() {
    let header = b"abc".to_vec();
    assert_eq!(search(&header, &target_for(1), 5, 3, 10), Some(5));
}

#[test]
fn search_returns_only_solving_nonces_on_its_stride() {
    let header = b"candidate".to_vec();
    let target = target_for(16);
    let found = search(&header, &target, 3, 4, 10_000).expect("a nonce within reach");
    assert_eq!(found % 4, 3);
    assert!(check_nonce(&header, found, &target));
    assert!(digest_of(&header, found) <= target);
    let mut n = 3;
    while n < found {
        assert!(digest_of(&header, n) > target);
        n += 4;
    }
}

#[test]
fn search_gives_up_after_its_tries() {
    let header = b"candidate".to_vec();
    let target = vec![0u8; 32];
    assert_eq!(search(&header, &target, 0, 1, 50), None);
}

#[test]
fn search_stops_at_end_of_nonce_space() {
    let header = b"end".to_vec();
    let target = vec![0u8; 32];
    assert_eq!(search(&header, &target, u64::MAX - 1, 5, 100), None);
}
