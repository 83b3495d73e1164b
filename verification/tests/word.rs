//! Tests of the word-as-bytes primitives.

use libc_bench::word::{load_word, store_word, word_size};

#[test]
fn word_size_matches_usize() {
    assert_eq!(word_size(), std::mem::size_of::<usize>());
}

#[test]
fn load_is_little_endian_read() {
    let bytes: Vec<u8> = (1..=20u8).collect();
    let w = word_size();
    for at in 0..=(bytes.len() - w) {
        let mut expected = [0u8; 8];
        expected[..w].copy_from_slice(&bytes[at..at + w]);
        let want = u64::from_le_bytes(expected) as usize;
        assert_eq!(load_word(&bytes, at), want, "at {at}");
    }
}

#[test]
fn store_then_load_round_trips() {
    let w = word_size();
    for at in 0..5 {
        let mut bytes = vec![0xAAu8; 16];
        let value = 0x0102_0304usize.wrapping_mul(0x0001_0001) ^ 0x8000_0000;
        store_word(&mut bytes, at, value);
        assert_eq!(load_word(&bytes, at), value);
        assert!(bytes[..at].iter().all(|&b| b == 0xAA));
        assert!(bytes[at + w..].iter().all(|&b| b == 0xAA));
    }
}
