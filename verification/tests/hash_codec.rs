use dimsp::hash::{keccack256, Hash32};
use dimsp::SyncEndpoint;

fn unhex(text: &str) -> Vec<u8> {
    hex::decode(text).unwrap()
}

#[test]
fn lanes_are_big_endian() {
    let mut bytes = [0u8; 32];
    for i in 0..32 {
        bytes[i] = i as u8;
    }
    let hash = Hash32::from_bytes(&bytes);
    assert_eq!(hash.h1, 0x0001020304050607);
    assert_eq!(hash.h2, 0x08090a0b0c0d0e0f);
    assert_eq!(hash.h3, 0x1011121314151617);
    assert_eq!(hash.h4, 0x18191a1b1c1d1e1f);
    assert_eq!(hash.to_bytes(), bytes);
}

#[test]
fn hash32_round_trips_from_lanes() {
    let hash = Hash32 { h1: u64::MAX, h2: 0, h3: 0x8000000000000001, h4: 0x00ff00ff00ff00ff };
    assert_eq!(Hash32::from_bytes(&hash.to_bytes()), hash);
    let bytes = hash.to_bytes();
    assert_eq!(&bytes[..8], &[0xff; 8]);
    assert_eq!(&bytes[8..16], &[0; 8]);
    assert_eq!(&bytes[16..24], &[0x80, 0, 0, 0, 0, 0, 0, 1]);
    assert_eq!(&bytes[24..], &[0, 0xff, 0, 0xff, 0, 0xff, 0, 0xff]);
}

#[test]
fn hash32_round_trips_from_every_byte_value() {
    for seed in 0..=255u8 {
        let mut bytes = [0u8; 32];
        for i in 0..32 {
            bytes[i] = seed.wrapping_mul(31).wrapping_add((i as u8).wrapping_mul(7));
        }
        assert_eq!(Hash32::from_bytes(&bytes).to_bytes(), bytes);
    }
}

#[test]
fn keccak_of_the_empty_string() {
    assert_eq!(
        keccack256(b"").to_vec(),
        unhex("c5d2460186f7233c927e7db2dcc703c0e500b653ca82273b7bfad8045d85a470")
    );
}

#[test]
fn keccak_of_abc() {
    assert_eq!(
        keccack256(b"abc").to_vec(),
        unhex("4e03657aea45a94fc7d47ba826c8d667c0d1e6e33a64a036ec44f58fa12d6c45")
    );
}

#[test]
fn keccak_is_not_the_identity() {
    let input = [7u8; 32];
    assert_ne!(keccack256(&input), input);
    assert_ne!(keccack256(b"Hell"), keccack256(b"o wo"));
}

#[test]
fn endpoint_and_hash_convert_both_ways() {
    let mut bytes = [0u8; 32];
    for i in 0..32 {
        bytes[i] = 0xa0 + i as u8;
    }
    let hash = Hash32::from(SyncEndpoint(bytes));
    assert_eq!(hash.h1, 0xa0a1a2a3a4a5a6a7);
    assert_eq!(hash.h4, 0xb8b9babbbcbdbebf);
    let endpoint = SyncEndpoint::from(hash);
    assert_eq!(endpoint.0, bytes);
}
