use dimsp::{PublicKey, PublicKeyBuff, PublicKeyError, SyncEndpoint, SyncEndpointError};

#[test]
fn endpoint_is_written_as_prefixed_lower_case_hex() {
    let mut bytes = [0u8; 32];
    bytes[0] = 0x0f;
    bytes[1] = 0xa5;
    bytes[31] = 0xff;
    let text = SyncEndpoint(bytes).to_string();
    assert_eq!(
        text,
        "0x0fa50000000000000000000000000000000000000000000000000000000000ff"
    );
}

#[test]
fn endpoint_is_read_back_from_its_text() {
    let mut bytes = [0u8; 32];
    for i in 0..32 {
        bytes[i] = (i * 8 + 3) as u8;
    }
    let text = SyncEndpoint(bytes).to_string();
    let endpoint = SyncEndpoint::from_text(&text).unwrap();
    assert_eq!(endpoint.0, bytes);
}

#[test]
fn endpoint_text_may_lack_the_prefix_or_repeat_it() {
    let digits = "00112233445566778899aabbccddeeff00112233445566778899AABBCCDDEEFF";
    let plain = SyncEndpoint::from_text(digits).unwrap();
    assert_eq!(plain.0[1], 0x11);
    assert_eq!(plain.0[31], 0xff);
    let twice = SyncEndpoint::from_text(&format!("0x0x{}", digits)).unwrap();
    assert_eq!(twice.0, plain.0);
}

#[test]
fn endpoint_of_another_length_is_refused_with_its_text() {
    match SyncEndpoint::from_text("0x0011") {
        Err(SyncEndpointError::DeserializeLength(text)) => assert_eq!(text, "0x0011"),
        other => panic!("unexpected {:?}", other),
    }
}

#[test]
fn endpoint_that_is_not_hex_is_refused() {
    assert!(matches!(
        SyncEndpoint::from_text("0xzz"),
        Err(SyncEndpointError::NotHex)
    ));
    assert!(matches!(
        SyncEndpoint::from_text("0x123"),
        Err(SyncEndpointError::NotHex)
    ));
}

#[test]
fn default_public_key_is_a_zeroed_ecdsa_key() {
    match PublicKey::default() {
        PublicKey::ECDSA(buff) => assert_eq!(buff.0, [0u8; 33]),
        other => panic!("unexpected {:?}", other),
    }
}

#[test]
fn public_key_is_written_with_its_scheme() {
    let mut bytes = [0u8; 32];
    bytes[0] = 0xab;
    let text = PublicKey::Ed25519(PublicKeyBuff(bytes)).to_string();
    assert_eq!(
        text,
        "Ed25519: 0xab00000000000000000000000000000000000000000000000000000000000000"
    );
    let ecdsa = PublicKey::ECDSA(PublicKeyBuff([1u8; 33])).to_string();
    assert!(ecdsa.starts_with("ECDSA: 0x0101"));
    assert_eq!(ecdsa.len(), "ECDSA: 0x".len() + 66);
}

#[test]
fn public_key_bytes_are_read_from_text_of_the_right_length() {
    let key = PublicKeyBuff::<4>::from_text("0xdeadbeef").unwrap();
    assert_eq!(key.0, [0xde, 0xad, 0xbe, 0xef]);
    assert_eq!(key.to_string(), "0xdeadbeef");
    match PublicKeyBuff::<4>::from_text("0xdead") {
        Err(PublicKeyError::DeserializeLength(expected, text)) => {
            assert_eq!(expected, 4);
            assert_eq!(text, "0xdead");
        }
        other => panic!("unexpected {:?}", other),
    }
    assert!(matches!(
        PublicKeyBuff::<4>::from_text("0xnothex!"),
        Err(PublicKeyError::NotHex)
    ));
}

#[test]
fn public_key_bytes_are_taken_from_a_vector_of_the_right_length() {
    assert_eq!(
        PublicKeyBuff::<3>::from_vec(&vec![1, 2, 3]).unwrap().0,
        [1, 2, 3]
    );
    assert!(PublicKeyBuff::<3>::from_vec(&vec![1, 2]).is_none());
    assert!(PublicKeyBuff::<3>::from_vec(&vec![1, 2, 3, 4]).is_none());
}
