use secio::PublicKey;
use secio::SecioError;
use secio::SecioKeyPair;
use secio::msg::Proposal;

#[test]
fn secp256k1_raw_key_validation() {
    // the zero scalar is invalid
    assert_eq!(
        SecioKeyPair::secp256k1_raw_key(&[0u8; 32]).err().unwrap(),
        SecioError::KeyFormat
    );
    // wrong length is invalid
    assert_eq!(
        SecioKeyPair::secp256k1_raw_key(&[1u8; 31]).err().unwrap(),
        SecioError::KeyFormat
    );
    // the scalar 1 is valid
    let mut one = [0u8; 32];
    one[31] = 1;
    let kp = SecioKeyPair::secp256k1_raw_key(&one).unwrap();
    match kp.to_public_key() {
        PublicKey::Secp256k1(data) => assert_eq!(data.len(), 33),
        _ => panic!("wrong key algorithm"),
    }
}

#[test]
fn secp256k1_from_der_matches_raw() {
    let mut scalar = [0u8; 32];
    scalar[31] = 7;
    // RFC 5915 ECPrivateKey: SEQUENCE { INTEGER 1, OCTET STRING scalar }
    let mut der: Vec<u8> = vec![0x30, 0x25, 0x02, 0x01, 0x01, 0x04, 0x20];
    der.extend_from_slice(&scalar);
    let from_der = SecioKeyPair::secp256k1_from_der(&der).unwrap();
    let from_raw = SecioKeyPair::secp256k1_raw_key(&scalar).unwrap();
    assert!(from_der.to_public_key().same_key(&from_raw.to_public_key()));
    assert_eq!(
        SecioKeyPair::secp256k1_from_der(b"not der").err().unwrap(),
        SecioError::KeyFormat
    );
}

#[test]
fn ed25519_construction() {
    assert_eq!(
        SecioKeyPair::ed25519_from_pkcs8(b"garbage").err().unwrap(),
        SecioError::KeyFormat
    );
    let kp = SecioKeyPair::ed25519_generated().unwrap();
    match kp.to_public_key() {
        PublicKey::Ed25519(data) => assert_eq!(data.len(), 32),
        _ => panic!("wrong key algorithm"),
    }
}

#[test]
fn rsa_rejects_malformed_material() {
    assert_eq!(
        SecioKeyPair::rsa_from_pkcs8(b"garbage", vec![1, 2, 3]).err().unwrap(),
        SecioError::KeyFormat
    );
}

#[test]
fn peer_id_is_sha256_multihash_of_encoded_key() {
    let kp = SecioKeyPair::ed25519_generated().unwrap();
    let peer_id = kp.to_peer_id();
    assert_eq!(peer_id.len(), 34);
    assert_eq!(peer_id[0], 0x12);
    assert_eq!(peer_id[1], 0x20);
    let enc = secio::msg::encode_pubkey_vec(&kp.to_public_key());
    let digest = ring::digest::digest(&ring::digest::SHA256, &enc);
    assert_eq!(&peer_id[2..], digest.as_ref());
}

#[test]
fn signatures_verify_for_all_algorithms() {
    let msg = b"payload to sign";
    let ed = SecioKeyPair::ed25519_generated().unwrap();
    let sig = ed.sign(msg).unwrap();
    assert!(secio::keys::verify_signature(&ed.to_public_key(), msg, &sig));
    assert!(!secio::keys::verify_signature(&ed.to_public_key(), b"other payload", &sig));

    let mut scalar = [0u8; 32];
    scalar[31] = 9;
    let sk = SecioKeyPair::secp256k1_raw_key(&scalar).unwrap();
    let sig2 = sk.sign(msg).unwrap();
    assert!(secio::keys::verify_signature(&sk.to_public_key(), msg, &sig2));
    assert!(!secio::keys::verify_signature(&sk.to_public_key(), b"other payload", &sig2));
}

fn sample_proposal() -> Proposal {
    let kp = SecioKeyPair::ed25519_generated().unwrap();
    Proposal {
        rand: (0..16u8).collect(),
        pubkey: kp.to_public_key(),
        exchanges: vec![b"P-256".to_vec(), b"P-384".to_vec()],
        ciphers: vec![b"AES-128".to_vec(), b"AES-256".to_vec()],
        hashes: vec![b"SHA256".to_vec(), b"SHA512".to_vec()],
    }
}

#[test]
fn propose_roundtrip() {
    let p = sample_proposal();
    let enc = secio::msg::encode_propose(&p);
    let q = secio::msg::decode_propose(&enc).unwrap();
    assert_eq!(secio::msg::encode_propose(&q), enc);
    assert_eq!(q.rand, p.rand);
    assert_eq!(q.exchanges, p.exchanges);
    assert_eq!(q.ciphers, p.ciphers);
    assert_eq!(q.hashes, p.hashes);
    assert!(q.pubkey.same_key(&p.pubkey));
}

#[test]
fn propose_decode_rejects_trailing_bytes() {
    let p = sample_proposal();
    let mut enc = secio::msg::encode_propose(&p);
    enc.push(0);
    assert!(secio::msg::decode_propose(&enc).is_none());
    assert!(secio::msg::decode_propose(b"").is_none());
}

#[test]
fn exchange_roundtrip() {
    let m = secio::msg::ExchangeMsg {
        epubkey: vec![9u8; 65],
        signature: vec![7u8; 64],
    };
    let enc = secio::msg::encode_exchange(&m);
    let q = secio::msg::decode_exchange(&enc).unwrap();
    assert_eq!(q.epubkey, m.epubkey);
    assert_eq!(q.signature, m.signature);
    let mut broken = enc.clone();
    broken[0] = 0x11;
    assert!(secio::msg::decode_exchange(&broken).is_none());
}

#[test]
fn varint_roundtrip() {
    for value in [0u64, 1, 127, 128, 129, 300, 16383, 16384, 1 << 20, u32::MAX as u64] {
        let mut buf: Vec<u8> = Vec::new();
        secio::wire::write_varint(&mut buf, value);
        let (got, end) = secio::wire::read_varint(&buf, 0).unwrap();
        assert_eq!(got, value);
        assert_eq!(end, buf.len());
    }
}

#[test]
fn u32_be_roundtrip() {
    for value in [0u32, 1, 255, 256, 65535, 1 << 24, u32::MAX] {
        let mut buf: Vec<u8> = Vec::new();
        secio::wire::encode_u32_be(value, &mut buf);
        assert_eq!(buf.len(), 4);
        assert_eq!(secio::wire::decode_u32_be(&buf), value);
    }
}

#[test]
fn propose_decode_is_strict_about_lengths() {
    let p = sample_proposal();
    let enc = secio::msg::encode_propose(&p);
    // shortening the first field's payload breaks the framing
    let mut broken = enc.clone();
    broken[1] = broken[1].wrapping_sub(1);
    assert!(secio::msg::decode_propose(&broken).is_none());
    // truncated input is refused
    assert!(secio::msg::decode_propose(&enc[..enc.len() - 1]).is_none());
}
