use aes_ctr::cipher::generic_array::GenericArray;
use aes_ctr::cipher::stream::NewStreamCipher;
use aes_ctr::cipher::stream::SyncStreamCipher;
use secio::Cipher;
use secio::Digest;
use secio::SecioError;
use secio::SecioMiddleware;
use secio::StreamCipherEngine;

fn pair(max: usize) -> (SecioMiddleware, SecioMiddleware) {
    let k1 = vec![1u8; 16];
    let iv1 = vec![2u8; 16];
    let m1 = vec![3u8; 20];
    let k2 = vec![4u8; 16];
    let iv2 = vec![5u8; 16];
    let m2 = vec![6u8; 20];
    let a = SecioMiddleware::new(
        Cipher::Aes128,
        Digest::Sha256,
        k1.clone(),
        iv1.clone(),
        m1.clone(),
        k2.clone(),
        iv2.clone(),
        m2.clone(),
        max,
    );
    let b = SecioMiddleware::new(Cipher::Aes128, Digest::Sha256, k2, iv2, m2, k1, iv1, m1, max);
    (a, b)
}

#[test]
fn frame_roundtrip_for_all_sizes() {
    let max: usize = 4096 + 32;
    for size in [0usize, 1, 15, 16, 17, 255, 1000, 4096] {
        let (mut a, mut b) = pair(max);
        let pt: Vec<u8> = (0..size).map(|i| (i % 251) as u8).collect();
        let frame = a.encrypt_frame(&pt).unwrap();
        let n = b.read_frame_len(&frame[..4]).unwrap();
        assert_eq!(n, frame.len() - 4);
        let got = b.decrypt_frame(&frame[4..]).unwrap();
        assert_eq!(got, pt);
    }
}

#[test]
fn frames_stay_in_order_and_counter_advances() {
    let (mut a, mut b) = pair(1 << 20);
    let messages: [&[u8]; 3] = [b"first", b"second", b"third"];
    let mut cts: Vec<Vec<u8>> = Vec::new();
    for msg in messages {
        let frame = a.encrypt_frame(msg).unwrap();
        cts.push(frame[4..frame.len() - 32].to_vec());
        let got = b.decrypt_frame(&frame[4..]).unwrap();
        assert_eq!(got, msg.to_vec());
    }
    // the counter advanced, so equal-length prefixes of the keystream differ
    let (mut a2, _) = pair(1 << 20);
    let f1 = a2.encrypt_frame(b"first").unwrap();
    assert_eq!(f1[4..f1.len() - 32].to_vec(), cts[0]);
    let f2 = a2.encrypt_frame(b"first").unwrap();
    assert_ne!(f2[4..f2.len() - 32].to_vec(), cts[0]);
}

#[test]
fn ciphertext_is_not_plaintext() {
    let (mut a, _) = pair(1 << 20);
    let pt = b"the quick brown fox jumps over the lazy dog";
    let frame = a.encrypt_frame(pt).unwrap();
    assert_ne!(frame[4..4 + pt.len()].to_vec(), pt.to_vec());
}

#[test]
fn ciphertext_matches_reference_cipher() {
    let (mut a, _) = pair(1 << 20);
    let pt = b"reference check".to_vec();
    let frame = a.encrypt_frame(&pt).unwrap();
    let key = [1u8; 16];
    let iv = [2u8; 16];
    let mut reference = pt.clone();
    let mut cipher = aes_ctr::Aes128Ctr::new(
        GenericArray::from_slice(&key),
        GenericArray::from_slice(&iv),
    );
    cipher.apply_keystream(&mut reference);
    assert_eq!(frame[4..4 + pt.len()].to_vec(), reference);
}

#[test]
fn tampering_any_bit_causes_mac_mismatch() {
    let (mut a, _) = pair(1 << 20);
    let pt = b"attack at dawn";
    let frame = a.encrypt_frame(pt).unwrap();
    let body = frame[4..].to_vec();
    for byte in 0..body.len() {
        for bit in 0..8 {
            let (_, mut b) = pair(1 << 20);
            let mut tampered = body.clone();
            tampered[byte] ^= 1u8 << bit;
            let err = b.decrypt_frame(&tampered).unwrap_err();
            assert_eq!(err, SecioError::MacMismatch);
            // the session failed permanently: even the honest frame fails now
            assert!(b.decrypt_frame(&body).is_err());
        }
    }
    // sanity: the untampered body still decrypts on a fresh session
    let (_, mut b) = pair(1 << 20);
    assert_eq!(b.decrypt_frame(&body).unwrap(), pt.to_vec());
}

#[test]
fn oversized_frame_is_rejected_before_allocation() {
    let (a, _) = pair(1024);
    let len: u32 = 1025;
    let prefix = len.to_be_bytes();
    assert_eq!(a.read_frame_len(&prefix).unwrap_err(), SecioError::FrameTooLarge);
    let ok: u32 = 1024;
    assert_eq!(a.read_frame_len(&ok.to_be_bytes()).unwrap(), 1024);
}

#[test]
fn short_body_fails_the_session() {
    let (mut a, mut b) = pair(1 << 20);
    assert_eq!(b.decrypt_frame(&[0u8; 5]).unwrap_err(), SecioError::MacMismatch);
    // permanently failed
    let frame = a.encrypt_frame(b"late").unwrap();
    assert!(b.decrypt_frame(&frame[4..]).is_err());
}

#[test]
fn counter_wraparound_is_detected() {
    let mut e = StreamCipherEngine {
        cipher: Cipher::Aes128,
        key: vec![0u8; 16],
        iv: vec![0u8; 16],
        offset: u64::MAX - 4,
    };
    assert_eq!(e.transform(&[0u8; 5]).unwrap_err(), SecioError::CipherExhausted);
    assert_eq!(e.offset, u64::MAX - 4);
    assert!(e.transform(&[0u8; 4]).is_ok());
    assert_eq!(e.offset, u64::MAX);
    assert_eq!(e.transform(&[0u8; 1]).unwrap_err(), SecioError::CipherExhausted);
}

#[test]
fn send_path_caps_frame_length() {
    // a plaintext whose frame length field cannot fit is refused, and the
    // session stays usable
    let (mut a, _) = pair(usize::MAX);
    let frame = a.encrypt_frame(b"still fine").unwrap();
    assert!(frame.len() > 4);
}

#[test]
fn long_session_keeps_counter_in_sync() {
    // a sustained session: many frames through one pair of engines, with
    // the two directions never sharing counter state
    let (mut a, mut b) = pair(1 << 20);
    for round in 0..512usize {
        let pt: Vec<u8> = (0..2048).map(|i| ((i + round) % 256) as u8).collect();
        let frame = a.encrypt_frame(&pt).unwrap();
        let got = b.decrypt_frame(&frame[4..]).unwrap();
        assert_eq!(got, pt);
        let reply = b.encrypt_frame(&pt).unwrap();
        let got2 = a.decrypt_frame(&reply[4..]).unwrap();
        assert_eq!(got2, pt);
    }
}
