use secio::SecioConfig;
use secio::SecioError;
use secio::SecioKeyPair;
use secio::SecioOutput;
use secio::handshake::negotiate;
use secio::keys::verify_signature;
use secio::msg::Proposal;

fn toks(names: &[&str]) -> Vec<Vec<u8>> {
    names.iter().map(|n| n.as_bytes().to_vec()).collect()
}

fn proposal(kp: &SecioKeyPair, nonce: u8, ex: &[&str], ci: &[&str], ha: &[&str]) -> Proposal {
    Proposal {
        rand: vec![nonce; 16],
        pubkey: kp.to_public_key(),
        exchanges: toks(ex),
        ciphers: toks(ci),
        hashes: toks(ha),
    }
}

#[test]
fn selection_is_symmetric() {
    let ka = SecioKeyPair::ed25519_generated().unwrap();
    let kb = SecioKeyPair::ed25519_generated().unwrap();
    let a = proposal(&ka, 1, &["P-256", "P-384"], &["AES-128", "AES-256"], &["SHA256", "SHA512"]);
    let b = proposal(&kb, 2, &["P-384", "P-256"], &["AES-256", "AES-128"], &["SHA512", "SHA256"]);
    let ra = negotiate(&a, &b).unwrap();
    let rb = negotiate(&b, &a).unwrap();
    assert_eq!(ra.0, rb.0);
    assert_ne!(ra.1, rb.1);
}

#[test]
fn selection_prefers_first_peers_order() {
    let ka = SecioKeyPair::ed25519_generated().unwrap();
    let kb = SecioKeyPair::ed25519_generated().unwrap();
    let a = proposal(&ka, 1, &["P-256"], &["AES-128", "AES-256"], &["SHA256"]);
    let b = proposal(&kb, 2, &["P-256"], &["AES-256", "AES-128"], &["SHA256"]);
    let (sel_a, a_first) = negotiate(&a, &b).unwrap();
    let (sel_b, _) = negotiate(&b, &a).unwrap();
    assert_eq!(sel_a, sel_b);
    // the winner's priority order decides between AES-128 and AES-256
    if a_first {
        assert_eq!(sel_a.cipher, secio::Cipher::Aes128);
    } else {
        assert_eq!(sel_a.cipher, secio::Cipher::Aes256);
    }
}

#[test]
fn empty_intersection_fails_both_sides() {
    let ka = SecioKeyPair::ed25519_generated().unwrap();
    let kb = SecioKeyPair::ed25519_generated().unwrap();
    let a = proposal(&ka, 1, &["P-256"], &["AES-128"], &["SHA256"]);
    let b = proposal(&kb, 2, &["P-256"], &["AES-256"], &["SHA256"]);
    assert_eq!(negotiate(&a, &b).unwrap_err(), SecioError::NoCommonAlgorithm);
    assert_eq!(negotiate(&b, &a).unwrap_err(), SecioError::NoCommonAlgorithm);
}

#[test]
fn self_dial_is_rejected() {
    let ka = SecioKeyPair::ed25519_generated().unwrap();
    let a1 = proposal(&ka, 1, &["P-256"], &["AES-128"], &["SHA256"]);
    let a2 = proposal(&ka, 1, &["P-256"], &["AES-128"], &["SHA256"]);
    assert_eq!(negotiate(&a1, &a2).unwrap_err(), SecioError::Handshake);
}

fn handshake_pair(
    cfg_a: &SecioConfig,
    cfg_b: &SecioConfig,
) -> Result<(SecioOutput, SecioOutput), (SecioError, SecioError)> {
    let (sa, pa) = cfg_a.propose().unwrap();
    let (sb, pb) = cfg_b.propose().unwrap();
    let ra = sa.on_remote_propose(&cfg_a.key, &pb);
    let rb = sb.on_remote_propose(&cfg_b.key, &pa);
    match (ra, rb) {
        (Ok((xa, ea)), Ok((xb, eb))) => {
            assert_eq!(xa.selection, xb.selection);
            assert_ne!(xa.local_first, xb.local_first);
            assert_eq!(xa.transcript, xb.transcript);
            let oa = xa.on_remote_exchange(&eb).unwrap();
            let ob = xb.on_remote_exchange(&ea).unwrap();
            Ok((oa, ob))
        }
        (Err(ea), Err(eb)) => Err((ea, eb)),
        _ => panic!("one side failed while the other succeeded"),
    }
}

#[test]
fn end_to_end_hello_world() {
    let ka = SecioKeyPair::ed25519_generated().unwrap();
    let kb = SecioKeyPair::ed25519_generated().unwrap();
    let pk_a = ka.to_public_key();
    let pk_b = kb.to_public_key();
    let cfg_a = SecioConfig::new(ka);
    let cfg_b = SecioConfig::new(kb);
    let (mut oa, mut ob) = handshake_pair(&cfg_a, &cfg_b).unwrap();
    assert!(ob.remote_key.same_key(&pk_a));
    assert!(oa.remote_key.same_key(&pk_b));

    let frame = oa.stream.encrypt_frame(b"hello world").unwrap();
    let n = ob.stream.read_frame_len(&frame[..4]).unwrap();
    assert_eq!(n, frame.len() - 4);
    let pt = ob.stream.decrypt_frame(&frame[4..]).unwrap();
    assert_eq!(pt, b"hello world".to_vec());

    let frame2 = ob.stream.encrypt_frame(b"general kenobi").unwrap();
    let n2 = oa.stream.read_frame_len(&frame2[..4]).unwrap();
    assert_eq!(n2, frame2.len() - 4);
    let pt2 = oa.stream.decrypt_frame(&frame2[4..]).unwrap();
    assert_eq!(pt2, b"general kenobi".to_vec());
}

#[test]
fn disjoint_cipher_catalogs_fail_deterministically() {
    let ka = SecioKeyPair::ed25519_generated().unwrap();
    let kb = SecioKeyPair::ed25519_generated().unwrap();
    let mut cfg_a = SecioConfig::new(ka);
    let mut cfg_b = SecioConfig::new(kb);
    cfg_a.ciphers = toks(&["AES-128"]);
    cfg_b.ciphers = toks(&["AES-256"]);
    let (ea, eb) = handshake_pair(&cfg_a, &cfg_b).err().unwrap();
    assert_eq!(ea, SecioError::NoCommonAlgorithm);
    assert_eq!(eb, SecioError::NoCommonAlgorithm);
}

#[test]
fn transcript_binding_rejects_cross_session_exchange() {
    let ka = SecioKeyPair::ed25519_generated().unwrap();
    let kb = SecioKeyPair::ed25519_generated().unwrap();
    let pk_a = ka.to_public_key();
    let cfg_a = SecioConfig::new(ka);
    let cfg_b = SecioConfig::new(kb);
    let (sa1, pa1) = cfg_a.propose().unwrap();
    let (sa2, _pa2) = cfg_a.propose().unwrap();
    let (sb, pb) = cfg_b.propose().unwrap();

    let (_xa1, _ea1) = sa1.on_remote_propose(&cfg_a.key, &pb).unwrap();
    let (xb, _eb) = sb.on_remote_propose(&cfg_b.key, &pa1).unwrap();
    // a second session of A against the same remote Propose: its Exchange is
    // validly signed, but bound to a different transcript (fresh nonce)
    let (xa2, ea2) = sa2.on_remote_propose(&cfg_a.key, &pb).unwrap();

    // the signature itself is valid for its own transcript
    let m2 = secio::msg::decode_exchange(&ea2).unwrap();
    let mut own_payload = m2.epubkey.clone();
    own_payload.extend_from_slice(&xa2.transcript);
    assert!(verify_signature(&pk_a, &own_payload, &m2.signature));
    // but not for the transcript B expects
    let mut crossed_payload = m2.epubkey.clone();
    crossed_payload.extend_from_slice(&xb.transcript);
    assert!(!verify_signature(&pk_a, &crossed_payload, &m2.signature));

    let err = xb.on_remote_exchange(&ea2).err().unwrap();
    assert_eq!(err, SecioError::SignatureVerification);
}

#[test]
fn garbage_propose_is_rejected() {
    let ka = SecioKeyPair::ed25519_generated().unwrap();
    let cfg = SecioConfig::new(ka);
    let (sa, _pa) = cfg.propose().unwrap();
    assert_eq!(
        sa.on_remote_propose(&cfg.key, b"not a propose message").err().unwrap(),
        SecioError::Handshake
    );
}

#[test]
fn garbage_exchange_is_rejected() {
    let ka = SecioKeyPair::ed25519_generated().unwrap();
    let kb = SecioKeyPair::ed25519_generated().unwrap();
    let cfg_a = SecioConfig::new(ka);
    let cfg_b = SecioConfig::new(kb);
    let (sa, _pa) = cfg_a.propose().unwrap();
    let (_sb, pb) = cfg_b.propose().unwrap();
    let (xa, _ea) = sa.on_remote_propose(&cfg_a.key, &pb).unwrap();
    assert_eq!(xa.on_remote_exchange(b"junk").err().unwrap(), SecioError::Handshake);
}

#[test]
fn stretch_is_deterministic_and_directions_differ() {
    let secret = vec![7u8; 32];
    let s1 = secio::stretch::stretch_keys(secio::Digest::Sha256, &secret, 104);
    let s2 = secio::stretch::stretch_keys(secio::Digest::Sha256, &secret, 104);
    assert_eq!(s1, s2);
    assert_eq!(s1.len(), 104);
    assert_ne!(s1[..52].to_vec(), s1[52..].to_vec());

    let w1 = secio::stretch::stretch_keys(secio::Digest::Sha512, &secret, 136);
    let w2 = secio::stretch::stretch_keys(secio::Digest::Sha512, &secret, 136);
    assert_eq!(w1, w2);
    assert_eq!(w1.len(), 136);
    assert_ne!(w1[..68].to_vec(), w1[68..].to_vec());
    assert_ne!(s1, w1[..104].to_vec());
}

#[test]
fn hmac_matches_reference_implementation() {
    let key = b"macaroon";
    let data = b"some bytes to tag";
    let ours = secio::stretch::hmac(secio::Digest::Sha256, key, data);
    let k = ring::hmac::Key::new(ring::hmac::HMAC_SHA256, key);
    let theirs = ring::hmac::sign(&k, data);
    assert_eq!(ours, theirs.as_ref().to_vec());
    assert_ne!(ours, data.to_vec());
}
