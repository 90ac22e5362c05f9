use vstd::prelude::*;
use aes_ctr::cipher::generic_array::GenericArray;
use aes_ctr::cipher::stream::NewStreamCipher;
use aes_ctr::cipher::stream::SyncStreamCipher;
use aes_ctr::cipher::stream::SyncStreamCipherSeek;
use ring::signature::KeyPair;

verus! {

// Names for what the outside primitives return. Each is a pure function of
// its arguments; the wrappers below are the only places that state anything
// about them.

/// The SHA-256 digest of `data` (32 bytes).
pub uninterp spec fn sha256_of(data: Seq<u8>) -> Seq<u8>;

/// The HMAC-SHA256 tag of `data` under `key` (32 bytes).
pub uninterp spec fn hmac_sha256_of(key: Seq<u8>, data: Seq<u8>) -> Seq<u8>;

/// The HMAC-SHA512 tag of `data` under `key` (64 bytes).
pub uninterp spec fn hmac_sha512_of(key: Seq<u8>, data: Seq<u8>) -> Seq<u8>;

/// Byte `i` of the AES-128-CTR keystream for `(key, iv)`.
pub uninterp spec fn aes128_keystream(key: Seq<u8>, iv: Seq<u8>, i: int) -> u8;

/// Byte `i` of the AES-256-CTR keystream for `(key, iv)`.
pub uninterp spec fn aes256_keystream(key: Seq<u8>, iv: Seq<u8>, i: int) -> u8;

/// Whether `sig` is a valid Ed25519 signature on `msg` under public key `pk`.
pub uninterp spec fn ed25519_verifies(pk: Seq<u8>, msg: Seq<u8>, sig: Seq<u8>) -> bool;

/// Whether `sig` is a valid RSA PKCS#1 v1.5 SHA-256 signature on `msg`
/// under the DER-encoded public key `pk`.
pub uninterp spec fn rsa_verifies(pk: Seq<u8>, msg: Seq<u8>, sig: Seq<u8>) -> bool;

/// Whether `sig` (compact form) is a valid secp256k1 ECDSA signature on the
/// 32-byte `digest` under the compressed public key `pk`.
pub uninterp spec fn secp256k1_verifies(pk: Seq<u8>, digest: Seq<u8>, sig: Seq<u8>) -> bool;

/// The RFC 5915 private-key field (the second element) of a DER-encoded
/// ECPrivateKey, as asn1_der's typed decoders extract it; None where they
/// reject the input. A function of the bytes alone.
pub uninterp spec fn ec_private_key_of(der: Seq<u8>) -> Option<Seq<u8>>;

/// Whether ring's ECDH accepts `peer` as a valid public-point encoding on
/// the selected curve (P-384 when the flag is set, else P-256).
pub uninterp spec fn ecdh_point_ok(p384: bool, peer: Seq<u8>) -> bool;

/// Whether ring's Ed25519KeyPair::from_pkcs8 accepts a PKCS#8 v2 document.
pub uninterp spec fn ed25519_pkcs8_ok(doc: Seq<u8>) -> bool;

/// Whether ring's RsaKeyPair::from_pkcs8 accepts a PKCS#8 document.
pub uninterp spec fn rsa_pkcs8_ok(doc: Seq<u8>) -> bool;

/// Whether 32 bytes form a valid secp256k1 secret scalar.
pub uninterp spec fn secp256k1_scalar_ok(key: Seq<u8>) -> bool;

/// The compressed secp256k1 public key of a valid secret scalar (33 bytes).
pub uninterp spec fn secp256k1_pub_of(key: Seq<u8>) -> Seq<u8>;

#[verifier::external_type_specification]
#[verifier::external_body]
pub struct ExEd25519KeyPair(ring::signature::Ed25519KeyPair);

#[verifier::external_type_specification]
#[verifier::external_body]
pub struct ExRsaKeyPair(ring::signature::RsaKeyPair);

#[verifier::external_type_specification]
#[verifier::external_body]
pub struct ExEphemeralPrivateKey(ring::agreement::EphemeralPrivateKey);

/// Relies on ring's SystemRandom: on success the buffer has exactly `n`
/// fresh random bytes; nothing else is promised of a random value.
#[verifier::external_body]
pub(crate) fn random_bytes(n: usize) -> (r: Result<Vec<u8>, ()>)
    ensures
        r is Ok ==> r->Ok_0@.len() == n,
{
    let rng = ring::rand::SystemRandom::new();
    let mut buf = vec![0u8; n];
    match ring::rand::SecureRandom::fill(&rng, &mut buf) {
        Ok(()) => Ok(buf),
        Err(_) => Err(()),
    }
}

/// Relies on ring::digest::digest with SHA256: a 32-byte digest that is a
/// function of the input alone.
#[verifier::external_body]
pub(crate) fn sha256(data: &[u8]) -> (r: Vec<u8>)
    ensures
        r@ == sha256_of(data@),
        r@.len() == 32,
{
    ring::digest::digest(&ring::digest::SHA256, data).as_ref().to_vec()
}

/// Relies on ring::hmac::sign with HMAC_SHA256: a 32-byte tag that is a
/// function of key and data alone.
#[verifier::external_body]
pub(crate) fn hmac_sha256(key: &[u8], data: &[u8]) -> (r: Vec<u8>)
    ensures
        r@ == hmac_sha256_of(key@, data@),
        r@.len() == 32,
{
    let k = ring::hmac::Key::new(ring::hmac::HMAC_SHA256, key);
    ring::hmac::sign(&k, data).as_ref().to_vec()
}

/// Relies on ring::hmac::sign with HMAC_SHA512: a 64-byte tag that is a
/// function of key and data alone.
#[verifier::external_body]
pub(crate) fn hmac_sha512(key: &[u8], data: &[u8]) -> (r: Vec<u8>)
    ensures
        r@ == hmac_sha512_of(key@, data@),
        r@.len() == 64,
{
    let k = ring::hmac::Key::new(ring::hmac::HMAC_SHA512, key);
    ring::hmac::sign(&k, data).as_ref().to_vec()
}

/// Relies on aes_ctr::Aes128Ctr: XORs `data` with the AES-128-CTR keystream
/// of `(key, iv)` starting at byte offset `off`.
#[verifier::external_body]
pub(crate) fn aes128_xor(key: &[u8], iv: &[u8], off: u64, data: &[u8]) -> (r: Vec<u8>)
    requires
        key@.len() == 16,
        iv@.len() == 16,
    ensures
        r@.len() == data@.len(),
        forall|j: int|
            0 <= j < data@.len() ==> r@[j] == (data@[j] ^ aes128_keystream(key@, iv@, off + j)),
{
    let mut cipher = aes_ctr::Aes128Ctr::new(
        GenericArray::from_slice(key),
        GenericArray::from_slice(iv),
    );
    cipher.seek(off);
    let mut buf = data.to_vec();
    cipher.apply_keystream(&mut buf);
    buf
}

/// Relies on aes_ctr::Aes256Ctr: XORs `data` with the AES-256-CTR keystream
/// of `(key, iv)` starting at byte offset `off`.
#[verifier::external_body]
pub(crate) fn aes256_xor(key: &[u8], iv: &[u8], off: u64, data: &[u8]) -> (r: Vec<u8>)
    requires
        key@.len() == 32,
        iv@.len() == 16,
    ensures
        r@.len() == data@.len(),
        forall|j: int|
            0 <= j < data@.len() ==> r@[j] == (data@[j] ^ aes256_keystream(key@, iv@, off + j)),
{
    let mut cipher = aes_ctr::Aes256Ctr::new(
        GenericArray::from_slice(key),
        GenericArray::from_slice(iv),
    );
    cipher.seek(off);
    let mut buf = data.to_vec();
    cipher.apply_keystream(&mut buf);
    buf
}

/// Relies on ring's Ed25519KeyPair::from_pkcs8: accepts exactly the
/// well-formed PKCS#8 v2 documents, a function of the bytes alone.
#[verifier::external_body]
pub(crate) fn ed25519_parse(pkcs8: &[u8]) -> (r: Result<ring::signature::Ed25519KeyPair, ()>)
    ensures
        r is Ok <==> ed25519_pkcs8_ok(pkcs8@),
{
    ring::signature::Ed25519KeyPair::from_pkcs8(pkcs8).map_err(|_| ())
}

/// Relies on ring's Ed25519KeyPair::generate_pkcs8: a fresh random key pair
/// as a PKCS#8 v2 document that Ed25519KeyPair::from_pkcs8 accepts back.
#[verifier::external_body]
pub(crate) fn ed25519_generate_pkcs8() -> (r: Result<Vec<u8>, ()>)
    ensures
        r is Ok ==> ed25519_pkcs8_ok(r->Ok_0@),
{
    let rng = ring::rand::SystemRandom::new();
    match ring::signature::Ed25519KeyPair::generate_pkcs8(&rng) {
        Ok(doc) => Ok(doc.as_ref().to_vec()),
        Err(_) => Err(()),
    }
}

/// Relies on ring's KeyPair::public_key for Ed25519: the 32-byte public key.
#[verifier::external_body]
pub(crate) fn ed25519_pub(kp: &ring::signature::Ed25519KeyPair) -> (r: Vec<u8>)
    ensures
        r@.len() == 32,
{
    kp.public_key().as_ref().to_vec()
}

/// Relies on ring's Ed25519KeyPair::sign: a 64-byte signature.
#[verifier::external_body]
pub(crate) fn ed25519_sign(kp: &ring::signature::Ed25519KeyPair, msg: &[u8]) -> (r: Vec<u8>)
    ensures
        r@.len() == 64,
{
    kp.sign(msg).as_ref().to_vec()
}

/// Relies on ring's UnparsedPublicKey::verify with ED25519: true exactly
/// when the signature verifies, a function of the three inputs.
#[verifier::external_body]
pub(crate) fn ed25519_verify(pk: &[u8], msg: &[u8], sig: &[u8]) -> (r: bool)
    ensures
        r == ed25519_verifies(pk@, msg@, sig@),
{
    ring::signature::UnparsedPublicKey::new(&ring::signature::ED25519, pk)
        .verify(msg, sig)
        .is_ok()
}

/// Relies on ring's RsaKeyPair::from_pkcs8: accepts exactly the well-formed
/// PKCS#8 RSA documents, a function of the bytes alone.
#[verifier::external_body]
pub(crate) fn rsa_parse(pkcs8: &[u8]) -> (r: Result<ring::signature::RsaKeyPair, ()>)
    ensures
        r is Ok <==> rsa_pkcs8_ok(pkcs8@),
{
    ring::signature::RsaKeyPair::from_pkcs8(pkcs8).map_err(|_| ())
}

/// Relies on ring's RsaKeyPair::sign with RSA_PKCS1_SHA256: on success the
/// signature is one modulus long; the padding draws on the RNG, so nothing
/// more is promised.
#[verifier::external_body]
pub(crate) fn rsa_sign(kp: &ring::signature::RsaKeyPair, msg: &[u8]) -> (r: Result<Vec<u8>, ()>)
    ensures
        r is Ok ==> r->Ok_0@.len() > 0,
{
    let rng = ring::rand::SystemRandom::new();
    let mut sig = vec![0u8; kp.public().modulus_len()];
    match kp.sign(&ring::signature::RSA_PKCS1_SHA256, &rng, msg, &mut sig) {
        Ok(()) => Ok(sig),
        Err(_) => Err(()),
    }
}

/// Relies on ring's UnparsedPublicKey::verify with
/// RSA_PKCS1_2048_8192_SHA256: true exactly when the signature verifies,
/// a function of the three inputs.
#[verifier::external_body]
pub(crate) fn rsa_verify(pk_der: &[u8], msg: &[u8], sig: &[u8]) -> (r: bool)
    ensures
        r == rsa_verifies(pk_der@, msg@, sig@),
{
    ring::signature::UnparsedPublicKey::new(
        &ring::signature::RSA_PKCS1_2048_8192_SHA256,
        pk_der,
    )
        .verify(msg, sig)
        .is_ok()
}

/// Relies on secp256k1's SecretKey::from_byte_array: accepts exactly the
/// valid secret scalars, a function of the bytes alone.
#[verifier::external_body]
pub(crate) fn secp256k1_check_scalar(key: &[u8]) -> (r: bool)
    requires
        key@.len() == 32,
    ensures
        r == secp256k1_scalar_ok(key@),
{
    let arr: [u8; 32] = key.try_into().unwrap();
    secp256k1::SecretKey::from_byte_array(arr).is_ok()
}

/// Relies on secp256k1's PublicKey::from_secret_key and serialize: the
/// 33-byte compressed public key, a function of the scalar alone.
#[verifier::external_body]
pub(crate) fn secp256k1_pub(key: &[u8]) -> (r: Vec<u8>)
    requires
        key@.len() == 32,
        secp256k1_scalar_ok(key@),
    ensures
        r@ == secp256k1_pub_of(key@),
        r@.len() == 33,
{
    let arr: [u8; 32] = key.try_into().unwrap();
    let sk = secp256k1::SecretKey::from_byte_array(arr).unwrap();
    secp256k1::PublicKey::from_secret_key(&sk).serialize().to_vec()
}

/// Relies on secp256k1's ecdsa::sign (RFC 6979 nonce): a 64-byte compact
/// signature on the 32-byte digest.
#[verifier::external_body]
pub(crate) fn secp256k1_sign(key: &[u8], digest: &[u8]) -> (r: Vec<u8>)
    requires
        key@.len() == 32,
        digest@.len() == 32,
        secp256k1_scalar_ok(key@),
    ensures
        r@.len() == 64,
{
    let karr: [u8; 32] = key.try_into().unwrap();
    let darr: [u8; 32] = digest.try_into().unwrap();
    let sk = secp256k1::SecretKey::from_byte_array(karr).unwrap();
    let msg = secp256k1::Message::from_digest(darr);
    secp256k1::ecdsa::sign(msg, &sk).serialize_compact().to_vec()
}

/// Relies on secp256k1's ecdsa::verify: true exactly when the compact
/// signature verifies on the digest, a function of the three inputs.
#[verifier::external_body]
pub(crate) fn secp256k1_verify(pk: &[u8], digest: &[u8], sig: &[u8]) -> (r: bool)
    requires
        digest@.len() == 32,
    ensures
        r == secp256k1_verifies(pk@, digest@, sig@),
{
    let darr: [u8; 32] = digest.try_into().unwrap();
    let msg = secp256k1::Message::from_digest(darr);
    let pk = match secp256k1::PublicKey::from_slice(pk) {
        Ok(p) => p,
        Err(_) => return false,
    };
    let sig = match secp256k1::ecdsa::Signature::from_compact(sig) {
        Ok(s) => s,
        Err(_) => return false,
    };
    secp256k1::ecdsa::verify(&sig, msg, &pk).is_ok()
}

/// A per-handshake key-agreement private key together with its curve. The
/// tag is set only by `ecdh_generate`, which creates the inner key on that
/// same curve, so the two never disagree.
pub struct EphemeralKey {
    inner: ring::agreement::EphemeralPrivateKey,
    p384: bool,
}

impl EphemeralKey {
    /// Whether this key lives on P-384 (else P-256).
    pub closed spec fn is_p384(self) -> bool {
        self.p384
    }
}

/// Relies on ring's agreement::EphemeralPrivateKey::generate and
/// compute_public_key on ECDH_P256 / ECDH_P384: a fresh key pair on the
/// selected curve; the public part is the uncompressed point.
#[verifier::external_body]
pub(crate) fn ecdh_generate(p384: bool) -> (r: Result<(EphemeralKey, Vec<u8>), ()>)
    ensures
        r is Ok ==> r->Ok_0.0.is_p384() == p384 && r->Ok_0.1@.len() > 0,
{
    let alg = if p384 { &ring::agreement::ECDH_P384 } else { &ring::agreement::ECDH_P256 };
    let rng = ring::rand::SystemRandom::new();
    let sk = ring::agreement::EphemeralPrivateKey::generate(alg, &rng).map_err(|_| ())?;
    let pk = sk.compute_public_key().map_err(|_| ())?;
    Ok((EphemeralKey { inner: sk, p384 }, pk.as_ref().to_vec()))
}

/// Relies on ring's agreement::agree_ephemeral on the key's own curve: it
/// fails exactly on a peer encoding that is not a valid public point for
/// that curve, and on success the shared secret is the curve element width
/// (32 bytes for P-256, 48 for P-384).
#[verifier::external_body]
pub(crate) fn ecdh_agree(sk: EphemeralKey, peer: &[u8]) -> (r: Result<Vec<u8>, ()>)
    ensures
        r is Ok <==> ecdh_point_ok(sk.is_p384(), peer@),
        r is Ok ==> r->Ok_0@.len() == (if sk.is_p384() { 48int } else { 32int }),
{
    let alg = if sk.p384 { &ring::agreement::ECDH_P384 } else { &ring::agreement::ECDH_P256 };
    let peer_key = ring::agreement::UnparsedPublicKey::new(alg, peer);
    ring::agreement::agree_ephemeral(sk.inner, &peer_key, |secret| secret.to_vec()).map_err(
        |_| (),
    )
}

/// Relies on asn1_der's typed::Sequence and the OCTET STRING decoder: reads
/// the second element of a DER SEQUENCE (the RFC 5915 private-key field) as
/// raw bytes, a function of the input alone; fails exactly where the
/// decoders reject the input.
#[verifier::external_body]
pub(crate) fn der_ec_private_key(der: &[u8]) -> (r: Result<Vec<u8>, ()>)
    ensures
        match r {
            Ok(k) => ec_private_key_of(der@) == Some(k@),
            Err(_) => ec_private_key_of(der@) is None,
        },
{
    let seq = <asn1_der::typed::Sequence as asn1_der::typed::DerDecodable>::decode(der)
        .map_err(|_| ())?;
    let obj = seq.get(1).map_err(|_| ())?;
    let key = <Vec<u8> as asn1_der::typed::DerDecodable>::load(obj).map_err(|_| ())?;
    Ok(key)
}

} // verus!
