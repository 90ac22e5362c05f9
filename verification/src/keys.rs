use vstd::prelude::*;
use crate::crypto;
use crate::crypto::ec_private_key_of;
use crate::crypto::ed25519_pkcs8_ok;
use crate::crypto::rsa_pkcs8_ok;
use crate::crypto::secp256k1_scalar_ok;
use crate::crypto::secp256k1_pub_of;
use crate::crypto::sha256_of;
use crate::error::SecioError;
use crate::msg;
use crate::wire::bytes_eq;
use crate::wire::push_all;

verus! {

/// An identity public key, tagged with its algorithm.
#[derive(Debug)]
pub enum PublicKey {
    /// DER-encoded RSA public key.
    Rsa(Vec<u8>),
    /// Raw 32-byte Ed25519 public key.
    Ed25519(Vec<u8>),
    /// Compressed 33-byte secp256k1 public key.
    Secp256k1(Vec<u8>),
}

/// Wire code of the key's algorithm (RSA 0, Ed25519 1, secp256k1 2).
pub open spec fn key_type_code(pk: PublicKey) -> u64 {
    match pk {
        PublicKey::Rsa(_) => 0,
        PublicKey::Ed25519(_) => 1,
        PublicKey::Secp256k1(_) => 2,
    }
}

/// The key bytes carried by the tag.
pub open spec fn key_data(pk: PublicKey) -> Seq<u8> {
    match pk {
        PublicKey::Rsa(d) => d@,
        PublicKey::Ed25519(d) => d@,
        PublicKey::Secp256k1(d) => d@,
    }
}

impl PublicKey {
    /// Algorithm tag and key bytes both agree.
    pub fn same_key(&self, other: &PublicKey) -> (r: bool)
        ensures
            r == (key_type_code(*self) == key_type_code(*other) && key_data(*self) == key_data(
                *other,
            )),
    {
        match (self, other) {
            (PublicKey::Rsa(a), PublicKey::Rsa(b)) => bytes_eq(a.as_slice(), b.as_slice()),
            (PublicKey::Ed25519(a), PublicKey::Ed25519(b)) => bytes_eq(a.as_slice(), b.as_slice()),
            (PublicKey::Secp256k1(a), PublicKey::Secp256k1(b)) => bytes_eq(
                a.as_slice(),
                b.as_slice(),
            ),
            _ => false,
        }
    }

    /// A copy with the same tag and bytes.
    pub fn duplicate(&self) -> (r: PublicKey)
        ensures
            key_type_code(r) == key_type_code(*self),
            key_data(r) == key_data(*self),
    {
        match self {
            PublicKey::Rsa(d) => {
                let mut v: Vec<u8> = Vec::new();
                push_all(&mut v, d.as_slice());
                PublicKey::Rsa(v)
            }
            PublicKey::Ed25519(d) => {
                let mut v: Vec<u8> = Vec::new();
                push_all(&mut v, d.as_slice());
                PublicKey::Ed25519(v)
            }
            PublicKey::Secp256k1(d) => {
                let mut v: Vec<u8> = Vec::new();
                push_all(&mut v, d.as_slice());
                PublicKey::Secp256k1(v)
            }
        }
    }
}

pub(crate) enum KeyPairInner {
    Rsa { public_der: Vec<u8>, private: ring::signature::RsaKeyPair },
    Ed25519 { private: ring::signature::Ed25519KeyPair, public: Vec<u8> },
    Secp256k1 { private: Vec<u8> },
}

/// A long-term identity key pair of one of the three supported algorithms.
/// It owns its private material for its lifetime and is never mutated.
pub struct SecioKeyPair {
    pub(crate) inner: KeyPairInner,
}

impl SecioKeyPair {
    /// Private material is structurally sound: stored public parts have
    /// their documented sizes and a secp256k1 scalar is valid.
    pub closed spec fn wf(self) -> bool {
        match self.inner {
            KeyPairInner::Rsa { public_der, private } => true,
            KeyPairInner::Ed25519 { private, public } => public@.len() == 32,
            KeyPairInner::Secp256k1 { private } => private@.len() == 32 && secp256k1_scalar_ok(
                private@,
            ),
        }
    }

    /// The public key this pair derives, as a tag and bytes.
    pub closed spec fn public_model(self) -> (u64, Seq<u8>) {
        match self.inner {
            KeyPairInner::Rsa { public_der, private } => (0, public_der@),
            KeyPairInner::Ed25519 { private, public } => (1, public@),
            KeyPairInner::Secp256k1 { private } => (2, secp256k1_pub_of(private@)),
        }
    }

    /// Builds a key pair from a PKCS#8 RSA private key and a DER public key.
    /// Succeeds exactly on a well-formed private-key document.
    pub fn rsa_from_pkcs8(private: &[u8], public: Vec<u8>) -> (r: Result<SecioKeyPair, SecioError>)
        ensures
            match r {
                Ok(kp) => rsa_pkcs8_ok(private@) && kp.wf() && kp.public_model() == (
                    0u64,
                    public@,
                ),
                Err(e) => e == SecioError::KeyFormat && !rsa_pkcs8_ok(private@),
            },
    {
        match crypto::rsa_parse(private) {
            Ok(kp) => Ok(SecioKeyPair { inner: KeyPairInner::Rsa { public_der: public, private: kp } }),
            Err(_) => Err(SecioError::KeyFormat),
        }
    }

    /// Builds a key pair from a PKCS#8 v2 Ed25519 private key.
    /// Succeeds exactly on a well-formed document.
    pub fn ed25519_from_pkcs8(key: &[u8]) -> (r: Result<SecioKeyPair, SecioError>)
        ensures
            match r {
                Ok(kp) => ed25519_pkcs8_ok(key@) && kp.wf() && kp.public_model().0 == 1,
                Err(e) => e == SecioError::KeyFormat && !ed25519_pkcs8_ok(key@),
            },
    {
        match crypto::ed25519_parse(key) {
            Ok(kp) => {
                let public = crypto::ed25519_pub(&kp);
                Ok(SecioKeyPair { inner: KeyPairInner::Ed25519 { private: kp, public } })
            }
            Err(_) => Err(SecioError::KeyFormat),
        }
    }

    /// Generates a fresh random Ed25519 key pair; fails only on CSPRNG
    /// failure, which is fatal and never retried.
    pub fn ed25519_generated() -> (r: Result<SecioKeyPair, SecioError>)
        ensures
            match r {
                Ok(kp) => kp.wf() && kp.public_model().0 == 1,
                Err(e) => e == SecioError::Signing,
            },
    {
        match crypto::ed25519_generate_pkcs8() {
            Ok(doc) => {
                match SecioKeyPair::ed25519_from_pkcs8(doc.as_slice()) {
                    Ok(kp) => Ok(kp),
                    Err(_) => {
                        proof {
                            assert(false);
                        }
                        Err(SecioError::Signing)
                    }
                }
            }
            Err(_) => Err(SecioError::Signing),
        }
    }

    /// Builds a key pair from a raw 32-byte secp256k1 secret scalar.
    /// Succeeds exactly on 32 bytes that form a valid scalar.
    pub fn secp256k1_raw_key(key: &[u8]) -> (r: Result<SecioKeyPair, SecioError>)
        ensures
            match r {
                Ok(kp) => key@.len() == 32 && secp256k1_scalar_ok(key@) && kp.wf()
                    && kp.public_model() == (2u64, secp256k1_pub_of(key@)),
                Err(e) => e == SecioError::KeyFormat && !(key@.len() == 32 && secp256k1_scalar_ok(
                    key@,
                )),
            },
    {
        if key.len() != 32 {
            return Err(SecioError::KeyFormat);
        }
        if !crypto::secp256k1_check_scalar(key) {
            return Err(SecioError::KeyFormat);
        }
        let mut private: Vec<u8> = Vec::new();
        push_all(&mut private, key);
        Ok(SecioKeyPair { inner: KeyPairInner::Secp256k1 { private } })
    }

    /// Builds a key pair from a DER-encoded (RFC 5915) secp256k1 private
    /// key: exactly as `secp256k1_raw_key` on the DER document's
    /// private-key field, and a failure where that field cannot be read or
    /// is no valid scalar.
    pub fn secp256k1_from_der(key: &[u8]) -> (r: Result<SecioKeyPair, SecioError>)
        ensures
            match r {
                Ok(kp) => ec_private_key_of(key@) is Some && ({
                    let sk = ec_private_key_of(key@)->Some_0;
                    sk.len() == 32 && secp256k1_scalar_ok(sk) && kp.wf() && kp.public_model() == (
                        2u64,
                        secp256k1_pub_of(sk),
                    )
                }),
                Err(e) => e == SecioError::KeyFormat && !(ec_private_key_of(key@) is Some && ({
                    let sk = ec_private_key_of(key@)->Some_0;
                    sk.len() == 32 && secp256k1_scalar_ok(sk)
                })),
            },
    {
        match crypto::der_ec_private_key(key) {
            Ok(raw) => SecioKeyPair::secp256k1_raw_key(raw.as_slice()),
            Err(_) => Err(SecioError::KeyFormat),
        }
    }

    /// The public key of this pair; pure, never fails.
    pub fn to_public_key(&self) -> (r: PublicKey)
        requires
            self.wf(),
        ensures
            key_type_code(r) == self.public_model().0,
            key_data(r) == self.public_model().1,
    {
        match &self.inner {
            KeyPairInner::Rsa { public_der, .. } => {
                let mut v: Vec<u8> = Vec::new();
                push_all(&mut v, public_der.as_slice());
                PublicKey::Rsa(v)
            }
            KeyPairInner::Ed25519 { public, .. } => {
                let mut v: Vec<u8> = Vec::new();
                push_all(&mut v, public.as_slice());
                PublicKey::Ed25519(v)
            }
            KeyPairInner::Secp256k1 { private } => {
                PublicKey::Secp256k1(crypto::secp256k1_pub(private.as_slice()))
            }
        }
    }

    /// The peer identity: a SHA2-256 multihash over the public key's
    /// envelope encoding.
    pub fn to_peer_id(&self) -> (r: Vec<u8>)
        requires
            self.wf(),
        ensures
            r@ == seq![0x12u8, 0x20u8] + sha256_of(
                msg::pubkey_wire(self.public_model().0, self.public_model().1),
            ),
    {
        let pk = self.to_public_key();
        let enc = msg::encode_pubkey_vec(&pk);
        let digest = crypto::sha256(enc.as_slice());
        let mut out: Vec<u8> = Vec::new();
        out.push(0x12u8);
        out.push(0x20u8);
        push_all(&mut out, digest.as_slice());
        proof {
            assert(out@ =~= seq![0x12u8, 0x20u8] + sha256_of(
                msg::pubkey_wire(self.public_model().0, self.public_model().1),
            ));
        }
        out
    }

    /// Signs `data` with the identity key: RSA PKCS#1 v1.5 over SHA-256,
    /// plain Ed25519, or secp256k1 ECDSA over the SHA-256 digest. Only the
    /// RSA path can fail, on its blinding RNG; the other two always sign,
    /// with 64-byte signatures.
    pub fn sign(&self, data: &[u8]) -> (r: Result<Vec<u8>, SecioError>)
        requires
            self.wf(),
        ensures
            match r {
                Ok(sig) => sig@.len() > 0 && (self.public_model().0 != 0 ==> sig@.len() == 64),
                Err(e) => e == SecioError::Signing && self.public_model().0 == 0,
            },
    {
        match &self.inner {
            KeyPairInner::Rsa { private, .. } => {
                match crypto::rsa_sign(private, data) {
                    Ok(sig) => Ok(sig),
                    Err(_) => Err(SecioError::Signing),
                }
            }
            KeyPairInner::Ed25519 { private, .. } => Ok(crypto::ed25519_sign(private, data)),
            KeyPairInner::Secp256k1 { private } => {
                let digest = crypto::sha256(data);
                Ok(crypto::secp256k1_sign(private.as_slice(), digest.as_slice()))
            }
        }
    }
}

/// Whether `sig` verifies on `data` under `pk`, per `pk`'s algorithm;
/// secp256k1 signs the SHA-256 digest of the data.
pub open spec fn signature_checks(pk: PublicKey, data: Seq<u8>, sig: Seq<u8>) -> bool {
    match pk {
        PublicKey::Rsa(k) => crypto::rsa_verifies(k@, data, sig),
        PublicKey::Ed25519(k) => crypto::ed25519_verifies(k@, data, sig),
        PublicKey::Secp256k1(k) => crypto::secp256k1_verifies(k@, sha256_of(data), sig),
    }
}

/// Verifies `sig` on `data` under `pk` using `pk`'s algorithm.
pub fn verify_signature(pk: &PublicKey, data: &[u8], sig: &[u8]) -> (r: bool)
    ensures
        r == signature_checks(*pk, data@, sig@),
{
    match pk {
        PublicKey::Rsa(k) => crypto::rsa_verify(k.as_slice(), data, sig),
        PublicKey::Ed25519(k) => crypto::ed25519_verify(k.as_slice(), data, sig),
        PublicKey::Secp256k1(k) => {
            let digest = crypto::sha256(data);
            crypto::secp256k1_verify(k.as_slice(), digest.as_slice(), sig)
        }
    }
}

} // verus!
