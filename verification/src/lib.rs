//! An authenticated, confidential byte-stream layer for peers with no
//! pre-shared trust. Each peer holds a long-term identity key; the two
//! sides exchange proposals, converge deterministically on an algorithm
//! selection, run an ephemeral key agreement bound to the negotiation
//! transcript, authenticate each other by signature, and derive
//! per-direction session keys. Application traffic then flows as
//! length-prefixed frames, encrypted with a counter-mode stream cipher and
//! verified by MAC before any decryption.
//!
//! The handshake here is a state machine over message bytes; the
//! surrounding I/O, which Verus does not model, drives it from outside and
//! only moves bytes.

use vstd::prelude::*;

pub mod algo;
pub mod codec;
pub mod crypto;
pub mod error;
pub mod handshake;
pub mod keys;
pub mod msg;
pub mod stretch;
pub mod wire;

pub use algo::Cipher;
pub use algo::Digest;
pub use algo::Exchange;
pub use codec::SecioMiddleware;
pub use codec::StreamCipherEngine;
pub use error::SecioError;
pub use handshake::HandshakeExchanging;
pub use handshake::HandshakeProposed;
pub use handshake::SecioOutput;
pub use handshake::Selection;
pub use keys::PublicKey;
pub use keys::SecioKeyPair;

verus! {

/// Copies a catalog of name tokens.
pub fn copy_tokens(l: &Vec<Vec<u8>>) -> (r: Vec<Vec<u8>>)
    ensures
        r.deep_view() == l.deep_view(),
{
    let mut out: Vec<Vec<u8>> = Vec::new();
    let mut i: usize = 0;
    while i < l.len()
        invariant
            0 <= i <= l@.len(),
            out@.len() == i,
            forall|j: int| 0 <= j < i ==> out@[j]@ == l@[j]@,
        decreases l@.len() - i,
    {
        let mut tok: Vec<u8> = Vec::new();
        wire::push_all(&mut tok, l[i].as_slice());
        out.push(tok);
        i = i + 1;
    }
    proof {
        assert forall|j: int| 0 <= j < l@.len() implies out.deep_view()[j] == l.deep_view()[j] by {
            assert(out.deep_view()[j] == out@[j]@);
            assert(l.deep_view()[j] == l@[j]@);
        }
        assert(out.deep_view() =~= l.deep_view());
    }
    out
}

/// Builds the default prioritized curve catalog.
pub fn default_exchanges() -> (r: Vec<Vec<u8>>)
    ensures
        r.deep_view() == seq![
            algo::exchange_name(Exchange::P256),
            algo::exchange_name(Exchange::P384),
        ],
{
    let mut v: Vec<Vec<u8>> = Vec::new();
    v.push(algo::exchange_name_vec(Exchange::P256));
    v.push(algo::exchange_name_vec(Exchange::P384));
    proof {
        assert(v.deep_view().len() == 2);
        assert(v.deep_view()[0] == v@[0]@);
        assert(v.deep_view()[1] == v@[1]@);
        assert(v.deep_view() =~= seq![
            algo::exchange_name(Exchange::P256),
            algo::exchange_name(Exchange::P384),
        ]);
    }
    v
}

/// Builds the default prioritized cipher catalog.
pub fn default_ciphers() -> (r: Vec<Vec<u8>>)
    ensures
        r.deep_view() == seq![
            algo::cipher_name(Cipher::Aes128),
            algo::cipher_name(Cipher::Aes256),
        ],
{
    let mut v: Vec<Vec<u8>> = Vec::new();
    v.push(algo::cipher_name_vec(Cipher::Aes128));
    v.push(algo::cipher_name_vec(Cipher::Aes256));
    proof {
        assert(v.deep_view().len() == 2);
        assert(v.deep_view()[0] == v@[0]@);
        assert(v.deep_view()[1] == v@[1]@);
        assert(v.deep_view() =~= seq![
            algo::cipher_name(Cipher::Aes128),
            algo::cipher_name(Cipher::Aes256),
        ]);
    }
    v
}

/// Builds the default prioritized hash catalog.
pub fn default_hashes() -> (r: Vec<Vec<u8>>)
    ensures
        r.deep_view() == seq![
            algo::hash_name(Digest::Sha256),
            algo::hash_name(Digest::Sha512),
        ],
{
    let mut v: Vec<Vec<u8>> = Vec::new();
    v.push(algo::hash_name_vec(Digest::Sha256));
    v.push(algo::hash_name_vec(Digest::Sha512));
    proof {
        assert(v.deep_view().len() == 2);
        assert(v.deep_view()[0] == v@[0]@);
        assert(v.deep_view()[1] == v@[1]@);
        assert(v.deep_view() =~= seq![
            algo::hash_name(Digest::Sha256),
            algo::hash_name(Digest::Sha512),
        ]);
    }
    v
}

/// Default upper bound on the byte length of one encrypted frame body.
pub fn default_max_frame_len() -> (r: usize)
    ensures
        r == 8 * 1024 * 1024,
{
    8 * 1024 * 1024
}

/// Every catalog entry of this configuration names an algorithm the
/// library can run.
pub open spec fn config_catalogs_known(c: SecioConfig) -> bool {
    (forall|i: int|
        0 <= i < c.exchanges.deep_view().len() ==> algo::exchange_of_name(
            #[trigger] c.exchanges.deep_view()[i],
        ) is Some) && (forall|i: int|
        0 <= i < c.ciphers.deep_view().len() ==> algo::cipher_of_name(
            #[trigger] c.ciphers.deep_view()[i],
        ) is Some) && (forall|i: int|
        0 <= i < c.hashes.deep_view().len() ==> algo::hash_of_name(
            #[trigger] c.hashes.deep_view()[i],
        ) is Some)
}

/// Per-connection configuration: the identity key (required), the
/// prioritized algorithm catalogs and the receive-side frame cap (both
/// with fixed built-in defaults).
pub struct SecioConfig {
    pub key: SecioKeyPair,
    pub exchanges: Vec<Vec<u8>>,
    pub ciphers: Vec<Vec<u8>>,
    pub hashes: Vec<Vec<u8>>,
    pub max_frame_len: usize,
}

impl SecioConfig {
    /// A configuration with the built-in catalogs and frame cap.
    pub fn new(key: SecioKeyPair) -> (r: SecioConfig)
        ensures
            r.key == key,
            r.exchanges.deep_view() == seq![
                algo::exchange_name(Exchange::P256),
                algo::exchange_name(Exchange::P384),
            ],
            r.ciphers.deep_view() == seq![
                algo::cipher_name(Cipher::Aes128),
                algo::cipher_name(Cipher::Aes256),
            ],
            r.hashes.deep_view() == seq![
                algo::hash_name(Digest::Sha256),
                algo::hash_name(Digest::Sha512),
            ],
            r.max_frame_len == 8 * 1024 * 1024,
    {
        SecioConfig {
            key,
            exchanges: default_exchanges(),
            ciphers: default_ciphers(),
            hashes: default_hashes(),
            max_frame_len: default_max_frame_len(),
        }
    }

    /// Starts a handshake under this configuration: returns the state that
    /// awaits the remote Propose, and the local Propose bytes to send.
    /// A catalog entry this library cannot run is rejected up front with
    /// KeyFormat; with runnable catalogs only a CSPRNG failure is left.
    pub fn propose(&self) -> (r: Result<(HandshakeProposed, Vec<u8>), SecioError>)
        requires
            self.key.wf(),
        ensures
            match r {
                Ok(p) => p.1@ == msg::propose_wire(p.0.local) && handshake::catalogs_known(
                    p.0.local,
                ) && p.0.local.exchanges.deep_view() == self.exchanges.deep_view()
                    && p.0.local.ciphers.deep_view() == self.ciphers.deep_view()
                    && p.0.local.hashes.deep_view() == self.hashes.deep_view()
                    && p.0.max_frame_len == self.max_frame_len,
                Err(e) => e == SecioError::Signing || (e == SecioError::KeyFormat
                    && !config_catalogs_known(*self)),
            },
    {
        let mut i: usize = 0;
        while i < self.exchanges.len()
            invariant
                0 <= i <= self.exchanges@.len(),
                forall|j: int|
                    0 <= j < i ==> algo::exchange_of_name(
                        #[trigger] self.exchanges.deep_view()[j],
                    ) is Some,
            decreases self.exchanges@.len() - i,
        {
            assert(self.exchanges.deep_view()[i as int] == self.exchanges@[i as int]@);
            if algo::parse_exchange(self.exchanges[i].as_slice()).is_none() {
                return Err(SecioError::KeyFormat);
            }
            i = i + 1;
        }
        let mut i: usize = 0;
        while i < self.ciphers.len()
            invariant
                0 <= i <= self.ciphers@.len(),
                forall|j: int|
                    0 <= j < i ==> algo::cipher_of_name(
                        #[trigger] self.ciphers.deep_view()[j],
                    ) is Some,
            decreases self.ciphers@.len() - i,
        {
            assert(self.ciphers.deep_view()[i as int] == self.ciphers@[i as int]@);
            if algo::parse_cipher(self.ciphers[i].as_slice()).is_none() {
                return Err(SecioError::KeyFormat);
            }
            i = i + 1;
        }
        let mut i: usize = 0;
        while i < self.hashes.len()
            invariant
                0 <= i <= self.hashes@.len(),
                forall|j: int|
                    0 <= j < i ==> algo::hash_of_name(
                        #[trigger] self.hashes.deep_view()[j],
                    ) is Some,
            decreases self.hashes@.len() - i,
        {
            assert(self.hashes.deep_view()[i as int] == self.hashes@[i as int]@);
            if algo::parse_hash(self.hashes[i].as_slice()).is_none() {
                return Err(SecioError::KeyFormat);
            }
            i = i + 1;
        }
        let max = self.max_frame_len;
        let ex = copy_tokens(&self.exchanges);
        let ci = copy_tokens(&self.ciphers);
        let ha = copy_tokens(&self.hashes);
        match handshake::start_handshake(&self.key, ex, ci, ha, max) {
            Ok(p) => {
                proof {
                    assert(handshake::catalogs_known(p.0.local));
                }
                Ok(p)
            }
            Err(e) => Err(e),
        }
    }
}

} // verus!
