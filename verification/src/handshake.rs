use vstd::prelude::*;
use crate::algo::Cipher;
use crate::algo::Digest;
use crate::algo::Exchange;
use crate::algo::cipher_of_name;
use crate::algo::exchange_of_name;
use crate::algo::first_common;
use crate::algo::hash_of_name;
use crate::algo::lemma_first_common_in_both;
use crate::algo::lemma_lex_trichotomy;
use crate::algo::lemma_no_common_symmetric;
use crate::algo::lex_less;
use crate::algo::lex_lt;
use crate::algo::parse_cipher;
use crate::algo::parse_exchange;
use crate::algo::parse_hash;
use crate::algo::select_first_common;
use crate::codec::SecioMiddleware;
use crate::codec::cipher_key_len;
use crate::crypto;
use crate::crypto::sha256_of;
use crate::error::SecioError;
use crate::keys::PublicKey;
use crate::keys::SecioKeyPair;
use crate::keys::key_data;
use crate::keys::key_type_code;
use crate::keys::signature_checks;
use crate::keys::verify_signature;
use crate::msg;
use crate::msg::Proposal;
use crate::msg::ExchangeMsg;
use crate::msg::len_field;
use crate::msg::exchange_wire;
use crate::msg::propose_wire;
use crate::msg::pubkey_wire;
use crate::stretch;
use crate::stretch::stretch_spec;
use crate::wire::bytes_eq;
use crate::wire::copy_range;
use crate::wire::push_all;

verus! {

/// The negotiated algorithm triple; identical on both peers.
#[derive(Clone, Copy, Debug, PartialEq, Eq, Structural)]
pub struct Selection {
    pub exchange: Exchange,
    pub cipher: Cipher,
    pub hash: Digest,
}

/// Order digest of one side: SHA-256 over the other side's encoded public
/// key followed by this side's nonce. Both peers can compute both digests
/// from message contents alone.
pub open spec fn order_digest(mine: Proposal, other: Proposal) -> Seq<u8> {
    sha256_of(pubkey_wire(key_type_code(other.pubkey), key_data(other.pubkey)) + mine.rand@)
}

/// This peer's catalogs are scanned first when its order digest is the
/// strictly larger of the two.
pub open spec fn local_goes_first(local: Proposal, remote: Proposal) -> bool {
    lex_lt(order_digest(remote, local), order_digest(local, remote))
}

/// Selection with `a` designated first: the earliest entry of each of `a`'s
/// catalogs that `b` also offers.
pub open spec fn negotiate_tokens(a: Proposal, b: Proposal) -> Result<
    (Seq<u8>, Seq<u8>, Seq<u8>),
    SecioError,
> {
    let ex = first_common(a.exchanges.deep_view(), b.exchanges.deep_view());
    let ci = first_common(a.ciphers.deep_view(), b.ciphers.deep_view());
    let ha = first_common(a.hashes.deep_view(), b.hashes.deep_view());
    if ex is Some && ci is Some && ha is Some {
        Ok((ex->Some_0, ci->Some_0, ha->Some_0))
    } else {
        Err(SecioError::NoCommonAlgorithm)
    }
}

/// Deterministic negotiation from both proposals: equal order digests are a
/// self-dial and fail closed; otherwise the larger digest's catalogs are
/// scanned for the earliest entry the other side also offers.
pub open spec fn negotiate_spec(local: Proposal, remote: Proposal) -> Result<
    (Seq<u8>, Seq<u8>, Seq<u8>),
    SecioError,
> {
    if order_digest(local, remote) == order_digest(remote, local) {
        Err(SecioError::Handshake)
    } else if local_goes_first(local, remote) {
        negotiate_tokens(local, remote)
    } else {
        negotiate_tokens(remote, local)
    }
}

/// Both peers compute the same result from the same pair of proposals:
/// negotiation is symmetric in its arguments, with no extra round-trip.
pub proof fn lemma_negotiation_symmetric(a: Proposal, b: Proposal)
    ensures
        negotiate_spec(a, b) == negotiate_spec(b, a),
{
    lemma_lex_trichotomy(order_digest(a, b), order_digest(b, a));
}

/// Distinct peers whose proposals share no entry in some category always
/// fail with NoCommonAlgorithm, whichever side is designated first.
pub proof fn lemma_empty_intersection_fails(a: Proposal, b: Proposal)
    requires
        order_digest(a, b) != order_digest(b, a),
        first_common(a.exchanges.deep_view(), b.exchanges.deep_view()) is None || first_common(
            a.ciphers.deep_view(),
            b.ciphers.deep_view(),
        ) is None || first_common(a.hashes.deep_view(), b.hashes.deep_view()) is None,
    ensures
        negotiate_spec(a, b) == Err::<(Seq<u8>, Seq<u8>, Seq<u8>), SecioError>(
            SecioError::NoCommonAlgorithm,
        ),
{
    lemma_no_common_symmetric(a.exchanges.deep_view(), b.exchanges.deep_view());
    lemma_no_common_symmetric(a.ciphers.deep_view(), b.ciphers.deep_view());
    lemma_no_common_symmetric(a.hashes.deep_view(), b.hashes.deep_view());
}

/// Every catalog entry of a proposal names an algorithm this library runs.
pub open spec fn catalogs_known(p: Proposal) -> bool {
    (forall|i: int|
        0 <= i < p.exchanges.deep_view().len() ==> exchange_of_name(
            #[trigger] p.exchanges.deep_view()[i],
        ) is Some) && (forall|i: int|
        0 <= i < p.ciphers.deep_view().len() ==> cipher_of_name(
            #[trigger] p.ciphers.deep_view()[i],
        ) is Some) && (forall|i: int|
        0 <= i < p.hashes.deep_view().len() ==> hash_of_name(
            #[trigger] p.hashes.deep_view()[i],
        ) is Some)
}

/// Computes the deterministic selection from the two proposals, with the
/// tie-break order, mapping the chosen wire names onto algorithms.
pub fn negotiate(local: &Proposal, remote: &Proposal) -> (r: Result<
    (Selection, bool),
    SecioError,
>)
    requires
        catalogs_known(*local),
    ensures
        match r {
            Ok(p) => {
                let t = negotiate_spec(*local, *remote);
                t is Ok && exchange_of_name(t->Ok_0.0) == Some(p.0.exchange) && cipher_of_name(
                    t->Ok_0.1,
                ) == Some(p.0.cipher) && hash_of_name(t->Ok_0.2) == Some(p.0.hash) && p.1
                    == local_goes_first(*local, *remote)
            },
            Err(e) => negotiate_spec(*local, *remote) == Err::<
                (Seq<u8>, Seq<u8>, Seq<u8>),
                SecioError,
            >(e),
        },
{
    let local_pk_enc = msg::encode_pubkey_vec(&local.pubkey);
    let remote_pk_enc = msg::encode_pubkey_vec(&remote.pubkey);
    let mut buf1: Vec<u8> = Vec::new();
    push_all(&mut buf1, remote_pk_enc.as_slice());
    push_all(&mut buf1, local.rand.as_slice());
    let oh_l = crypto::sha256(buf1.as_slice());
    let mut buf2: Vec<u8> = Vec::new();
    push_all(&mut buf2, local_pk_enc.as_slice());
    push_all(&mut buf2, remote.rand.as_slice());
    let oh_r = crypto::sha256(buf2.as_slice());
    proof {
        assert(buf1@ =~= pubkey_wire(key_type_code(remote.pubkey), key_data(remote.pubkey))
            + local.rand@);
        assert(buf2@ =~= pubkey_wire(key_type_code(local.pubkey), key_data(local.pubkey))
            + remote.rand@);
        assert(oh_l@ == order_digest(*local, *remote));
        assert(oh_r@ == order_digest(*remote, *local));
    }
    if bytes_eq(oh_l.as_slice(), oh_r.as_slice()) {
        return Err(SecioError::Handshake);
    }
    let local_first = lex_less(oh_r.as_slice(), oh_l.as_slice());
    let ex_tok = if local_first {
        select_first_common(&local.exchanges, &remote.exchanges)
    } else {
        select_first_common(&remote.exchanges, &local.exchanges)
    };
    let ci_tok = if local_first {
        select_first_common(&local.ciphers, &remote.ciphers)
    } else {
        select_first_common(&remote.ciphers, &local.ciphers)
    };
    let ha_tok = if local_first {
        select_first_common(&local.hashes, &remote.hashes)
    } else {
        select_first_common(&remote.hashes, &local.hashes)
    };
    let ex_tok = match ex_tok {
        Some(t) => t,
        None => { return Err(SecioError::NoCommonAlgorithm); },
    };
    let ci_tok = match ci_tok {
        Some(t) => t,
        None => { return Err(SecioError::NoCommonAlgorithm); },
    };
    let ha_tok = match ha_tok {
        Some(t) => t,
        None => { return Err(SecioError::NoCommonAlgorithm); },
    };
    proof {
        if local_first {
            lemma_first_common_in_both(local.exchanges.deep_view(), remote.exchanges.deep_view());
            lemma_first_common_in_both(local.ciphers.deep_view(), remote.ciphers.deep_view());
            lemma_first_common_in_both(local.hashes.deep_view(), remote.hashes.deep_view());
        } else {
            lemma_first_common_in_both(remote.exchanges.deep_view(), local.exchanges.deep_view());
            lemma_first_common_in_both(remote.ciphers.deep_view(), local.ciphers.deep_view());
            lemma_first_common_in_both(remote.hashes.deep_view(), local.hashes.deep_view());
        }
        let i = choose|i: int|
            0 <= i < local.exchanges.deep_view().len() && local.exchanges.deep_view()[i]
                == ex_tok@;
        assert(exchange_of_name(local.exchanges.deep_view()[i]) is Some);
        let j = choose|j: int|
            0 <= j < local.ciphers.deep_view().len() && local.ciphers.deep_view()[j] == ci_tok@;
        assert(cipher_of_name(local.ciphers.deep_view()[j]) is Some);
        let k = choose|k: int|
            0 <= k < local.hashes.deep_view().len() && local.hashes.deep_view()[k] == ha_tok@;
        assert(hash_of_name(local.hashes.deep_view()[k]) is Some);
    }
    let exchange = match parse_exchange(ex_tok.as_slice()) {
        Some(e) => e,
        None => { return Err(SecioError::Handshake); },
    };
    let cipher = match parse_cipher(ci_tok.as_slice()) {
        Some(c) => c,
        None => { return Err(SecioError::Handshake); },
    };
    let hash = match parse_hash(ha_tok.as_slice()) {
        Some(h) => h,
        None => { return Err(SecioError::Handshake); },
    };
    Ok((Selection { exchange, cipher, hash }, local_first))
}

/// The canonical transcript: SHA-256 over the exact wire bytes of both
/// Propose messages, first peer's bytes first.
pub open spec fn transcript_digest(local: Proposal, remote: Proposal) -> Seq<u8> {
    if local_goes_first(local, remote) {
        sha256_of(propose_wire(local) + propose_wire(remote))
    } else {
        sha256_of(propose_wire(remote) + propose_wire(local))
    }
}

/// Distinct peers bind the same transcript digest.
pub proof fn lemma_transcript_symmetric(a: Proposal, b: Proposal)
    requires
        order_digest(a, b) != order_digest(b, a),
    ensures
        transcript_digest(a, b) == transcript_digest(b, a),
{
    lemma_lex_trichotomy(order_digest(a, b), order_digest(b, a));
}

/// A handshake that has sent its Propose and awaits the remote one.
pub struct HandshakeProposed {
    pub local: Proposal,
    pub max_frame_len: usize,
}

/// Builds the local Propose message from the identity key, a fresh random
/// nonce and the prioritized catalogs, and returns the bytes to send.
pub fn start_handshake(
    kp: &SecioKeyPair,
    exchanges: Vec<Vec<u8>>,
    ciphers: Vec<Vec<u8>>,
    hashes: Vec<Vec<u8>>,
    max_frame_len: usize,
) -> (r: Result<(HandshakeProposed, Vec<u8>), SecioError>)
    requires
        kp.wf(),
    ensures
        match r {
            Ok(p) => p.1@ == propose_wire(p.0.local) && p.0.local.rand@.len() == 16
                && key_type_code(p.0.local.pubkey) == kp.public_model().0 && key_data(
                p.0.local.pubkey,
            ) == kp.public_model().1 && p.0.local.exchanges.deep_view() == exchanges.deep_view()
                && p.0.local.ciphers.deep_view() == ciphers.deep_view()
                && p.0.local.hashes.deep_view() == hashes.deep_view() && p.0.max_frame_len
                == max_frame_len,
            Err(e) => e == SecioError::Signing,
        },
{
    let rand = match crypto::random_bytes(16) {
        Ok(r) => r,
        Err(_) => { return Err(SecioError::Signing); },
    };
    let pubkey = kp.to_public_key();
    let local = Proposal { rand, pubkey, exchanges, ciphers, hashes };
    let out = msg::encode_propose(&local);
    Ok((HandshakeProposed { local, max_frame_len }, out))
}

/// A handshake that has selected algorithms, generated its ephemeral key
/// and sent its Exchange, awaiting the remote Exchange.
pub struct HandshakeExchanging {
    pub local: Proposal,
    pub remote: Proposal,
    pub selection: Selection,
    pub local_first: bool,
    pub transcript: Vec<u8>,
    pub local_epub: Vec<u8>,
    pub eph_priv: crypto::EphemeralKey,
    pub max_frame_len: usize,
}

impl HandshakeProposed {
    /// Consumes the received Propose bytes: decode, negotiate, fix the
    /// tie-break order, bind the transcript, generate the ephemeral key and
    /// emit the signed Exchange message to send.
    pub fn on_remote_propose(self, kp: &SecioKeyPair, remote_bytes: &[u8]) -> (r: Result<
        (HandshakeExchanging, Vec<u8>),
        SecioError,
    >)
        requires
            kp.wf(),
            catalogs_known(self.local),
        ensures
            match r {
                Ok(p) => {
                    let t = negotiate_spec(self.local, p.0.remote);
                    propose_wire(p.0.remote) == remote_bytes@ && p.0.local == self.local && t is Ok
                        && exchange_of_name(t->Ok_0.0) == Some(p.0.selection.exchange)
                        && cipher_of_name(t->Ok_0.1) == Some(p.0.selection.cipher)
                        && hash_of_name(t->Ok_0.2) == Some(p.0.selection.hash) && p.0.local_first
                        == local_goes_first(self.local, p.0.remote) && p.0.transcript@
                        == transcript_digest(self.local, p.0.remote) && p.0.max_frame_len
                        == self.max_frame_len && p.0.eph_priv.is_p384() == (p.0.selection.exchange
                        == Exchange::P384) && (exists|sig: Seq<u8>|
                        p.1@ == len_field(10u8, p.0.local_epub@) + len_field(18u8, sig))
                },
                Err(e) => (e == SecioError::Handshake && ((forall|p: Proposal|
                    propose_wire(p) != remote_bytes@) || (exists|p: Proposal|
                    propose_wire(p) == remote_bytes@ && negotiate_spec(self.local, p) == Err::<
                        (Seq<u8>, Seq<u8>, Seq<u8>),
                        SecioError,
                    >(SecioError::Handshake)))) || (e == SecioError::NoCommonAlgorithm && (exists|
                    p: Proposal,
                |
                    propose_wire(p) == remote_bytes@ && negotiate_spec(self.local, p) == Err::<
                        (Seq<u8>, Seq<u8>, Seq<u8>),
                        SecioError,
                    >(SecioError::NoCommonAlgorithm))) || e == SecioError::Signing,
            },
    {
        let remote = match msg::decode_propose(remote_bytes) {
            Some(p) => p,
            None => { return Err(SecioError::Handshake); },
        };
        let (selection, local_first) = match negotiate(&self.local, &remote) {
            Ok(x) => x,
            Err(e) => {
                proof {
                    assert(propose_wire(remote) == remote_bytes@ && negotiate_spec(
                        self.local,
                        remote,
                    ) == Err::<(Seq<u8>, Seq<u8>, Seq<u8>), SecioError>(e));
                }
                return Err(e);
            },
        };
        let local_bytes = msg::encode_propose(&self.local);
        let mut tbuf: Vec<u8> = Vec::new();
        if local_first {
            push_all(&mut tbuf, local_bytes.as_slice());
            push_all(&mut tbuf, remote_bytes);
        } else {
            push_all(&mut tbuf, remote_bytes);
            push_all(&mut tbuf, local_bytes.as_slice());
        }
        let transcript = crypto::sha256(tbuf.as_slice());
        proof {
            if local_first {
                assert(tbuf@ =~= propose_wire(self.local) + propose_wire(remote));
            } else {
                assert(tbuf@ =~= propose_wire(remote) + propose_wire(self.local));
            }
            assert(transcript@ == transcript_digest(self.local, remote));
        }
        let p384 = match selection.exchange {
            Exchange::P384 => true,
            Exchange::P256 => false,
        };
        let (eph_priv, local_epub) = match crypto::ecdh_generate(p384) {
            Ok(x) => x,
            Err(_) => { return Err(SecioError::Signing); },
        };
        let mut payload: Vec<u8> = Vec::new();
        push_all(&mut payload, local_epub.as_slice());
        push_all(&mut payload, transcript.as_slice());
        let signature = match kp.sign(payload.as_slice()) {
            Ok(s) => s,
            Err(e) => { return Err(e); },
        };
        let mut epub_copy: Vec<u8> = Vec::new();
        push_all(&mut epub_copy, local_epub.as_slice());
        let exch = ExchangeMsg { epubkey: local_epub, signature };
        let out = msg::encode_exchange(&exch);
        let st = HandshakeExchanging {
            local: self.local,
            remote,
            selection,
            local_first,
            transcript,
            local_epub: epub_copy,
            eph_priv,
            max_frame_len: self.max_frame_len,
        };
        Ok((st, out))
    }
}

/// What a successful handshake yields: the secure session, the verified
/// remote public key, and the local ephemeral public key bytes.
pub struct SecioOutput {
    pub stream: SecioMiddleware,
    pub remote_key: PublicKey,
    pub ephemeral_public_key: Vec<u8>,
}

impl HandshakeExchanging {
    /// Consumes the received Exchange bytes: verify the remote signature
    /// over the remote ephemeral key and the bound transcript, run the key
    /// agreement, stretch the session keys, and assemble the session.
    pub fn on_remote_exchange(self, remote_bytes: &[u8]) -> (r: Result<SecioOutput, SecioError>)
        ensures
            match r {
                Ok(out) => {
                    &&& exists|epk: Seq<u8>, sig: Seq<u8>|
                        remote_bytes@ == len_field(10u8, epk) + len_field(18u8, sig)
                            && signature_checks(self.remote.pubkey, epk + self.transcript@, sig)
                    &&& key_type_code(out.remote_key) == key_type_code(self.remote.pubkey)
                    &&& key_data(out.remote_key) == key_data(self.remote.pubkey)
                    &&& out.ephemeral_public_key@ == self.local_epub@
                    &&& out.stream.wf()
                    &&& !out.stream.is_failed()
                    &&& out.stream.max_len() == self.max_frame_len
                    &&& out.stream.hash_alg() == self.selection.hash
                    &&& out.stream.send_engine().cipher == self.selection.cipher
                    &&& out.stream.recv_engine().cipher == self.selection.cipher
                    &&& out.stream.send_engine().offset == 0
                    &&& out.stream.recv_engine().offset == 0
                    &&& exists|secret: Seq<u8>| session_keys_come_from(self, secret, out)
                },
                Err(e) => (e == SecioError::Handshake && ((forall|m: ExchangeMsg|
                    exchange_wire(m) != remote_bytes@) || (exists|epk: Seq<u8>, sig: Seq<u8>|
                    remote_bytes@ == len_field(10u8, epk) + len_field(18u8, sig)
                        && signature_checks(self.remote.pubkey, epk + self.transcript@, sig)
                        && !crypto::ecdh_point_ok(self.eph_priv.is_p384(), epk)))) || (e
                    == SecioError::SignatureVerification && (exists|epk: Seq<u8>, sig: Seq<u8>|
                    remote_bytes@ == len_field(10u8, epk) + len_field(18u8, sig)
                        && !signature_checks(self.remote.pubkey, epk + self.transcript@, sig))),
            },
    {
        let ghost hs = self;
        let m = match msg::decode_exchange(remote_bytes) {
            Some(m) => m,
            None => { return Err(SecioError::Handshake); },
        };
        let mut payload: Vec<u8> = Vec::new();
        push_all(&mut payload, m.epubkey.as_slice());
        push_all(&mut payload, self.transcript.as_slice());
        if !verify_signature(&self.remote.pubkey, payload.as_slice(), m.signature.as_slice()) {
            proof {
                assert(payload@ =~= m.epubkey@ + self.transcript@);
            }
            return Err(SecioError::SignatureVerification);
        }
        proof {
            assert(payload@ =~= m.epubkey@ + self.transcript@);
        }
        let secret = match crypto::ecdh_agree(self.eph_priv, m.epubkey.as_slice()) {
            Ok(s) => s,
            Err(_) => {
                proof {
                    assert(remote_bytes@ == len_field(10u8, m.epubkey@) + len_field(
                        18u8,
                        m.signature@,
                    ));
                }
                return Err(SecioError::Handshake);
            },
        };
        let key_l: usize = match self.selection.cipher {
            Cipher::Aes128 => 16,
            Cipher::Aes256 => 32,
        };
        let half: usize = 16 + key_l + 20;
        let total: usize = 2 * half;
        let stretched = stretch::stretch_keys(self.selection.hash, secret.as_slice(), total);
        let first_iv = copy_range(stretched.as_slice(), 0, 16);
        let first_key = copy_range(stretched.as_slice(), 16, 16 + key_l);
        let first_mac = copy_range(stretched.as_slice(), 16 + key_l, half);
        let second_iv = copy_range(stretched.as_slice(), half, half + 16);
        let second_key = copy_range(stretched.as_slice(), half + 16, half + 16 + key_l);
        let second_mac = copy_range(stretched.as_slice(), half + 16 + key_l, total);
        let stream = if self.local_first {
            SecioMiddleware::new(
                self.selection.cipher,
                self.selection.hash,
                first_key,
                first_iv,
                first_mac,
                second_key,
                second_iv,
                second_mac,
                self.max_frame_len,
            )
        } else {
            SecioMiddleware::new(
                self.selection.cipher,
                self.selection.hash,
                second_key,
                second_iv,
                second_mac,
                first_key,
                first_iv,
                first_mac,
                self.max_frame_len,
            )
        };
        let out = SecioOutput {
            stream,
            remote_key: self.remote.pubkey,
            ephemeral_public_key: self.local_epub,
        };
        proof {
            assert(remote_bytes@ == len_field(10u8, m.epubkey@) + len_field(18u8, m.signature@));
            assert(signature_checks(hs.remote.pubkey, m.epubkey@ + hs.transcript@, m.signature@));
            assert(session_keys_come_from(hs, secret@, out));
        }
        Ok(out)
    }
}

/// The session keys in `out` are the two disjoint halves of the stretched
/// key material of `secret`, the first half keying the tie-break winner's
/// send direction.
pub open spec fn session_keys_come_from(
    hs: HandshakeExchanging,
    secret: Seq<u8>,
    out: SecioOutput,
) -> bool {
    let half = (16 + cipher_key_len(hs.selection.cipher) + 20) as int;
    let total = 2 * half;
    let st = stretch_spec(hs.selection.hash, secret, total as nat);
    let first_iv = st.subrange(0, 16);
    let first_key = st.subrange(16, 16 + cipher_key_len(hs.selection.cipher) as int);
    let first_mac = st.subrange(16 + cipher_key_len(hs.selection.cipher) as int, half);
    let second_iv = st.subrange(half, half + 16);
    let second_key = st.subrange(half + 16, half + 16 + cipher_key_len(hs.selection.cipher) as int);
    let second_mac = st.subrange(half + 16 + cipher_key_len(hs.selection.cipher) as int, total);
    if hs.local_first {
        out.stream.send_engine().iv@ == first_iv && out.stream.send_engine().key@ == first_key
            && out.stream.send_mac_key() == first_mac && out.stream.recv_engine().iv@ == second_iv
            && out.stream.recv_engine().key@ == second_key && out.stream.recv_mac_key()
            == second_mac
    } else {
        out.stream.send_engine().iv@ == second_iv && out.stream.send_engine().key@ == second_key
            && out.stream.send_mac_key() == second_mac && out.stream.recv_engine().iv@ == first_iv
            && out.stream.recv_engine().key@ == first_key && out.stream.recv_mac_key() == first_mac
    }
}

} // verus!
