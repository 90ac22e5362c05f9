use vstd::prelude::*;
use crate::algo::Cipher;
use crate::algo::Digest;
use crate::crypto;
use crate::crypto::aes128_keystream;
use crate::crypto::aes256_keystream;
use crate::error::SecioError;
use crate::stretch::hmac;
use crate::stretch::hmac_of;
use crate::stretch::hmac_len;
use crate::wire::bytes_eq;
use crate::wire::copy_range;
use crate::wire::encode_u32_be;
use crate::wire::decode_u32_be;
use crate::wire::push_all;
use crate::wire::u32_be;
use crate::wire::u32_of_be;

verus! {

/// Key length of the selected cipher.
pub open spec fn cipher_key_len(c: Cipher) -> nat {
    match c {
        Cipher::Aes128 => 16,
        Cipher::Aes256 => 32,
    }
}

/// One direction's counter-mode cipher instance: key, IV-seeded counter,
/// and the number of keystream bytes already consumed.
pub struct StreamCipherEngine {
    pub cipher: Cipher,
    pub key: Vec<u8>,
    pub iv: Vec<u8>,
    pub offset: u64,
}

impl StreamCipherEngine {
    pub open spec fn wf(self) -> bool {
        self.key@.len() == cipher_key_len(self.cipher) && self.iv@.len() == 16
    }

    /// Byte `i` of this direction's keystream.
    pub open spec fn keystream_at(self, i: int) -> u8 {
        match self.cipher {
            Cipher::Aes128 => aes128_keystream(self.key@, self.iv@, i),
            Cipher::Aes256 => aes256_keystream(self.key@, self.iv@, i),
        }
    }

    /// Same cipher, key and IV: the same keystream.
    pub open spec fn same_keys(self, other: StreamCipherEngine) -> bool {
        self.cipher == other.cipher && self.key@ == other.key@ && self.iv@ == other.iv@
    }

    /// Applies the counter-mode transform to `data`, consuming the keystream
    /// bytes at `[offset, offset + data.len())`. A byte counter that would
    /// wrap is a fatal error, never wrapped silently.
    pub fn transform(&mut self, data: &[u8]) -> (r: Result<Vec<u8>, SecioError>)
        requires
            old(self).wf(),
        ensures
            final(self).wf(),
            final(self).same_keys(*old(self)),
            match r {
                Ok(out) => old(self).offset + data@.len() <= u64::MAX && final(self).offset == old(self).offset + data@.len() && out@ == ctr_xor(
                    *old(self),
                    old(self).offset as int,
                    data@,
                ),
                Err(e) => e == SecioError::CipherExhausted && old(self).offset + data@.len()
                    > u64::MAX && *final(self) == *old(self),
            },
    {
        if data.len() as u64 > u64::MAX - self.offset {
            return Err(SecioError::CipherExhausted);
        }
        let out = match self.cipher {
            Cipher::Aes128 => crypto::aes128_xor(
                self.key.as_slice(),
                self.iv.as_slice(),
                self.offset,
                data,
            ),
            Cipher::Aes256 => crypto::aes256_xor(
                self.key.as_slice(),
                self.iv.as_slice(),
                self.offset,
                data,
            ),
        };
        proof {
            assert(out@ =~= ctr_xor(*self, self.offset as int, data@));
        }
        self.offset = self.offset + data.len() as u64;
        Ok(out)
    }
}

/// XOR of `data` against the engine's keystream starting at byte `off`.
pub open spec fn ctr_xor(e: StreamCipherEngine, off: int, data: Seq<u8>) -> Seq<u8> {
    Seq::new(data.len(), |j: int| data[j] ^ e.keystream_at(off + j))
}

/// Applying the counter-mode transform twice at the same offset returns the
/// original bytes: encryption and decryption are one operation.
pub proof fn lemma_ctr_roundtrip(e: StreamCipherEngine, off: int, data: Seq<u8>)
    ensures
        ctr_xor(e, off, ctr_xor(e, off, data)) == data,
{
    let once = ctr_xor(e, off, data);
    let twice = ctr_xor(e, off, once);
    assert forall|j: int| 0 <= j < data.len() implies twice[j] == data[j] by {
        let a = data[j];
        let k = e.keystream_at(off + j);
        assert(((a ^ k) ^ k) == a) by (bit_vector);
    }
    assert(twice =~= data);
}

/// Frames enciphered one after the other consume disjoint keystream
/// intervals: within a session the counter never repeats, and the engine
/// rejects a counter that would wrap instead of reusing an index.
pub proof fn lemma_counter_never_repeats(
    off1: int,
    len1: int,
    off2: int,
    len2: int,
    i: int,
    j: int,
)
    requires
        0 <= len1,
        0 <= len2,
        off1 + len1 <= off2,
        off1 <= i < off1 + len1,
        off2 <= j < off2 + len2,
    ensures
        i != j,
{
}

/// Round trip of one frame between matching directions: a frame body built
/// by the send path (ciphertext at offset `off` under engine `e`, MAC over
/// the ciphertext) passes the receive path's MAC check and decrypts back to
/// the original plaintext, whatever its size.
pub proof fn lemma_frame_roundtrip(
    e: StreamCipherEngine,
    mac_key: Seq<u8>,
    h: Digest,
    off: int,
    plaintext: Seq<u8>,
)
    ensures
        ({
            let ct = ctr_xor(e, off, plaintext);
            let body = ct + hmac_of(h, mac_key, ct);
            body.len() >= hmac_of(h, mac_key, ct).len() && body.skip(
                ct.len() as int,
            ) == hmac_of(h, mac_key, ct) && body.take(ct.len() as int) == ct && ctr_xor(
                e,
                off,
                body.take(ct.len() as int),
            ) == plaintext
        }),
{
    let ct = ctr_xor(e, off, plaintext);
    let mac = hmac_of(h, mac_key, ct);
    let body = ct + mac;
    assert(body.skip(ct.len() as int) =~= mac);
    assert(body.take(ct.len() as int) =~= ct);
    lemma_ctr_roundtrip(e, off, plaintext);
}

/// The established secure channel: one raw-frame codec over two independent
/// directional cipher engines and MAC keys. Any frame-level failure marks
/// the whole session failed; later operations fail too, never resume.
pub struct SecioMiddleware {
    send: StreamCipherEngine,
    send_mac: Vec<u8>,
    recv: StreamCipherEngine,
    recv_mac: Vec<u8>,
    hash: Digest,
    max_frame_len: usize,
    failed: bool,
}

impl SecioMiddleware {
    pub closed spec fn send_engine(self) -> StreamCipherEngine {
        self.send
    }

    pub closed spec fn recv_engine(self) -> StreamCipherEngine {
        self.recv
    }

    pub closed spec fn send_mac_key(self) -> Seq<u8> {
        self.send_mac@
    }

    pub closed spec fn recv_mac_key(self) -> Seq<u8> {
        self.recv_mac@
    }

    pub closed spec fn hash_alg(self) -> Digest {
        self.hash
    }

    pub closed spec fn max_len(self) -> usize {
        self.max_frame_len
    }

    pub closed spec fn is_failed(self) -> bool {
        self.failed
    }

    pub open spec fn wf(self) -> bool {
        self.send_engine().wf() && self.recv_engine().wf()
    }

    /// Builds a session codec from the two directions' key material; both
    /// counters start at the IV.
    pub fn new(
        cipher: Cipher,
        hash: Digest,
        send_key: Vec<u8>,
        send_iv: Vec<u8>,
        send_mac: Vec<u8>,
        recv_key: Vec<u8>,
        recv_iv: Vec<u8>,
        recv_mac: Vec<u8>,
        max_frame_len: usize,
    ) -> (r: SecioMiddleware)
        requires
            send_key@.len() == cipher_key_len(cipher),
            recv_key@.len() == cipher_key_len(cipher),
            send_iv@.len() == 16,
            recv_iv@.len() == 16,
        ensures
            r.wf(),
            !r.is_failed(),
            r.hash_alg() == hash,
            r.max_len() == max_frame_len,
            r.send_engine().cipher == cipher && r.send_engine().key@ == send_key@
                && r.send_engine().iv@ == send_iv@ && r.send_engine().offset == 0,
            r.recv_engine().cipher == cipher && r.recv_engine().key@ == recv_key@
                && r.recv_engine().iv@ == recv_iv@ && r.recv_engine().offset == 0,
            r.send_mac_key() == send_mac@,
            r.recv_mac_key() == recv_mac@,
    {
        SecioMiddleware {
            send: StreamCipherEngine { cipher, key: send_key, iv: send_iv, offset: 0 },
            send_mac,
            recv: StreamCipherEngine { cipher, key: recv_key, iv: recv_iv, offset: 0 },
            recv_mac,
            hash,
            max_frame_len,
            failed: false,
        }
    }

    /// Send path: encrypt, MAC the ciphertext, prepend the length. The
    /// returned bytes are the whole wire frame.
    pub fn encrypt_frame(&mut self, plaintext: &[u8]) -> (r: Result<Vec<u8>, SecioError>)
        requires
            old(self).wf(),
        ensures
            final(self).wf(),
            final(self).hash_alg() == old(self).hash_alg(),
            final(self).max_len() == old(self).max_len(),
            final(self).send_mac_key() == old(self).send_mac_key(),
            final(self).recv_mac_key() == old(self).recv_mac_key(),
            final(self).send_engine().same_keys(old(self).send_engine()),
            final(self).recv_engine() == old(self).recv_engine(),
            match r {
                Ok(frame) => !old(self).is_failed() && !final(self).is_failed() && plaintext@.len()
                    + hmac_len(old(self).hash_alg()) <= u32::MAX && old(self).send_engine().offset
                    + plaintext@.len() <= u64::MAX && final(self).send_engine().offset == old(self).send_engine().offset + plaintext@.len() && frame@ == ({
                    let ct = ctr_xor(
                        old(self).send_engine(),
                        old(self).send_engine().offset as int,
                        plaintext@,
                    );
                    u32_be((plaintext@.len() + hmac_len(old(self).hash_alg())) as u32) + ct
                        + hmac_of(old(self).hash_alg(), old(self).send_mac_key(), ct)
                }),
                Err(e) => (e == SecioError::MacMismatch && old(self).is_failed() && *final(self) == *old(self)) || (e == SecioError::FrameTooLarge && !old(self).is_failed()
                    && plaintext@.len() + hmac_len(old(self).hash_alg()) > u32::MAX && *final(self) == *old(self)) || (e == SecioError::CipherExhausted && !old(self).is_failed()
                    && old(self).send_engine().offset + plaintext@.len() > u64::MAX && final(self).is_failed()),
            },
    {
        if self.failed {
            return Err(SecioError::MacMismatch);
        }
        let mac_l: usize = match self.hash {
            Digest::Sha256 => 32,
            Digest::Sha512 => 64,
        };
        if plaintext.len() as u64 > (u32::MAX as u64) - (mac_l as u64) {
            return Err(SecioError::FrameTooLarge);
        }
        let ct = match self.send.transform(plaintext) {
            Ok(c) => c,
            Err(e) => {
                self.failed = true;
                return Err(e);
            }
        };
        let tag = hmac(self.hash, self.send_mac.as_slice(), ct.as_slice());
        let mut frame: Vec<u8> = Vec::new();
        encode_u32_be((ct.len() + tag.len()) as u32, &mut frame);
        push_all(&mut frame, ct.as_slice());
        push_all(&mut frame, tag.as_slice());
        proof {
            assert(frame@ =~= u32_be((plaintext@.len() + hmac_len(old(self).hash_alg())) as u32)
                + ct@ + tag@);
        }
        Ok(frame)
    }

    /// Checks a received 4-byte length prefix against the configured
    /// maximum, before anything is allocated for the frame body.
    pub fn read_frame_len(&self, prefix: &[u8]) -> (r: Result<usize, SecioError>)
        requires
            prefix@.len() == 4,
        ensures
            match r {
                Ok(n) => n == u32_of_be(prefix@) && n <= self.max_len(),
                Err(e) => e == SecioError::FrameTooLarge && u32_of_be(prefix@) > self.max_len(),
            },
    {
        let n = decode_u32_be(prefix);
        if n as u64 > self.max_frame_len as u64 {
            Err(SecioError::FrameTooLarge)
        } else {
            Ok(n as usize)
        }
    }

    /// Receive path for one frame body (ciphertext then MAC): the MAC is
    /// verified before any decryption, and any failure permanently fails
    /// the session. A body too short to carry a MAC is an integrity
    /// failure like any other mismatch.
    pub fn decrypt_frame(&mut self, body: &[u8]) -> (r: Result<Vec<u8>, SecioError>)
        requires
            old(self).wf(),
        ensures
            final(self).wf(),
            final(self).hash_alg() == old(self).hash_alg(),
            final(self).max_len() == old(self).max_len(),
            final(self).send_mac_key() == old(self).send_mac_key(),
            final(self).recv_mac_key() == old(self).recv_mac_key(),
            final(self).send_engine() == old(self).send_engine(),
            final(self).recv_engine().same_keys(old(self).recv_engine()),
            match r {
                Ok(pt) => !old(self).is_failed() && !final(self).is_failed() && body@.len() <= old(self).max_len() && body@.len() >= hmac_len(old(self).hash_alg()) && ({
                    let split = body@.len() - hmac_len(old(self).hash_alg());
                    let ct = body@.take(split as int);
                    let mac = body@.skip(split as int);
                    mac == hmac_of(old(self).hash_alg(), old(self).recv_mac_key(), ct) && old(self).recv_engine().offset + ct.len() <= u64::MAX && pt@ == ctr_xor(
                        old(self).recv_engine(),
                        old(self).recv_engine().offset as int,
                        ct,
                    ) && final(self).recv_engine().offset == old(self).recv_engine().offset
                        + ct.len()
                }),
                Err(e) => (e == SecioError::MacMismatch && old(self).is_failed() && *final(self) == *old(self)) || (!old(self).is_failed() && final(self).is_failed() && ((e
                    == SecioError::FrameTooLarge && body@.len() > old(self).max_len()) || (e
                    == SecioError::MacMismatch && body@.len() <= old(self).max_len()
                    && body@.len() < hmac_len(old(self).hash_alg())) || (e
                    == SecioError::MacMismatch && body@.len() <= old(self).max_len()
                    && body@.len() >= hmac_len(old(self).hash_alg()) && ({
                    let split = body@.len() - hmac_len(old(self).hash_alg());
                    body@.skip(split as int) != hmac_of(
                        old(self).hash_alg(),
                        old(self).recv_mac_key(),
                        body@.take(split as int),
                    )
                })) || (e == SecioError::CipherExhausted && body@.len() >= hmac_len(
                    old(self).hash_alg(),
                ) && ({
                    let split = body@.len() - hmac_len(old(self).hash_alg());
                    body@.skip(split as int) == hmac_of(
                        old(self).hash_alg(),
                        old(self).recv_mac_key(),
                        body@.take(split as int),
                    )
                }) && old(self).recv_engine().offset + (body@.len() - hmac_len(
                    old(self).hash_alg(),
                )) > u64::MAX))),
            },
    {
        if self.failed {
            return Err(SecioError::MacMismatch);
        }
        if body.len() > self.max_frame_len {
            self.failed = true;
            return Err(SecioError::FrameTooLarge);
        }
        let mac_l: usize = match self.hash {
            Digest::Sha256 => 32,
            Digest::Sha512 => 64,
        };
        if body.len() < mac_l {
            self.failed = true;
            return Err(SecioError::MacMismatch);
        }
        let split = body.len() - mac_l;
        let ct = copy_range(body, 0, split);
        let mac = copy_range(body, split, body.len());
        let expected = hmac(self.hash, self.recv_mac.as_slice(), ct.as_slice());
        if !bytes_eq(expected.as_slice(), mac.as_slice()) {
            self.failed = true;
            return Err(SecioError::MacMismatch);
        }
        proof {
            assert(body@.take(split as int) =~= body@.subrange(0, split as int));
            assert(body@.skip(split as int) =~= body@.subrange(split as int, body@.len() as int));
        }
        match self.recv.transform(ct.as_slice()) {
            Ok(pt) => Ok(pt),
            Err(e) => {
                self.failed = true;
                Err(e)
            }
        }
    }
}

} // verus!
