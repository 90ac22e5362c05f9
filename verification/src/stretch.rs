use vstd::prelude::*;
use vstd::arithmetic::div_mod::lemma_fundamental_div_mod;
use crate::algo::Digest;
use crate::crypto;
use crate::crypto::hmac_sha256_of;
use crate::crypto::hmac_sha512_of;
use crate::wire::push_all;

verus! {

/// HMAC under the selected hash.
pub open spec fn hmac_of(h: Digest, key: Seq<u8>, data: Seq<u8>) -> Seq<u8> {
    match h {
        Digest::Sha256 => hmac_sha256_of(key, data),
        Digest::Sha512 => hmac_sha512_of(key, data),
    }
}

/// Tag length of the selected hash's HMAC.
pub open spec fn hmac_len(h: Digest) -> nat {
    match h {
        Digest::Sha256 => 32,
        Digest::Sha512 => 64,
    }
}

/// Computes the HMAC of `data` under `key` with the selected hash.
pub fn hmac(h: Digest, key: &[u8], data: &[u8]) -> (r: Vec<u8>)
    ensures
        r@ == hmac_of(h, key@, data@),
        r@.len() == hmac_len(h),
{
    match h {
        Digest::Sha256 => crypto::hmac_sha256(key, data),
        Digest::Sha512 => crypto::hmac_sha512(key, data),
    }
}

/// The fixed expansion seed, the ASCII bytes of "key expansion".
pub open spec fn stretch_seed() -> Seq<u8> {
    seq![107u8, 101u8, 121u8, 32u8, 101u8, 120u8, 112u8, 97u8, 110u8, 115u8, 105u8, 111u8, 110u8]
}

fn stretch_seed_vec() -> (r: Vec<u8>)
    ensures
        r@ == stretch_seed(),
{
    let mut v: Vec<u8> = Vec::new();
    v.push(107u8);
    v.push(101u8);
    v.push(121u8);
    v.push(32u8);
    v.push(101u8);
    v.push(120u8);
    v.push(112u8);
    v.push(97u8);
    v.push(110u8);
    v.push(115u8);
    v.push(105u8);
    v.push(111u8);
    v.push(110u8);
    proof {
        assert(v@ =~= stretch_seed());
    }
    v
}

/// `k` blocks of the seeded HMAC expansion with chaining value `a`:
/// each round emits HMAC(secret, a || seed) and advances a to HMAC(secret, a).
pub open spec fn expand_blocks(h: Digest, secret: Seq<u8>, a: Seq<u8>, k: nat) -> Seq<u8>
    decreases k,
{
    if k == 0 {
        seq![]
    } else {
        hmac_of(h, secret, a + stretch_seed()) + expand_blocks(
            h,
            secret,
            hmac_of(h, secret, a),
            (k - 1) as nat,
        )
    }
}

/// Number of expansion rounds that cover `out_len` bytes.
pub open spec fn rounds_for(h: Digest, out_len: nat) -> nat {
    out_len / hmac_len(h) + if out_len % hmac_len(h) != 0 {
        1nat
    } else {
        0nat
    }
}

/// The stretched key material: `out_len` bytes of the seeded HMAC expansion
/// keyed by the shared secret, a pure function of `(hash, secret)`.
pub open spec fn stretch_spec(h: Digest, secret: Seq<u8>, out_len: nat) -> Seq<u8> {
    expand_blocks(
        h,
        secret,
        hmac_of(h, secret, stretch_seed()),
        rounds_for(h, out_len),
    ).take(out_len as int)
}

/// Identical `(shared secret, hash)` inputs always stretch to identical
/// session key material, on any peer.
pub proof fn lemma_stretch_deterministic(
    h1: Digest,
    s1: Seq<u8>,
    n1: nat,
    h2: Digest,
    s2: Seq<u8>,
    n2: nat,
)
    requires
        h1 == h2,
        s1 == s2,
        n1 == n2,
    ensures
        stretch_spec(h1, s1, n1) == stretch_spec(h2, s2, n2),
{
}

proof fn lemma_rounds_cover(h: Digest, out_len: nat)
    ensures
        rounds_for(h, out_len) * hmac_len(h) >= out_len,
{
    let l = hmac_len(h) as int;
    let x = out_len as int;
    lemma_fundamental_div_mod(x, l);
    assert(x == l * (x / l) + x % l);
    if x % l == 0 {
        assert(rounds_for(h, out_len) * hmac_len(h) == (x / l) * l) by (nonlinear_arith)
            requires
                rounds_for(h, out_len) == x / l,
                l == hmac_len(h),
        ;
    } else {
        assert(rounds_for(h, out_len) * hmac_len(h) == (x / l) * l + l) by (nonlinear_arith)
            requires
                rounds_for(h, out_len) == x / l + 1,
                l == hmac_len(h),
        ;
    }
}

/// Stretches the shared secret into `out_len` bytes of key material.
pub fn stretch_keys(h: Digest, secret: &[u8], out_len: usize) -> (r: Vec<u8>)
    ensures
        r@ == stretch_spec(h, secret@, out_len as nat),
        r@.len() == out_len,
{
    let seed = stretch_seed_vec();
    let a0 = hmac(h, secret, seed.as_slice());
    let ghost a0v = a0@;
    let tag_len: usize = match h {
        Digest::Sha256 => 32,
        Digest::Sha512 => 64,
    };
    proof {
        assert((out_len / tag_len) * tag_len <= out_len) by (nonlinear_arith)
            requires
                tag_len >= 32,
        ;
    }
    let rounds: usize = out_len / tag_len + if out_len % tag_len != 0 {
        1
    } else {
        0
    };
    proof {
        assert(rounds == rounds_for(h, out_len as nat));
    }
    let mut a = a0;
    let mut out: Vec<u8> = Vec::new();
    let mut i: usize = 0;
    while i < rounds
        invariant
            0 <= i <= rounds,
            tag_len == hmac_len(h),
            seed@ == stretch_seed(),
            out@.len() == i * tag_len,
            expand_blocks(h, secret@, a0v, rounds as nat) == out@ + expand_blocks(
                h,
                secret@,
                a@,
                (rounds - i) as nat,
            ),
        decreases rounds - i,
    {
        let mut buf: Vec<u8> = Vec::new();
        push_all(&mut buf, a.as_slice());
        push_all(&mut buf, seed.as_slice());
        let b = hmac(h, secret, buf.as_slice());
        let ghost out_before = out@;
        push_all(&mut out, b.as_slice());
        let a_next = hmac(h, secret, a.as_slice());
        proof {
            assert(buf@ =~= a@ + stretch_seed());
            assert(expand_blocks(h, secret@, a@, (rounds - i) as nat) == hmac_of(
                h,
                secret@,
                a@ + stretch_seed(),
            ) + expand_blocks(h, secret@, hmac_of(h, secret@, a@), (rounds - i - 1) as nat));
            assert(out_before + (b@ + expand_blocks(
                h,
                secret@,
                a_next@,
                (rounds - i - 1) as nat,
            )) =~= (out_before + b@) + expand_blocks(h, secret@, a_next@, (rounds - i - 1) as nat));
        }
        proof {
            assert((i + 1) * tag_len == i * tag_len + tag_len) by (nonlinear_arith);
        }
        a = a_next;
        i = i + 1;
    }
    proof {
        assert(expand_blocks(h, secret@, a@, 0) =~= Seq::<u8>::empty());
        assert(out@ =~= expand_blocks(h, secret@, a0v, rounds as nat));
        lemma_rounds_cover(h, out_len as nat);
        assert(out@.len() == rounds * tag_len);
        assert(rounds as nat * hmac_len(h) >= out_len as nat);
    }
    out.truncate(out_len);
    proof {
        assert(out@ =~= stretch_spec(h, secret@, out_len as nat));
    }
    out
}

} // verus!
