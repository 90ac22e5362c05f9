use vstd::prelude::*;

verus! {

/// Big-endian 4-byte encoding of a `u32`.
pub open spec fn u32_be(n: u32) -> Seq<u8> {
    seq![
        (n >> 24) as u8,
        ((n >> 16) & 0xff) as u8,
        ((n >> 8) & 0xff) as u8,
        (n & 0xff) as u8,
    ]
}

/// The `u32` read back from 4 big-endian bytes.
pub open spec fn u32_of_be(s: Seq<u8>) -> u32
    recommends
        s.len() == 4,
{
    (((s[0] as u32) << 24) | ((s[1] as u32) << 16) | ((s[2] as u32) << 8) | (s[3] as u32)) as u32
}

/// Reading back the four big-endian bytes of a `u32` yields the same number.
pub proof fn lemma_u32_be_roundtrip(n: u32)
    ensures
        u32_of_be(u32_be(n)) == n,
{
    assert(((((n >> 24) as u8) as u32) << 24
        | ((((n >> 16) & 0xff) as u8) as u32) << 16
        | ((((n >> 8) & 0xff) as u8) as u32) << 8
        | (((n & 0xff) as u8) as u32)) == n) by (bit_vector);
}

pub fn encode_u32_be(n: u32, out: &mut Vec<u8>)
    ensures
        final(out)@ == old(out)@ + u32_be(n),
{
    out.push((n >> 24) as u8);
    out.push(((n >> 16) & 0xff) as u8);
    out.push(((n >> 8) & 0xff) as u8);
    out.push((n & 0xff) as u8);
    assert(out@ =~= old(out)@ + u32_be(n));
}

pub fn decode_u32_be(b: &[u8]) -> (r: u32)
    requires
        b@.len() == 4,
    ensures
        r == u32_of_be(b@),
{
    ((b[0] as u32) << 24) | ((b[1] as u32) << 16) | ((b[2] as u32) << 8) | (b[3] as u32)
}

/// Byte-for-byte equality of two slices.
pub fn bytes_eq(a: &[u8], b: &[u8]) -> (r: bool)
    ensures
        r == (a@ == b@),
{
    if a.len() != b.len() {
        return false;
    }
    let mut i: usize = 0;
    while i < a.len()
        invariant
            0 <= i <= a@.len(),
            a@.len() == b@.len(),
            forall|j: int| 0 <= j < i ==> a@[j] == b@[j],
        decreases a@.len() - i,
    {
        if a[i] != b[i] {
            return false;
        }
        i = i + 1;
    }
    proof {
        assert(a@ =~= b@);
    }
    true
}

/// Appends all of `src` to `dst`.
pub fn push_all(dst: &mut Vec<u8>, src: &[u8])
    ensures
        final(dst)@ == old(dst)@ + src@,
{
    let mut i: usize = 0;
    while i < src.len()
        invariant
            0 <= i <= src@.len(),
            dst@ == old(dst)@ + src@.take(i as int),
        decreases src@.len() - i,
    {
        dst.push(src[i]);
        proof {
            assert(src@.take(i + 1 as int) =~= src@.take(i as int).push(src@[i as int]));
            assert(dst@ =~= old(dst)@ + src@.take(i + 1 as int));
        }
        i = i + 1;
    }
    proof {
        assert(src@.take(src@.len() as int) =~= src@);
    }
}

/// Copies `b[start..end]` into a fresh vector.
pub fn copy_range(b: &[u8], start: usize, end: usize) -> (r: Vec<u8>)
    requires
        start <= end <= b@.len(),
    ensures
        r@ == b@.subrange(start as int, end as int),
{
    let mut out: Vec<u8> = Vec::new();
    let mut i: usize = start;
    while i < end
        invariant
            start <= i <= end <= b@.len(),
            out@ == b@.subrange(start as int, i as int),
        decreases end - i,
    {
        out.push(b[i]);
        proof {
            assert(b@.subrange(start as int, i + 1) =~= b@.subrange(start as int, i as int).push(
                b@[i as int],
            ));
        }
        i = i + 1;
    }
    out
}

/// Minimal little-endian base-128 encoding of an unsigned number, as used
/// for lengths and tags in the handshake envelope wire format.
pub open spec fn varint(n: nat) -> Seq<u8>
    decreases n,
{
    if n < 128 {
        seq![n as u8]
    } else {
        seq![(128 + n % 128) as u8] + varint(n / 128)
    }
}

pub fn write_varint(dst: &mut Vec<u8>, n: u64)
    ensures
        final(dst)@ == old(dst)@ + varint(n as nat),
{
    let mut x: u64 = n;
    while x >= 128
        invariant
            old(dst)@ + varint(n as nat) == dst@ + varint(x as nat),
        decreases x,
    {
        let b: u8 = (128 + (x % 128)) as u8;
        dst.push(b);
        proof {
            assert(varint(x as nat) == seq![b] + varint((x as nat) / 128));
            assert(dst@.push(b) + varint((x as nat) / 128) =~= dst@ + varint(x as nat));
        }
        x = x / 128;
    }
    dst.push(x as u8);
    proof {
        assert(varint(x as nat) == seq![x as u8]);
        assert(dst@ =~= old(dst)@ + varint(n as nat));
    }
}

/// A canonical base-128 number for `n` sits at `pos` in `b`.
pub open spec fn varint_at(b: Seq<u8>, pos: int, n: nat) -> bool {
    pos >= 0 && pos + varint(n).len() <= b.len() && b.subrange(pos, pos + varint(n).len() as int)
        == varint(n)
}

/// A canonical form of `n >= 128` carries a canonical form of `n / 128`
/// right after its first byte.
proof fn lemma_varint_tail(b: Seq<u8>, pos: int, n: nat)
    requires
        n >= 128,
        varint_at(b, pos, n),
    ensures
        varint_at(b, pos + 1, n / 128),
        b[pos] == (128 + n % 128) as u8,
{
    let v = varint(n);
    let w = varint(n / 128);
    assert(v == seq![(128 + n % 128) as u8] + w);
    assert(b[pos] == b.subrange(pos, pos + v.len() as int)[0]);
    assert forall|k: int| 0 <= k < w.len() implies b.subrange(pos + 1, pos + 1 + w.len() as int)[k]
        == w[k] by {
        assert(b.subrange(pos + 1, pos + 1 + w.len() as int)[k] == b[pos + 1 + k]);
        assert(b.subrange(pos, pos + v.len() as int)[1 + k] == b[pos + 1 + k]);
        assert(v[1 + k] == w[k]);
    }
    assert(b.subrange(pos + 1, pos + 1 + w.len() as int) =~= w);
}

/// Two numbers whose canonical forms begin at the same position are the
/// same number.
pub proof fn lemma_varint_at_unique(b: Seq<u8>, pos: int, n1: nat, n2: nat)
    requires
        varint_at(b, pos, n1),
        varint_at(b, pos, n2),
    ensures
        n1 == n2,
    decreases n1,
{
    let v1 = varint(n1);
    let v2 = varint(n2);
    assert(b[pos] == v1[0]);
    assert(b[pos] == v2[0]);
    if n1 < 128 && n2 < 128 {
        assert(v1[0] == n1 as u8);
        assert(v2[0] == n2 as u8);
    } else if n1 < 128 && n2 >= 128 {
        assert(v1[0] == n1 as u8 && v1[0] < 128);
        assert(v2[0] == (128 + n2 % 128) as u8 && v2[0] >= 128);
    } else if n1 >= 128 && n2 < 128 {
        assert(v1[0] == (128 + n1 % 128) as u8 && v1[0] >= 128);
        assert(v2[0] == n2 as u8 && v2[0] < 128);
    } else {
        lemma_varint_tail(b, pos, n1);
        lemma_varint_tail(b, pos, n2);
        lemma_varint_at_unique(b, pos + 1, n1 / 128, n2 / 128);
        assert((128 + n1 % 128) as u8 == (128 + n2 % 128) as u8);
        assert(n1 % 128 == n2 % 128);
        assert(n1 == 128 * (n1 / 128) + n1 % 128) by (nonlinear_arith);
        assert(n2 == 128 * (n2 / 128) + n2 % 128) by (nonlinear_arith);
    }
}

/// Reads a canonical base-128 number at `pos`: exactly the canonical forms
/// of values up to `u64::MAX` are accepted, and a refusal means no such
/// form sits there.
pub fn read_varint(b: &[u8], pos: usize) -> (r: Option<(u64, usize)>)
    ensures
        r is Some ==> pos < r->Some_0.1 <= b@.len() && varint_at(
            b@,
            pos as int,
            r->Some_0.0 as nat,
        ) && r->Some_0.1 == pos + varint(r->Some_0.0 as nat).len(),
        r is None ==> forall|n: u64| !varint_at(b@, pos as int, n as nat),
    decreases b@.len() - pos,
{
    let blen = b.len();
    if pos >= blen {
        proof {
            assert forall|n: u64| !varint_at(b@, pos as int, n as nat) by {
                assert(varint(n as nat).len() >= 1);
            }
        }
        return None;
    }
    let byte = b[pos];
    if byte < 128 {
        proof {
            assert(varint(byte as nat) =~= seq![byte]);
            assert(b@.subrange(pos as int, pos + 1) =~= seq![byte]);
        }
        return Some((byte as u64, pos + 1));
    }
    let g: u64 = (byte - 128) as u64;
    let rest = read_varint(b, pos + 1);
    proof {
        // any matching n here is at least 128 and decomposes after this byte
        assert forall|n: u64|
            varint_at(b@, pos as int, n as nat) implies n >= 128 && varint_at(
            b@,
            pos + 1,
            (n / 128) as nat,
        ) && (n % 128) as u64 == g by {
            let nn = n as nat;
            if nn < 128 {
                assert(varint(nn)[0] == nn as u8);
                assert(b@[pos as int] == b@.subrange(pos as int, pos + 1)[0]);
            } else {
                lemma_varint_tail(b@, pos as int, nn);
            }
        }
    }
    match rest {
        None => {
            proof {
                assert forall|n: u64| !varint_at(b@, pos as int, n as nat) by {
                    if varint_at(b@, pos as int, n as nat) {
                        assert(!varint_at(b@, pos + 1, ((n / 128) as u64) as nat));
                    }
                }
            }
            None
        }
        Some((hi, end)) => {
            if hi == 0 {
                proof {
                    assert forall|n: u64| !varint_at(b@, pos as int, n as nat) by {
                        if varint_at(b@, pos as int, n as nat) {
                            lemma_varint_at_unique(b@, pos + 1, (n as nat) / 128, 0);
                            assert(n as nat >= 128);
                            assert((n as nat) / 128 >= 1);
                        }
                    }
                }
                None
            } else if hi > (u64::MAX - g) / 128 {
                proof {
                    assert forall|n: u64| !varint_at(b@, pos as int, n as nat) by {
                        if varint_at(b@, pos as int, n as nat) {
                            lemma_varint_at_unique(b@, pos + 1, (n as nat) / 128, hi as nat);
                            assert(n as nat == 128 * ((n as nat) / 128) + (n as nat) % 128)
                                by (nonlinear_arith);
                            assert(n as nat == 128 * (hi as nat) + g);
                            assert(128 * (hi as nat) + g > u64::MAX) by (nonlinear_arith)
                                requires
                                    hi > (u64::MAX - g) / 128,
                                    g < 128,
                                    (u64::MAX - g) as int == 128 * (((u64::MAX - g) as int)
                                        / 128) + ((u64::MAX - g) as int) % 128,
                                    0 <= ((u64::MAX - g) as int) % 128 < 128,
                            ;
                        }
                    }
                    vstd::arithmetic::div_mod::lemma_fundamental_div_mod(
                        (u64::MAX - g) as int,
                        128,
                    );
                }
                None
            } else {
                proof {
                    vstd::arithmetic::div_mod::lemma_fundamental_div_mod((u64::MAX - g) as int, 128);
                    assert(128 * (hi as int) <= (u64::MAX - g) as int) by (nonlinear_arith)
                        requires
                            hi <= (u64::MAX - g) / 128,
                            (u64::MAX - g) as int == 128 * (((u64::MAX - g) as int) / 128) + ((
                            u64::MAX - g) as int) % 128,
                            0 <= ((u64::MAX - g) as int) % 128,
                    ;
                }
                let value: u64 = g + 128 * hi;
                proof {
                    vstd::arithmetic::div_mod::lemma_fundamental_div_mod_converse(
                        value as int,
                        128,
                        hi as int,
                        g as int,
                    );
                    assert((value as nat) / 128 == hi as nat);
                    assert((value as nat) % 128 == g as nat);
                    assert(value >= 128) by (nonlinear_arith)
                        requires
                            hi >= 1,
                            value == g + 128 * hi,
                    ;
                    assert(varint(value as nat) == seq![(128 + (value as nat) % 128) as u8]
                        + varint((value as nat) / 128));
                    assert((128 + (value as nat) % 128) as u8 == byte);
                    assert(b@.subrange(pos as int, end as int) =~= seq![byte] + b@.subrange(
                        pos + 1,
                        end as int,
                    ));
                    assert(b@.subrange(pos as int, end as int) == varint(value as nat));
                }
                Some((value, end))
            }
        }
    }
}

} // verus!
